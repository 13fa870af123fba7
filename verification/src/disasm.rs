//! Analysis of a decoded shader program.

use crate::dependency::{accumulate, Action, DependencySet};
use crate::report::{render, report, IoDeclaration};
use vstd::prelude::*;

verus! {

/// Replays the actions of a program in order and returns what each of its
/// locations depends on.
pub fn analyze_program(actions: &Vec<Action>) -> (deps: DependencySet)
    ensures
        deps@ == accumulate(actions@),
{
    let mut deps = DependencySet::new();
    let mut i: usize = 0;
    assert(actions@.take(0) =~= Seq::<Action>::empty());
    while i < actions.len()
        invariant
            i <= actions.len(),
            deps@ == accumulate(actions@.take(i as int)),
        decreases actions.len() - i,
    {
        deps.accum_action(&actions[i]);
        proof {
            assert(actions@.take(i + 1).drop_last() =~= actions@.take(i as int));
            assert(actions@.take(i + 1).last() == actions@[i as int]);
        }
        i = i + 1;
    }
    assert(actions@.take(i as int) =~= actions@);
    deps
}

/// The report on a program: its declared ports, what a discard depends on,
/// and what each output of the stage depends on.
pub fn print_output_depedencies(actions: &Vec<Action>, io: &Vec<IoDeclaration>) -> (text: String)
    ensures
        text@ == report(accumulate(actions@), io@),
{
    let deps = analyze_program(actions);
    render(&deps, io)
}

} // verus!
