use std::collections::BTreeSet;
use yk_fxo_disasm::dependency::{Action, DependencySet};
use yk_fxo_disasm::disasm::analyze_program;
use yk_fxo_disasm::scalar::{Component, Register, RegisterBank, Scalar, ScalarLocation, ValueKind};

fn at(bank: RegisterBank, index: u32, comp: Component) -> ScalarLocation {
    ScalarLocation { reg: Register { bank, index, kind: ValueKind::Untyped }, comp }
}

fn r(index: u32, comp: Component) -> ScalarLocation {
    at(RegisterBank::General, index, comp)
}

fn o(index: u32, comp: Component) -> ScalarLocation {
    at(RegisterBank::Output, index, comp)
}

fn v(index: u32, comp: Component) -> ScalarLocation {
    at(RegisterBank::Input, index, comp)
}

fn loc(l: ScalarLocation) -> Scalar {
    Scalar::Location(l)
}

fn assign(output: ScalarLocation, inputs: &[Scalar]) -> Action {
    Action::Dependency { output, inputs: inputs.to_vec() }
}

fn key(s: &Scalar) -> (u8, u64, u8, u8, u8) {
    match s {
        Scalar::Location(l) => {
            (0, l.reg.index as u64, l.reg.bank as u8, l.reg.kind as u8, l.comp as u8)
        }
        Scalar::Literal(v) => (1, *v, 0, 0, 0),
    }
}

fn set_of(scalars: &[Scalar]) -> BTreeSet<(u8, u64, u8, u8, u8)> {
    scalars.iter().map(key).collect()
}

fn deps_of(deps: &DependencySet, l: ScalarLocation) -> BTreeSet<(u8, u64, u8, u8, u8)> {
    set_of(&deps.dependencies(l))
}

use Component::{W, X, Y, Z};

#[test]
fn guards_reach_every_later_assignment() {
    let actions = vec![
        Action::EarlyOut { guards: vec![loc(r(1, X))] },
        assign(r(5, Y), &[loc(r(2, Z))]),
    ];
    let deps = analyze_program(&actions);
    assert_eq!(deps_of(&deps, r(5, Y)), set_of(&[loc(r(2, Z)), loc(r(1, X))]));
    assert_eq!(set_of(&deps.guards()), set_of(&[loc(r(1, X))]));
}

#[test]
fn guards_do_not_reach_earlier_assignments() {
    let actions = vec![
        assign(r(5, Y), &[loc(r(2, Z))]),
        Action::EarlyOut { guards: vec![loc(r(1, X))] },
        assign(r(6, Y), &[loc(r(2, W))]),
    ];
    let deps = analyze_program(&actions);
    assert_eq!(deps_of(&deps, r(5, Y)), set_of(&[loc(r(2, Z))]));
    assert_eq!(deps_of(&deps, r(6, Y)), set_of(&[loc(r(2, W)), loc(r(1, X))]));
}

#[test]
fn guards_of_several_early_outs_add_up() {
    let actions = vec![
        Action::EarlyOut { guards: vec![loc(r(1, X)), Scalar::Literal(3)] },
        Action::EarlyOut { guards: vec![loc(r(1, X)), loc(r(1, Y))] },
        assign(o(0, X), &[]),
    ];
    let deps = analyze_program(&actions);
    let all = [loc(r(1, X)), Scalar::Literal(3), loc(r(1, Y))];
    assert_eq!(set_of(&deps.guards()), set_of(&all));
    assert_eq!(deps.guards().len(), 3);
    assert_eq!(deps_of(&deps, o(0, X)), set_of(&all));
}

#[test]
fn a_prefix_of_a_program_gives_subsets() {
    let actions = vec![
        Action::Declaration { name: v(0, X), value: None },
        assign(r(0, X), &[loc(v(1, X)), Scalar::Literal(7)]),
        assign(r(1, X), &[loc(r(0, X)), loc(v(2, Y))]),
        Action::EarlyOut { guards: vec![loc(r(1, X))] },
        assign(r(0, X), &[loc(v(3, Z))]),
        assign(o(0, X), &[loc(r(0, X)), loc(r(1, X))]),
        Action::Declaration { name: r(0, X), value: Some(1) },
        assign(o(0, X), &[loc(o(0, X)), Scalar::Literal(9)]),
    ];
    let whole = analyze_program(&actions);
    for n in 0..=actions.len() {
        let part = analyze_program(&actions[..n].to_vec());
        for l in part.locations() {
            assert!(whole.contains(l));
            assert!(deps_of(&part, l).is_subset(&deps_of(&whole, l)), "prefix of {}", n);
        }
        assert!(set_of(&part.guards()).is_subset(&set_of(&whole.guards())));
    }
}

#[test]
fn nothing_is_present_before_the_first_action() {
    let deps = DependencySet::new();
    assert!(deps.locations().is_empty());
    assert!(deps.guards().is_empty());
    assert!(!deps.contains(r(0, X)));
    assert!(deps.dependencies(r(0, X)).is_empty());
    let deps = analyze_program(&Vec::new());
    assert!(deps.locations().is_empty());
}

#[test]
fn a_declaration_makes_a_location_present_without_dependencies() {
    for value in [None, Some(0x3f80_0000u64)] {
        let deps = analyze_program(&vec![Action::Declaration { name: v(0, X), value }]);
        assert!(deps.contains(v(0, X)));
        assert!(deps.dependencies(v(0, X)).is_empty());
        assert!(!deps.contains(v(0, Y)));
    }
}

#[test]
fn a_declaration_takes_nothing_away() {
    let actions = vec![
        assign(r(0, X), &[loc(v(1, X))]),
        Action::Declaration { name: r(0, X), value: Some(5) },
    ];
    let deps = analyze_program(&actions);
    assert_eq!(deps_of(&deps, r(0, X)), set_of(&[loc(v(1, X))]));
}

#[test]
fn an_input_that_is_present_stands_for_its_dependencies() {
    let actions = vec![
        assign(r(0, X), &[loc(v(1, X)), loc(v(1, Y))]),
        assign(o(0, X), &[loc(r(0, X))]),
    ];
    let deps = analyze_program(&actions);
    assert_eq!(deps_of(&deps, o(0, X)), set_of(&[loc(v(1, X)), loc(v(1, Y))]));
}

#[test]
fn an_input_that_is_not_present_stands_for_itself() {
    let deps = analyze_program(&vec![assign(o(0, X), &[loc(v(4, W)), Scalar::Literal(12)])]);
    assert_eq!(deps_of(&deps, o(0, X)), set_of(&[loc(v(4, W)), Scalar::Literal(12)]));
    // Naming a location as an input does not make it present.
    assert!(!deps.contains(v(4, W)));
    assert!(deps.contains(o(0, X)));
}

#[test]
fn a_declared_input_stands_for_nothing() {
    let actions = vec![
        Action::Declaration { name: v(0, X), value: None },
        assign(o(0, X), &[loc(v(0, X)), loc(v(0, Y))]),
    ];
    let deps = analyze_program(&actions);
    assert_eq!(deps_of(&deps, o(0, X)), set_of(&[loc(v(0, Y))]));
}

#[test]
fn inputs_are_resolved_against_the_state_before_the_assignment() {
    let actions = vec![
        assign(r(0, X), &[loc(v(1, X))]),
        // r0.x is among its own inputs: it stands for what it depended on
        // before, not for itself.
        assign(r(0, X), &[loc(r(0, X)), loc(v(2, X))]),
    ];
    let deps = analyze_program(&actions);
    assert_eq!(deps_of(&deps, r(0, X)), set_of(&[loc(v(1, X)), loc(v(2, X))]));
}

#[test]
fn inputs_are_resolved_one_level_deep() {
    let actions = vec![
        assign(r(1, X), &[loc(r(0, X))]),
        assign(r(0, X), &[loc(v(0, X))]),
        // r1.x stands for r0.x, as it was when r1.x was assigned.
        assign(o(0, X), &[loc(r(1, X))]),
    ];
    let deps = analyze_program(&actions);
    assert_eq!(deps_of(&deps, o(0, X)), set_of(&[loc(r(0, X))]));
}

#[test]
fn a_second_assignment_adds_to_the_first() {
    let actions = vec![
        assign(o(0, X), &[loc(v(1, X))]),
        assign(o(0, X), &[loc(v(2, X))]),
        assign(o(0, X), &[loc(v(1, X))]),
    ];
    let deps = analyze_program(&actions);
    assert_eq!(deps_of(&deps, o(0, X)), set_of(&[loc(v(1, X)), loc(v(2, X))]));
    assert_eq!(deps.dependencies(o(0, X)).len(), 2);
}

#[test]
fn locations_of_different_kind_are_different_locations() {
    let mut float = r(0, X);
    float.reg.kind = ValueKind::Float;
    let actions = vec![assign(r(0, X), &[loc(v(1, X))]), assign(o(0, X), &[loc(float)])];
    let deps = analyze_program(&actions);
    assert_eq!(deps_of(&deps, o(0, X)), set_of(&[loc(float)]));
}

#[test]
fn accumulating_step_by_step_is_analyzing_the_program() {
    let actions = vec![
        assign(r(0, X), &[loc(v(1, X))]),
        Action::EarlyOut { guards: vec![loc(r(0, X))] },
        assign(o(1, Y), &[loc(r(0, X)), Scalar::Literal(2)]),
    ];
    let mut stepwise = DependencySet::new();
    for action in &actions {
        stepwise.accum_action(action);
    }
    let whole = analyze_program(&actions);
    for l in [r(0, X), o(1, Y), v(1, X)] {
        assert_eq!(stepwise.contains(l), whole.contains(l));
        assert_eq!(deps_of(&stepwise, l), deps_of(&whole, l));
    }
    assert_eq!(set_of(&stepwise.guards()), set_of(&whole.guards()));
}

#[test]
fn repeated_assignment_does_not_grow_the_set_without_bound() {
    let mut actions = Vec::new();
    for _ in 0..200 {
        actions.push(assign(r(0, X), &[loc(r(0, X)), loc(r(0, X)), loc(v(0, X))]));
    }
    let deps = analyze_program(&actions);
    // In the first assignment r0.x was not present yet and stood for itself.
    assert_eq!(deps_of(&deps, r(0, X)), set_of(&[loc(r(0, X)), loc(v(0, X))]));
    assert_eq!(deps.dependencies(r(0, X)).len(), 2);
    assert_eq!(deps.locations().len(), 1);
}

#[test]
fn scalars_are_told_apart() {
    assert!(Scalar::Literal(1).is_literal());
    assert!(!loc(r(0, X)).is_literal());
    assert!(o(0, X).is_output());
    assert!(!r(0, X).is_output());
    assert!(!v(0, X).is_output());
    assert!(!at(RegisterBank::Constant, 0, X).is_output());
}

#[test]
fn what_is_kept_is_given_out_in_ascending_order() {
    let actions = vec![
        Action::EarlyOut { guards: vec![Scalar::Literal(1), loc(v(0, X)), loc(r(9, W))] },
        assign(o(1, X), &[Scalar::Literal(8), loc(v(2, Y)), Scalar::Literal(8), loc(r(3, Z))]),
        assign(r(7, X), &[]),
        Action::Declaration { name: at(RegisterBank::Constant, 2, Y), value: Some(4) },
    ];
    let deps = analyze_program(&actions);
    assert_eq!(
        deps.locations(),
        vec![r(7, X), at(RegisterBank::Constant, 2, Y), o(1, X)]
    );
    assert_eq!(deps.guards(), vec![loc(r(9, W)), loc(v(0, X)), Scalar::Literal(1)]);
    assert_eq!(
        deps.dependencies(o(1, X)),
        vec![
            loc(r(3, Z)),
            loc(r(9, W)),
            loc(v(0, X)),
            loc(v(2, Y)),
            Scalar::Literal(1),
            Scalar::Literal(8)
        ]
    );
    assert_eq!(deps.dependencies(r(7, X)), deps.guards());
    assert!(deps.dependencies(v(0, X)).is_empty());
}
