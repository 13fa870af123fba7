//! Accumulation of scalar dependencies.
//!
//! A decoded shader program is a sequence of actions on scalar locations.
//! Replaying the actions in program order gives, for every location that the
//! program declares or assigns, the set of scalars that its value depends on.

use crate::order::{arrange, listing, lists};
use crate::scalar::{Scalar, ScalarLocation};
use vstd::prelude::*;

verus! {

/// One step of a decoded shader program.
#[derive(Debug, Clone, PartialEq, Eq)]
pub enum Action {
    /// A location comes into existence, with a literal value or without one.
    Declaration { name: ScalarLocation, value: Option<u64> },
    /// A location is assigned a value computed from the inputs.
    Dependency { output: ScalarLocation, inputs: Vec<Scalar> },
    /// The program may stop here, depending on the guards.
    EarlyOut { guards: Vec<Scalar> },
}

/// What a program's locations depend on, as a mathematical value.
pub struct DependencyView {
    /// For each location that was declared or assigned, what it depends on.
    pub dependents: Map<ScalarLocation, Set<Scalar>>,
    /// The guards of every early-out reached so far.
    pub guards: Set<Scalar>,
}

impl DependencyView {
    /// The state before any action.
    pub open spec fn empty() -> DependencyView {
        DependencyView { dependents: Map::empty(), guards: Set::empty() }
    }

    /// Whether the location was declared or assigned.
    pub open spec fn present(self, l: ScalarLocation) -> bool {
        self.dependents.dom().contains(l)
    }

    /// What a location depends on; nothing where it is not present.
    pub open spec fn dependencies_of(self, l: ScalarLocation) -> Set<Scalar> {
        if self.present(l) {
            self.dependents[l]
        } else {
            Set::empty()
        }
    }

    /// What one input of an assignment stands for: the dependencies of a
    /// location that is present, else the input itself.
    pub open spec fn resolve(self, input: Scalar) -> Set<Scalar> {
        match input {
            Scalar::Location(l) => if self.present(l) {
                self.dependents[l]
            } else {
                set![input]
            },
            Scalar::Literal(_) => set![input],
        }
    }

    /// What all inputs of an assignment stand for together.
    pub open spec fn resolve_all(self, inputs: Seq<Scalar>) -> Set<Scalar> {
        Set::new(
            |s: Scalar|
                exists|k: int| 0 <= k < inputs.len() && #[trigger] self.resolve(inputs[k]).contains(s),
        )
    }

    /// The state after a declaration: the location is present; what it
    /// depended on before, it still depends on.
    pub open spec fn declare(self, name: ScalarLocation) -> DependencyView {
        DependencyView {
            dependents: self.dependents.insert(name, self.dependencies_of(name)),
            guards: self.guards,
        }
    }

    /// The state after an assignment: the output depends on what it depended
    /// on before, on what the inputs stand for, and on the guards reached.
    pub open spec fn assign(self, output: ScalarLocation, inputs: Seq<Scalar>) -> DependencyView {
        DependencyView {
            dependents: self.dependents.insert(
                output,
                self.dependencies_of(output) + self.resolve_all(inputs) + self.guards,
            ),
            guards: self.guards,
        }
    }

    /// The state after an early-out: its guards are added to those reached.
    pub open spec fn early_out(self, guards: Seq<Scalar>) -> DependencyView {
        DependencyView { dependents: self.dependents, guards: self.guards + guards.to_set() }
    }

    /// The state after one action.
    pub open spec fn step(self, action: Action) -> DependencyView {
        match action {
            Action::Declaration { name, value } => self.declare(name),
            Action::Dependency { output, inputs } => self.assign(output, inputs@),
            Action::EarlyOut { guards } => self.early_out(guards@),
        }
    }

    /// Every location present in `self` is present in `other`, with at least
    /// the same dependencies, and every guard of `self` is one of `other`.
    pub open spec fn within(self, other: DependencyView) -> bool {
        &&& forall|l: ScalarLocation| #[trigger] self.present(l) ==> other.present(l)
        &&& forall|l: ScalarLocation, s: Scalar|
            self.present(l) && #[trigger] self.dependents[l].contains(s)
                ==> other.dependents[l].contains(s)
        &&& forall|s: Scalar| #[trigger] self.guards.contains(s) ==> other.guards.contains(s)
    }
}

/// The state after a sequence of actions, replayed in order.
pub open spec fn accumulate(actions: Seq<Action>) -> DependencyView
    decreases actions.len(),
{
    if actions.len() == 0 {
        DependencyView::empty()
    } else {
        accumulate(actions.drop_last()).step(actions.last())
    }
}

/// An action only adds: the state before it lies within the state after it.
pub proof fn lemma_step_grows(state: DependencyView, action: Action)
    ensures
        state.within(state.step(action)),
{
}

/// Lying within is transitive.
pub proof fn lemma_within_transitive(a: DependencyView, b: DependencyView, c: DependencyView)
    requires
        a.within(b),
        b.within(c),
    ensures
        a.within(c),
{
    assert forall|l: ScalarLocation, s: Scalar|
        a.present(l) && #[trigger] a.dependents[l].contains(s) implies c.dependents[l].contains(
        s,
    ) by {
        assert(b.present(l));
        assert(b.dependents[l].contains(s));
    }
}

/// Replaying a prefix of a program gives, for each location, a subset of
/// what replaying the whole program gives; the same holds of the guards.
pub proof fn lemma_accumulate_monotone(actions: Seq<Action>, n: int)
    requires
        0 <= n <= actions.len(),
    ensures
        accumulate(actions.take(n)).within(accumulate(actions)),
    decreases actions.len() - n,
{
    if n == actions.len() {
        assert(actions.take(n) =~= actions);
    } else {
        let head = actions.drop_last();
        lemma_accumulate_monotone(head, n);
        assert(head.take(n) =~= actions.take(n));
        lemma_step_grows(accumulate(head), actions.last());
        lemma_within_transitive(
            accumulate(actions.take(n)),
            accumulate(head),
            accumulate(actions),
        );
    }
}

/// A dependency of one location on one scalar.
#[derive(Debug, Clone, Copy, PartialEq, Eq, Structural)]
struct Edge {
    output: ScalarLocation,
    input: Scalar,
}

/// What a program's locations depend on, accumulated action by action.
#[derive(Debug, Clone)]
pub struct DependencySet {
    locations: Vec<ScalarLocation>,
    edges: Vec<Edge>,
    guards: Vec<Scalar>,
}

fn holds_location(v: &Vec<ScalarLocation>, l: ScalarLocation) -> (b: bool)
    ensures
        b == v@.contains(l),
{
    let mut i: usize = 0;
    while i < v.len()
        invariant
            i <= v.len(),
            forall|k: int| 0 <= k < i ==> v@[k] != l,
        decreases v.len() - i,
    {
        if v[i] == l {
            return true;
        }
        i = i + 1;
    }
    false
}

fn holds_scalar(v: &Vec<Scalar>, s: Scalar) -> (b: bool)
    ensures
        b == v@.contains(s),
{
    let mut i: usize = 0;
    while i < v.len()
        invariant
            i <= v.len(),
            forall|k: int| 0 <= k < i ==> v@[k] != s,
        decreases v.len() - i,
    {
        if v[i] == s {
            return true;
        }
        i = i + 1;
    }
    false
}

fn holds_edge(v: &Vec<Edge>, e: Edge) -> (b: bool)
    ensures
        b == v@.contains(e),
{
    let mut i: usize = 0;
    while i < v.len()
        invariant
            i <= v.len(),
            forall|k: int| 0 <= k < i ==> v@[k] != e,
        decreases v.len() - i,
    {
        if v[i] == e {
            return true;
        }
        i = i + 1;
    }
    false
}

/// Adds `s` to `v` unless `v` holds it.
fn add_scalar(v: &mut Vec<Scalar>, s: Scalar)
    ensures
        final(v)@.to_set() == old(v)@.to_set().insert(s),
{
    let ghost before = v@;
    if !holds_scalar(v, s) {
        v.push(s);
        proof {
            assert forall|x: Scalar| v@.contains(x) <==> before.contains(x) || x == s by {
                if v@.contains(x) {
                    let k = choose|k: int| 0 <= k < v@.len() && v@[k] == x;
                    if k < before.len() {
                        assert(before[k] == x);
                    }
                }
                if before.contains(x) {
                    let k = choose|k: int| 0 <= k < before.len() && before[k] == x;
                    assert(v@[k] == x);
                }
                if x == s {
                    assert(v@[before.len() as int] == x);
                }
            }
        }
    }
    assert(v@.to_set() =~= before.to_set().insert(s));
}

impl View for DependencySet {
    type V = DependencyView;

    closed spec fn view(&self) -> DependencyView {
        DependencyView {
            dependents: Map::new(
                |l: ScalarLocation| self.holds(l),
                |l: ScalarLocation| self.inputs_of(l),
            ),
            guards: self.guards@.to_set(),
        }
    }
}

impl DependencySet {
    spec fn holds(&self, l: ScalarLocation) -> bool {
        self.locations@.contains(l) || exists|i: int|
            0 <= i < self.edges@.len() && (#[trigger] self.edges@[i]).output == l
    }

    spec fn inputs_of(&self, l: ScalarLocation) -> Set<Scalar> {
        Set::new(|s: Scalar| self.edges@.contains(Edge { output: l, input: s }))
    }

    /// A set in which no location is present and no guard was reached.
    pub fn new() -> (set: DependencySet)
        ensures
            set@ == DependencyView::empty(),
    {
        let set = DependencySet { locations: Vec::new(), edges: Vec::new(), guards: Vec::new() };
        assert(set@.dependents =~= Map::empty());
        assert(set@.guards =~= Set::empty());
        set
    }

    /// Whether the location was declared or assigned.
    pub fn contains(&self, l: ScalarLocation) -> (b: bool)
        ensures
            b == self@.present(l),
    {
        if holds_location(&self.locations, l) {
            return true;
        }
        let mut i: usize = 0;
        while i < self.edges.len()
            invariant
                i <= self.edges.len(),
                forall|k: int| 0 <= k < i ==> (#[trigger] self.edges@[k]).output != l,
            decreases self.edges.len() - i,
        {
            if self.edges[i].output == l {
                return true;
            }
            i = i + 1;
        }
        false
    }

    /// The locations that were declared or assigned, in ascending order.
    pub fn locations(&self) -> (out: Vec<ScalarLocation>)
        ensures
            out@ == listing(self@.dependents.dom()),
            lists(out@, self@.dependents.dom()),
    {
        let mut all: Vec<ScalarLocation> = Vec::new();
        let mut i: usize = 0;
        while i < self.locations.len()
            invariant
                i <= self.locations.len(),
                all@ == self.locations@.take(i as int),
            decreases self.locations.len() - i,
        {
            all.push(self.locations[i]);
            assert(all@ =~= self.locations@.take(i + 1));
            i = i + 1;
        }
        assert(all@ =~= self.locations@);
        let mut j: usize = 0;
        while j < self.edges.len()
            invariant
                j <= self.edges.len(),
                all@.len() == self.locations@.len() + j,
                forall|k: int| 0 <= k < self.locations@.len() ==> all@[k] == self.locations@[k],
                forall|k: int|
                    0 <= k < j ==> #[trigger] all@[self.locations@.len() + k]
                        == self.edges@[k].output,
            decreases self.edges.len() - j,
        {
            all.push(self.edges[j].output);
            j = j + 1;
        }
        proof {
            let n = self.locations@.len() as int;
            assert forall|l: ScalarLocation| all@.contains(l) <==> self.holds(l) by {
                if all@.contains(l) {
                    let k = choose|k: int| 0 <= k < all@.len() && all@[k] == l;
                    if k < n {
                        assert(self.locations@[k] == l);
                    } else {
                        assert(all@[n + (k - n)] == self.edges@[k - n].output);
                    }
                }
                if self.locations@.contains(l) {
                    let k = choose|k: int| 0 <= k < n && self.locations@[k] == l;
                    assert(all@[k] == l);
                }
                if exists|i: int|
                    0 <= i < self.edges@.len() && (#[trigger] self.edges@[i]).output == l {
                    let i = choose|i: int|
                        0 <= i < self.edges@.len() && (#[trigger] self.edges@[i]).output == l;
                    assert(all@[n + i] == l);
                }
            }
            assert(all@.to_set() =~= self@.dependents.dom());
        }
        arrange(&all)
    }

    /// What a location depends on, in ascending order: locations before
    /// literals.
    pub fn dependencies(&self, l: ScalarLocation) -> (out: Vec<Scalar>)
        ensures
            out@ == listing(self@.dependencies_of(l)),
            lists(out@, self@.dependencies_of(l)),
    {
        let mut all: Vec<Scalar> = Vec::new();
        self.collect(l, &mut all);
        proof {
            assert(all@.to_set() =~= self.inputs_of(l));
            if !self.holds(l) {
                self.lemma_absent(l);
            }
        }
        arrange(&all)
    }

    /// The guards of every early-out reached, in ascending order: locations
    /// before literals.
    pub fn guards(&self) -> (out: Vec<Scalar>)
        ensures
            out@ == listing(self@.guards),
            lists(out@, self@.guards),
    {
        arrange(&self.guards)
    }

    /// Only finitely many locations are present, each depends on finitely
    /// many scalars, and finitely many guards were reached.
    pub proof fn lemma_finite(&self)
        ensures
            self@.dependents.dom().finite(),
            self@.guards.finite(),
            forall|l: ScalarLocation| #[trigger] self@.dependencies_of(l).finite(),
    {
        let outputs = Seq::new(self.edges@.len(), |i: int| self.edges@[i].output);
        let inputs = Seq::new(self.edges@.len(), |i: int| self.edges@[i].input);
        vstd::seq_lib::seq_to_set_is_finite(self.locations@);
        vstd::seq_lib::seq_to_set_is_finite(outputs);
        vstd::seq_lib::seq_to_set_is_finite(inputs);
        vstd::seq_lib::seq_to_set_is_finite(self.guards@);
        let all = self.locations@.to_set() + outputs.to_set();
        assert forall|l: ScalarLocation| self@.dependents.dom().contains(l) implies all.contains(
            l,
        ) by {
            if !self.locations@.contains(l) {
                let i = choose|i: int|
                    0 <= i < self.edges@.len() && (#[trigger] self.edges@[i]).output == l;
                assert(outputs[i] == l);
            }
        }
        vstd::set_lib::lemma_set_subset_finite(all, self@.dependents.dom());
        assert forall|l: ScalarLocation| #[trigger] self@.dependencies_of(l).finite() by {
            let found = self@.dependencies_of(l);
            assert forall|s: Scalar| found.contains(s) implies inputs.to_set().contains(s) by {
                let k = choose|k: int|
                    0 <= k < self.edges@.len() && self.edges@[k] == (Edge { output: l, input: s });
                assert(inputs[k] == s);
            }
            vstd::set_lib::lemma_set_subset_finite(inputs.to_set(), found);
        }
    }

    /// Replays one action.
    pub fn accum_action(&mut self, action: &Action)
        ensures
            final(self)@ == old(self)@.step(*action),
    {
        match action {
            Action::Declaration { name, value } => self.declare(*name),
            Action::Dependency { output, inputs } => self.assign(*output, inputs),
            Action::EarlyOut { guards } => self.early_out(guards),
        }
    }

    /// A location that is not held has no inputs.
    proof fn lemma_absent(&self, l: ScalarLocation)
        requires
            !self.holds(l),
        ensures
            self.inputs_of(l) == Set::<Scalar>::empty(),
    {
        assert forall|s: Scalar| !self.inputs_of(l).contains(s) by {
            if self.edges@.contains(Edge { output: l, input: s }) {
                let k = choose|k: int|
                    0 <= k < self.edges@.len() && self.edges@[k] == (Edge { output: l, input: s });
                assert(self.edges@[k].output == l);
            }
        }
        assert(self.inputs_of(l) =~= Set::empty());
    }

    fn declare(&mut self, name: ScalarLocation)
        ensures
            final(self)@ == old(self)@.declare(name),
    {
        let ghost pre = *self;
        if !holds_location(&self.locations, name) {
            self.locations.push(name);
        }
        proof {
            let want = pre@.declare(name);
            assert forall|l: ScalarLocation| self.holds(l) <==> (pre.holds(l) || l == name) by {
                if self.locations@.contains(l) && l != name {
                    let k = choose|k: int| 0 <= k < self.locations@.len() && self.locations@[k] == l;
                    assert(pre.locations@[k] == l);
                }
                if pre.locations@.contains(l) {
                    let k = choose|k: int| 0 <= k < pre.locations@.len() && pre.locations@[k] == l;
                    assert(self.locations@[k] == l);
                }
                if l == name && !pre.locations@.contains(name) {
                    assert(self.locations@[pre.locations@.len() as int] == l);
                }
            }
            if !pre.holds(name) {
                pre.lemma_absent(name);
            }
            assert forall|l: ScalarLocation| self@.dependents.dom().contains(l) implies (
            #[trigger] self@.dependents[l]) == want.dependents[l] by {
                assert(self.inputs_of(l) =~= pre.inputs_of(l));
            }
            assert(self@.dependents =~= want.dependents);
        }
    }

    fn early_out(&mut self, guards: &Vec<Scalar>)
        ensures
            final(self)@ == old(self)@.early_out(guards@),
    {
        let ghost pre = *self;
        let mut i: usize = 0;
        while i < guards.len()
            invariant
                i <= guards.len(),
                self.locations == pre.locations,
                self.edges == pre.edges,
                self.guards@.to_set() == pre.guards@.to_set() + guards@.take(i as int).to_set(),
            decreases guards.len() - i,
        {
            add_scalar(&mut self.guards, guards[i]);
            proof {
                let a = guards@.take(i as int);
                let b = guards@.take(i + 1);
                assert(b =~= a.push(guards@[i as int]));
                let last = guards@[i as int];
                assert forall|s: Scalar| b.contains(s) <==> (a.contains(s) || s == last) by {
                    if b.contains(s) {
                        let k = choose|k: int| 0 <= k < b.len() && b[k] == s;
                        if k < a.len() {
                            assert(a[k] == s);
                        }
                    }
                    if a.contains(s) {
                        let k = choose|k: int| 0 <= k < a.len() && a[k] == s;
                        assert(b[k] == s);
                    }
                    if s == last {
                        assert(b[i as int] == s);
                    }
                }
                assert(self.guards@.to_set() =~= pre.guards@.to_set() + b.to_set());
            }
            i = i + 1;
        }
        proof {
            assert(guards@.take(i as int) =~= guards@);
            assert(self@.dependents =~= pre@.dependents);
        }
    }

    fn assign(&mut self, output: ScalarLocation, inputs: &Vec<Scalar>)
        ensures
            final(self)@ == old(self)@.assign(output, inputs@),
    {
        let ghost pre = *self;
        let mut combined: Vec<Scalar> = Vec::new();
        let mut i: usize = 0;
        while i < inputs.len()
            invariant
                i <= inputs.len(),
                *self == pre,
                forall|s: Scalar|
                    #![trigger combined@.to_set().contains(s)]
                    combined@.to_set().contains(s) <==> exists|k: int|
                        0 <= k < i && #[trigger] pre@.resolve(inputs@[k]).contains(s),
            decreases inputs.len() - i,
        {
            let input = inputs[i];
            let ghost prev = combined@.to_set();
            match input {
                Scalar::Location(l) => {
                    if self.contains(l) {
                        self.collect(l, &mut combined);
                    } else {
                        add_scalar(&mut combined, input);
                    }
                },
                Scalar::Literal(_) => {
                    add_scalar(&mut combined, input);
                },
            }
            proof {
                assert(combined@.to_set() =~= prev + pre@.resolve(input));
                assert forall|s: Scalar|
                    #![trigger combined@.to_set().contains(s)]
                    combined@.to_set().contains(s) <==> exists|k: int|
                        0 <= k < i + 1 && #[trigger] pre@.resolve(inputs@[k]).contains(s) by {
                    if combined@.to_set().contains(s) {
                        if prev.contains(s) {
                            let k = choose|k: int|
                                0 <= k < i && #[trigger] pre@.resolve(inputs@[k]).contains(s);
                            assert(0 <= k < i + 1 && pre@.resolve(inputs@[k]).contains(s));
                        } else {
                            assert(pre@.resolve(inputs@[i as int]).contains(s));
                        }
                    }
                    if exists|k: int|
                        0 <= k < i + 1 && #[trigger] pre@.resolve(inputs@[k]).contains(s) {
                        let k = choose|k: int|
                            0 <= k < i + 1 && #[trigger] pre@.resolve(inputs@[k]).contains(s);
                        if k < i {
                            assert(prev.contains(s));
                        }
                    }
                }
            }
            i = i + 1;
        }
        assert(combined@.to_set() =~= pre@.resolve_all(inputs@));
        let mut g: usize = 0;
        while g < self.guards.len()
            invariant
                g <= self.guards.len(),
                *self == pre,
                forall|s: Scalar|
                    #![trigger combined@.to_set().contains(s)]
                    combined@.to_set().contains(s) <==> (pre@.resolve_all(inputs@).contains(s)
                        || exists|k: int| 0 <= k < g && self.guards@[k] == s),
            decreases self.guards.len() - g,
        {
            let ghost prev = combined@.to_set();
            add_scalar(&mut combined, self.guards[g]);
            proof {
                assert forall|s: Scalar|
                    #![trigger combined@.to_set().contains(s)]
                    combined@.to_set().contains(s) <==> (pre@.resolve_all(inputs@).contains(s)
                        || exists|k: int| 0 <= k < g + 1 && self.guards@[k] == s) by {
                    if combined@.to_set().contains(s) && !pre@.resolve_all(inputs@).contains(s) {
                        if prev.contains(s) {
                            let k = choose|k: int| 0 <= k < g && self.guards@[k] == s;
                            assert(0 <= k < g + 1 && self.guards@[k] == s);
                        } else {
                            assert(self.guards@[g as int] == s);
                        }
                    }
                    if exists|k: int| 0 <= k < g + 1 && self.guards@[k] == s {
                        let k = choose|k: int| 0 <= k < g + 1 && self.guards@[k] == s;
                        if k < g {
                            assert(prev.contains(s));
                        }
                    }
                }
            }
            g = g + 1;
        }
        proof {
            assert forall|s: Scalar|
                combined@.to_set().contains(s) <==> (pre@.resolve_all(inputs@)
                    + pre@.guards).contains(s) by {
                if pre.guards@.contains(s) {
                    let k = choose|k: int| 0 <= k < pre.guards@.len() && pre.guards@[k] == s;
                    assert(0 <= k < g && self.guards@[k] == s);
                }
            }
            assert(combined@.to_set() =~= pre@.resolve_all(inputs@) + pre@.guards);
        }
        if !holds_location(&self.locations, output) {
            self.locations.push(output);
        }
        let ghost mid = *self;
        let mut j: usize = 0;
        while j < combined.len()
            invariant
                j <= combined.len(),
                self.locations == mid.locations,
                self.guards == mid.guards,
                forall|e: Edge|
                    #![trigger self.edges@.contains(e)]
                    self.edges@.contains(e) <==> (pre.edges@.contains(e) || (e.output == output
                        && exists|k: int| 0 <= k < j && combined@[k] == e.input)),
            decreases combined.len() - j,
        {
            let e = Edge { output, input: combined[j] };
            let ghost prev = self.edges@;
            if !holds_edge(&self.edges, e) {
                self.edges.push(e);
            }
            proof {
                assert forall|x: Edge|
                    #![trigger self.edges@.contains(x)]
                    self.edges@.contains(x) <==> (prev.contains(x) || x == e) by {
                    if self.edges@.contains(x) {
                        let k = choose|k: int| 0 <= k < self.edges@.len() && self.edges@[k] == x;
                        if k < prev.len() {
                            assert(prev[k] == x);
                        }
                    }
                    if prev.contains(x) {
                        let k = choose|k: int| 0 <= k < prev.len() && prev[k] == x;
                        assert(self.edges@[k] == x);
                    }
                    if x == e && !prev.contains(e) {
                        assert(self.edges@[prev.len() as int] == x);
                    }
                }
                assert forall|x: Edge|
                    #![trigger self.edges@.contains(x)]
                    self.edges@.contains(x) <==> (pre.edges@.contains(x) || (x.output == output
                        && exists|k: int| 0 <= k < j + 1 && combined@[k] == x.input)) by {
                    if self.edges@.contains(x) && !pre.edges@.contains(x) {
                        if prev.contains(x) {
                            let k = choose|k: int| 0 <= k < j && combined@[k] == x.input;
                            assert(0 <= k < j + 1 && combined@[k] == x.input);
                        } else {
                            assert(combined@[j as int] == x.input);
                        }
                    }
                    if x.output == output && exists|k: int|
                        0 <= k < j + 1 && combined@[k] == x.input {
                        let k = choose|k: int| 0 <= k < j + 1 && combined@[k] == x.input;
                        if k < j {
                            assert(prev.contains(x));
                        } else {
                            assert(x == e);
                        }
                    }
                }
            }
            j = j + 1;
        }
        proof {
            let want = pre@.assign(output, inputs@);
            let added = combined@.to_set();
            assert forall|l: ScalarLocation, s: Scalar|
                self.inputs_of(l).contains(s) <==> (pre.inputs_of(l).contains(s) || (l == output
                    && added.contains(s))) by {
                let e = Edge { output: l, input: s };
                if self.edges@.contains(e) && !pre.edges@.contains(e) {
                    let k = choose|k: int| 0 <= k < j && combined@[k] == e.input;
                    assert(combined@.contains(s));
                }
                if l == output && added.contains(s) {
                    let k = choose|k: int| 0 <= k < combined@.len() && combined@[k] == s;
                    assert(0 <= k < j && combined@[k] == e.input);
                }
            }
            assert forall|l: ScalarLocation| self.holds(l) <==> (pre.holds(l) || l == output) by {
                if self.locations@.contains(l) && l != output {
                    let k = choose|k: int| 0 <= k < self.locations@.len() && self.locations@[k] == l;
                    assert(pre.locations@[k] == l);
                }
                if pre.locations@.contains(l) {
                    let k = choose|k: int| 0 <= k < pre.locations@.len() && pre.locations@[k] == l;
                    assert(self.locations@[k] == l);
                }
                if l == output {
                    if !pre.locations@.contains(output) {
                        assert(self.locations@[pre.locations@.len() as int] == l);
                    }
                }
                if exists|i: int|
                    0 <= i < self.edges@.len() && (#[trigger] self.edges@[i]).output == l {
                    let i = choose|i: int|
                        0 <= i < self.edges@.len() && (#[trigger] self.edges@[i]).output == l;
                    let e = self.edges@[i];
                    assert(self.edges@.contains(e));
                    if pre.edges@.contains(e) {
                        let k = choose|k: int| 0 <= k < pre.edges@.len() && pre.edges@[k] == e;
                        assert(pre.edges@[k].output == l);
                    }
                }
                if exists|i: int|
                    0 <= i < pre.edges@.len() && (#[trigger] pre.edges@[i]).output == l {
                    let i = choose|i: int|
                        0 <= i < pre.edges@.len() && (#[trigger] pre.edges@[i]).output == l;
                    let e = pre.edges@[i];
                    assert(pre.edges@.contains(e));
                    assert(self.edges@.contains(e));
                    let k = choose|k: int| 0 <= k < self.edges@.len() && self.edges@[k] == e;
                    assert(self.edges@[k].output == l);
                }
            }
            if !pre.holds(output) {
                pre.lemma_absent(output);
            }
            assert forall|l: ScalarLocation| self@.dependents.dom().contains(l) implies (
            #[trigger] self@.dependents[l]) == want.dependents[l] by {
                if l == output {
                    assert(self.inputs_of(l) =~= pre.inputs_of(l) + added);
                    assert(want.dependents[l] =~= pre.inputs_of(l) + added);
                } else {
                    assert(self.inputs_of(l) =~= pre.inputs_of(l));
                }
            }
            assert(self@.dependents =~= want.dependents);
        }
    }

    /// Adds to `out` what `l` depends on.
    fn collect(&self, l: ScalarLocation, out: &mut Vec<Scalar>)
        ensures
            final(out)@.to_set() == old(out)@.to_set() + self.inputs_of(l),
    {
        let ghost before = out@.to_set();
        let mut i: usize = 0;
        while i < self.edges.len()
            invariant
                i <= self.edges.len(),
                forall|s: Scalar|
                    #![trigger out@.to_set().contains(s)]
                    out@.to_set().contains(s) <==> (before.contains(s) || exists|k: int|
                        0 <= k < i && self.edges@[k] == (Edge { output: l, input: s })),
            decreases self.edges.len() - i,
        {
            let e = self.edges[i];
            if e.output == l {
                let ghost prev = out@.to_set();
                add_scalar(out, e.input);
                proof {
                    assert forall|s: Scalar|
                        #![trigger out@.to_set().contains(s)]
                        out@.to_set().contains(s) <==> (before.contains(s) || exists|k: int|
                            0 <= k < i + 1 && self.edges@[k] == (Edge { output: l, input: s })) by {
                        if out@.to_set().contains(s) {
                            if prev.contains(s) {
                                if !before.contains(s) {
                                    let k = choose|k: int|
                                        0 <= k < i && self.edges@[k] == (Edge {
                                            output: l,
                                            input: s,
                                        });
                                    assert(0 <= k < i + 1);
                                }
                            } else {
                                assert(self.edges@[i as int] == (Edge { output: l, input: s }));
                            }
                        }
                        if exists|k: int|
                            0 <= k < i + 1 && self.edges@[k] == (Edge { output: l, input: s }) {
                            let k = choose|k: int|
                                0 <= k < i + 1 && self.edges@[k] == (Edge { output: l, input: s });
                            if k < i {
                                assert(prev.contains(s));
                            }
                        }
                    }
                }
            } else {
                proof {
                    assert forall|s: Scalar|
                        #![trigger out@.to_set().contains(s)]
                        out@.to_set().contains(s) <==> (before.contains(s) || exists|k: int|
                            0 <= k < i + 1 && self.edges@[k] == (Edge { output: l, input: s })) by {
                        if exists|k: int|
                            0 <= k < i + 1 && self.edges@[k] == (Edge { output: l, input: s }) {
                            let k = choose|k: int|
                                0 <= k < i + 1 && self.edges@[k] == (Edge { output: l, input: s });
                            assert(k < i);
                        }
                        if out@.to_set().contains(s) && !before.contains(s) {
                            let k = choose|k: int|
                                0 <= k < i && self.edges@[k] == (Edge { output: l, input: s });
                            assert(0 <= k < i + 1);
                        }
                    }
                }
            }
            i = i + 1;
        }
        proof {
            assert forall|s: Scalar|
                out@.to_set().contains(s) <==> (before + self.inputs_of(l)).contains(s) by {
                if self.edges@.contains(Edge { output: l, input: s }) {
                    let k = choose|k: int|
                        0 <= k < self.edges@.len() && self.edges@[k] == (Edge {
                            output: l,
                            input: s,
                        });
                    assert(0 <= k < i);
                }
                if out@.to_set().contains(s) && !before.contains(s) {
                    let k = choose|k: int|
                        0 <= k < i && self.edges@[k] == (Edge { output: l, input: s });
                    assert(self.edges@.contains(Edge { output: l, input: s }));
                }
            }
            assert(out@.to_set() =~= before + self.inputs_of(l));
        }
    }
}

} // verus!
