//! The dependency report.
//!
//! For every output of a shader stage the report names what the output
//! depends on. Scalar locations of one register are shown together, as a
//! vector of that register's components. The text depends on the
//! dependencies alone: every set is written out in ascending order.

use crate::dependency::{DependencySet, DependencyView};
use crate::order::{
    ascending, lemma_listing_is, lemma_listing_of_finite, listing, lists, place, Ranked,
};
use crate::scalar::{Component, Register, Scalar, ScalarLocation};
use crate::text::{decimal, push_decimal};
use vstd::prelude::*;
use vstd::string::StringExecFns;

verus! {

/// A run of components of one register.
#[derive(Debug, Clone, PartialEq, Eq)]
pub struct VectorGroup {
    pub reg: Register,
    pub comps: Vec<Component>,
}

/// A run of components of one register, as a mathematical value.
pub struct VectorGroupView {
    pub reg: Register,
    pub comps: Seq<Component>,
}

impl View for VectorGroup {
    type V = VectorGroupView;

    open spec fn view(&self) -> VectorGroupView {
        VectorGroupView { reg: self.reg, comps: self.comps@ }
    }
}

/// The views of a sequence of groups.
pub open spec fn views(groups: Seq<VectorGroup>) -> Seq<VectorGroupView> {
    Seq::new(groups.len(), |i: int| groups[i]@)
}

/// The locations of a sequence gathered into groups: a location joins the
/// group before it where both are of one register, and else starts a group.
pub open spec fn grouped(s: Seq<ScalarLocation>) -> Seq<VectorGroupView>
    decreases s.len(),
{
    if s.len() == 0 {
        Seq::empty()
    } else {
        let before = grouped(s.drop_last());
        let l = s.last();
        if before.len() > 0 && before.last().reg == l.reg {
            before.drop_last().push(
                VectorGroupView { reg: l.reg, comps: before.last().comps.push(l.comp) },
            )
        } else {
            before.push(VectorGroupView { reg: l.reg, comps: seq![l.comp] })
        }
    }
}

/// The locations that a group stands for.
pub open spec fn members(g: VectorGroupView) -> Seq<ScalarLocation> {
    Seq::new(g.comps.len(), |i: int| ScalarLocation { reg: g.reg, comp: g.comps[i] })
}

/// The locations that a sequence of groups stands for, in order.
pub open spec fn flattened(groups: Seq<VectorGroupView>) -> Seq<ScalarLocation>
    decreases groups.len(),
{
    if groups.len() == 0 {
        Seq::empty()
    } else {
        flattened(groups.drop_last()) + members(groups.last())
    }
}

/// No group is empty, and two groups that follow each other are of
/// different registers.
pub open spec fn well_grouped(groups: Seq<VectorGroupView>) -> bool {
    &&& forall|i: int| 0 <= i < groups.len() ==> (#[trigger] groups[i]).comps.len() > 0
    &&& forall|i: int, j: int|
        0 <= i && j == i + 1 && j < groups.len() ==> (#[trigger] groups[i]).reg != (
        #[trigger] groups[j]).reg
}

/// Grouping loses nothing and invents nothing: the groups stand for the
/// locations they were made of, in the same order.
pub proof fn lemma_grouped_flattens(s: Seq<ScalarLocation>)
    ensures
        flattened(grouped(s)) == s,
    decreases s.len(),
{
    if s.len() > 0 {
        let head = s.drop_last();
        let before = grouped(head);
        let l = s.last();
        lemma_grouped_flattens(head);
        let now = grouped(s);
        assert(s =~= head.push(l));
        if before.len() > 0 && before.last().reg == l.reg {
            let g = before.last();
            let h = VectorGroupView { reg: l.reg, comps: g.comps.push(l.comp) };
            assert(now == before.drop_last().push(h));
            assert(now.drop_last() =~= before.drop_last());
            assert(now.last() == h);
            assert(members(h) =~= members(g).push(l));
            assert(flattened(before) == flattened(before.drop_last()) + members(g));
            assert(flattened(now) == flattened(now.drop_last()) + members(h));
            assert(flattened(now) =~= flattened(before).push(l));
        } else {
            let h = VectorGroupView { reg: l.reg, comps: seq![l.comp] };
            assert(now == before.push(h));
            assert(now.drop_last() =~= before);
            assert(now.last() == h);
            assert(members(h) =~= seq![l]);
            assert(flattened(now) == flattened(now.drop_last()) + members(h));
            assert(flattened(now) =~= flattened(before).push(l));
        }
    }
}

/// Grouping makes no empty group and never splits a run of one register:
/// the last group is of the register of the last location.
pub proof fn lemma_grouped_shape(s: Seq<ScalarLocation>)
    ensures
        well_grouped(grouped(s)),
        s.len() > 0 ==> grouped(s).len() > 0 && grouped(s).last().reg == s.last().reg,
    decreases s.len(),
{
    if s.len() > 0 {
        let head = s.drop_last();
        let before = grouped(head);
        let l = s.last();
        lemma_grouped_shape(head);
        let now = grouped(s);
        if before.len() > 0 && before.last().reg == l.reg {
            let h = VectorGroupView { reg: l.reg, comps: before.last().comps.push(l.comp) };
            assert(now == before.drop_last().push(h));
            assert forall|i: int| 0 <= i < now.len() implies (#[trigger] now[i]).comps.len()
                > 0 by {
                if i < now.len() - 1 {
                    assert(now[i] == before[i]);
                }
            }
            assert forall|i: int, j: int| 0 <= i && j == i + 1 && j < now.len() implies (
            #[trigger] now[i]).reg != (#[trigger] now[j]).reg by {
                assert(now[i] == before[i]);
                assert(now[j].reg == before[j].reg);
            }
        } else {
            let h = VectorGroupView { reg: l.reg, comps: seq![l.comp] };
            assert(now == before.push(h));
            assert forall|i: int| 0 <= i < now.len() implies (#[trigger] now[i]).comps.len()
                > 0 by {
                if i < now.len() - 1 {
                    assert(now[i] == before[i]);
                }
            }
            assert forall|i: int, j: int| 0 <= i && j == i + 1 && j < now.len() implies (
            #[trigger] now[i]).reg != (#[trigger] now[j]).reg by {
                assert(now[i] == before[i]);
                if j < now.len() - 1 {
                    assert(now[j] == before[j]);
                }
            }
        }
    }
}

/// The registers of the groups come each before the next, so that no
/// register has two groups, and the components of each group come each
/// before the next.
pub open spec fn groups_in_order(groups: Seq<VectorGroupView>) -> bool {
    &&& forall|i: int, j: int|
        0 <= i < j < groups.len() ==> (#[trigger] groups[i]).reg.before((#[trigger] groups[j]).reg)
    &&& forall|i: int, a: int, b: int|
        0 <= i < groups.len() && 0 <= a < b < groups[i].comps.len() ==> (
        #[trigger] groups[i].comps[a]).ordinal() < (#[trigger] groups[i].comps[b]).ordinal()
}

/// Locations in the canonical order are gathered into one group for each
/// register, with the components of the register in their order.
pub proof fn lemma_grouped_in_order(s: Seq<ScalarLocation>)
    requires
        canonical(s),
    ensures
        groups_in_order(grouped(s)),
        s.len() > 0 ==> grouped(s).len() > 0 && grouped(s).last().reg == s.last().reg
            && grouped(s).last().comps.len() > 0 && grouped(s).last().comps.last()
            == s.last().comp,
    decreases s.len(),
{
    if s.len() > 0 {
        let head = s.drop_last();
        let before = grouped(head);
        let l = s.last();
        assert forall|i: int, j: int| 0 <= i < j < head.len() implies (#[trigger] head[i]).before(
            #[trigger] head[j],
        ) by {
            assert(s[i].before(s[j]));
        }
        lemma_grouped_in_order(head);
        let now = grouped(s);
        if head.len() > 0 {
            assert(head.last() == s[s.len() - 2]);
            assert(s[s.len() - 2].before(s[s.len() - 1]));
        }
        if before.len() > 0 && before.last().reg == l.reg {
            let g = before.last();
            let h = VectorGroupView { reg: l.reg, comps: g.comps.push(l.comp) };
            assert(now == before.drop_last().push(h));
            assert forall|i: int, j: int| 0 <= i < j < now.len() implies (#[trigger] now[i]).reg.before(
                (#[trigger] now[j]).reg,
            ) by {
                assert(now[i] == before[i]);
                assert(now[j].reg == before[j].reg);
            }
            assert forall|i: int, a: int, b: int|
                0 <= i < now.len() && 0 <= a < b < now[i].comps.len() implies (
            #[trigger] now[i].comps[a]).ordinal() < (#[trigger] now[i].comps[b]).ordinal() by {
                if i < now.len() - 1 {
                    assert(now[i] == before[i]);
                } else if b < g.comps.len() {
                    assert(h.comps[a] == g.comps[a] && h.comps[b] == g.comps[b]);
                    assert(before[i].comps[a].ordinal() < before[i].comps[b].ordinal());
                } else {
                    assert(h.comps[b] == l.comp);
                    if a < g.comps.len() - 1 {
                        assert(h.comps[a] == g.comps[a]);
                        assert(before[i].comps[a].ordinal() < before[i].comps[g.comps.len()
                            - 1].ordinal());
                    } else {
                        assert(h.comps[a] == g.comps.last());
                    }
                }
            }
        } else {
            let h = VectorGroupView { reg: l.reg, comps: seq![l.comp] };
            assert(now == before.push(h));
            assert forall|i: int, j: int| 0 <= i < j < now.len() implies (#[trigger] now[i]).reg.before(
                (#[trigger] now[j]).reg,
            ) by {
                assert(now[i] == before[i]);
                if j < now.len() - 1 {
                    assert(now[j] == before[j]);
                } else if i < before.len() - 1 {
                    assert(before[i].reg.before(before[before.len() - 1].reg));
                }
            }
            assert forall|i: int, a: int, b: int|
                0 <= i < now.len() && 0 <= a < b < now[i].comps.len() implies (
            #[trigger] now[i].comps[a]).ordinal() < (#[trigger] now[i].comps[b]).ordinal() by {
                if i < now.len() - 1 {
                    assert(now[i] == before[i]);
                }
            }
        }
    }
}

/// Gathers locations into groups of one register each.
pub fn group_vectors(locations: &Vec<ScalarLocation>) -> (groups: Vec<VectorGroup>)
    ensures
        views(groups@) == grouped(locations@),
{
    let mut groups: Vec<VectorGroup> = Vec::new();
    if locations.len() == 0 {
        assert(views(groups@) =~= grouped(locations@));
        return groups;
    }
    let mut reg: Register = locations[0].reg;
    let mut comps: Vec<Component> = Vec::new();
    comps.push(locations[0].comp);
    proof {
        let one = locations@.take(1);
        assert(one.drop_last() =~= Seq::<ScalarLocation>::empty());
        assert(grouped(one.drop_last()) =~= Seq::<VectorGroupView>::empty());
        assert(grouped(one) =~= views(groups@).push(VectorGroupView { reg, comps: comps@ }));
    }
    let mut i: usize = 1;
    while i < locations.len()
        invariant
            1 <= i <= locations.len(),
            grouped(locations@.take(i as int)) == views(groups@).push(
                VectorGroupView { reg, comps: comps@ },
            ),
        decreases locations.len() - i,
    {
        let l = locations[i];
        let ghost before = grouped(locations@.take(i as int));
        let ghost old_groups = views(groups@);
        let ghost old_comps = comps@;
        proof {
            assert(locations@.take(i + 1).drop_last() =~= locations@.take(i as int));
            assert(locations@.take(i + 1).last() == l);
            assert(before.last() == (VectorGroupView { reg, comps: comps@ }));
            assert(before.drop_last() =~= old_groups);
        }
        if l.reg == reg {
            comps.push(l.comp);
        } else {
            groups.push(VectorGroup { reg, comps });
            proof {
                assert(views(groups@) =~= before);
            }
            reg = l.reg;
            comps = Vec::new();
            comps.push(l.comp);
            assert(comps@ =~= seq![l.comp]);
        }
        i = i + 1;
    }
    proof {
        assert(locations@.take(i as int) =~= locations@);
    }
    let ghost done = views(groups@);
    groups.push(VectorGroup { reg, comps });
    assert(views(groups@) =~= done.push(VectorGroupView { reg, comps: comps@ }));
    groups
}

/// Whether a declared port is read or written by the stage.
#[derive(Debug, Clone, Copy, PartialEq, Eq, Structural, Hash)]
pub enum IoDirection {
    Input,
    Output,
}

/// A port that the shader stage declares.
#[derive(Debug, Clone, Copy, PartialEq, Eq, Structural, Hash)]
pub struct IoDeclaration {
    pub location: ScalarLocation,
    pub direction: IoDirection,
}

impl IoDirection {
    /// The word that names the direction.
    pub open spec fn name(self) -> Seq<char> {
        match self {
            IoDirection::Input => "input"@,
            IoDirection::Output => "output"@,
        }
    }

    pub fn to_str(self) -> (s: &'static str)
        ensures
            s@ == self.name(),
    {
        match self {
            IoDirection::Input => "input",
            IoDirection::Output => "output",
        }
    }
}

/// A register as text: the letter of its bank and its number.
pub open spec fn register_text(r: Register) -> Seq<char> {
    r.bank.letter() + decimal(r.index as nat)
}

/// The letters of a run of components.
pub open spec fn components_text(c: Seq<Component>) -> Seq<char>
    decreases c.len(),
{
    if c.len() == 0 {
        Seq::empty()
    } else {
        components_text(c.drop_last()) + c.last().letter()
    }
}

/// A group as text: its register, a dot, its components, and the kind of
/// its register.
pub open spec fn group_text(g: VectorGroupView) -> Seq<char> {
    register_text(g.reg) + "."@ + components_text(g.comps) + g.reg.kind.suffix()
}

/// A scalar location as text: the group of that location alone.
pub open spec fn location_text(l: ScalarLocation) -> Seq<char> {
    register_text(l.reg) + "."@ + l.comp.letter() + l.reg.kind.suffix()
}

/// Groups as text, separated by commas.
pub open spec fn groups_text(groups: Seq<VectorGroupView>) -> Seq<char>
    decreases groups.len(),
{
    if groups.len() == 0 {
        Seq::empty()
    } else if groups.len() == 1 {
        group_text(groups.last())
    } else {
        groups_text(groups.drop_last()) + ", "@ + group_text(groups.last())
    }
}

/// A literal as text: a hash sign and its value in decimal notation.
pub open spec fn literal_text(v: u64) -> Seq<char> {
    "#"@ + decimal(v as nat)
}

/// Literals as text, separated by commas.
pub open spec fn literals_text(literals: Seq<u64>) -> Seq<char>
    decreases literals.len(),
{
    if literals.len() == 0 {
        Seq::empty()
    } else if literals.len() == 1 {
        literal_text(literals.last())
    } else {
        literals_text(literals.drop_last()) + ", "@ + literal_text(literals.last())
    }
}

/// What follows "depends on" in a line: the groups of the locations in
/// square brackets, and the literals, if there are any, in a field of their
/// own. Where there are only literals, that field stands alone.
pub open spec fn dependencies_text(locations: Seq<ScalarLocation>, literals: Seq<u64>) -> Seq<
    char,
> {
    if literals.len() == 0 {
        "["@ + groups_text(grouped(locations)) + "]"@
    } else if locations.len() == 0 {
        "literals ["@ + literals_text(literals) + "]"@
    } else {
        "["@ + groups_text(grouped(locations)) + "] and literals ["@ + literals_text(literals)
            + "]"@
    }
}

/// The scalar locations among some scalars.
pub open spec fn locations_in(scalars: Set<Scalar>) -> Set<ScalarLocation> {
    Set::new(|l: ScalarLocation| scalars.contains(Scalar::Location(l)))
}

/// The literals among some scalars.
pub open spec fn literals_in(scalars: Set<Scalar>) -> Set<u64> {
    Set::new(|v: u64| scalars.contains(Scalar::Literal(v)))
}

/// The line of one output.
pub open spec fn output_line(output: ScalarLocation, dependencies: Set<Scalar>) -> Seq<char> {
    location_text(output) + " depends on "@ + dependencies_text(
        listing(locations_in(dependencies)),
        listing(literals_in(dependencies)),
    ) + "\n"@
}

/// The lines of some outputs, in the order given.
pub open spec fn output_lines(outputs: Seq<ScalarLocation>, deps: DependencyView) -> Seq<char>
    decreases outputs.len(),
{
    if outputs.len() == 0 {
        Seq::empty()
    } else {
        output_lines(outputs.drop_last(), deps) + output_line(
            outputs.last(),
            deps.dependencies_of(outputs.last()),
        )
    }
}

/// The locations that are present and are outputs of the stage.
pub open spec fn outputs_of(deps: DependencyView) -> Set<ScalarLocation> {
    Set::new(|l: ScalarLocation| deps.present(l) && l.is_output())
}

/// One line for each location that a discard depends on.
pub open spec fn guard_location_lines(guards: Seq<ScalarLocation>) -> Seq<char>
    decreases guards.len(),
{
    if guards.len() == 0 {
        Seq::empty()
    } else {
        guard_location_lines(guards.drop_last()) + "discard depends on "@ + location_text(
            guards.last(),
        ) + "\n"@
    }
}

/// One line for each literal that a discard depends on.
pub open spec fn guard_literal_lines(guards: Seq<u64>) -> Seq<char>
    decreases guards.len(),
{
    if guards.len() == 0 {
        Seq::empty()
    } else {
        guard_literal_lines(guards.drop_last()) + "discard depends on "@ + literal_text(
            guards.last(),
        ) + "\n"@
    }
}

/// One line for each declared port, in the order given.
pub open spec fn io_lines(io: Seq<IoDeclaration>) -> Seq<char>
    decreases io.len(),
{
    if io.len() == 0 {
        Seq::empty()
    } else {
        io_lines(io.drop_last()) + "\t"@ + location_text(io.last().location) + " "@
            + io.last().direction.name() + "\n"@
    }
}

/// The whole report: the declared ports; what a discard depends on,
/// locations before literals; and a line for each output. Locations,
/// literals and outputs each stand in ascending order.
pub open spec fn report(deps: DependencyView, io: Seq<IoDeclaration>) -> Seq<char> {
    "Inputs and Outputs:\n"@ + io_lines(io) + guard_location_lines(
        listing(locations_in(deps.guards)),
    ) + guard_literal_lines(listing(literals_in(deps.guards))) + output_lines(
        listing(outputs_of(deps)),
        deps,
    )
}

fn push_register(out: &mut String, r: Register)
    ensures
        final(out)@ == old(out)@ + register_text(r),
{
    out.append(r.bank.to_str());
    push_decimal(out, r.index as u64);
    assert(out@ =~= old(out)@ + register_text(r));
}

fn push_location(out: &mut String, l: ScalarLocation)
    ensures
        final(out)@ == old(out)@ + location_text(l),
{
    push_register(out, l.reg);
    out.append(".");
    out.append(l.comp.to_str());
    out.append(l.reg.kind.to_str());
    assert(out@ =~= old(out)@ + location_text(l));
}

fn push_group(out: &mut String, g: &VectorGroup)
    ensures
        final(out)@ == old(out)@ + group_text(g@),
{
    push_register(out, g.reg);
    out.append(".");
    let ghost base = out@;
    let mut i: usize = 0;
    while i < g.comps.len()
        invariant
            i <= g.comps.len(),
            out@ == base + components_text(g.comps@.take(i as int)),
        decreases g.comps.len() - i,
    {
        out.append(g.comps[i].to_str());
        proof {
            assert(g.comps@.take(i + 1).drop_last() =~= g.comps@.take(i as int));
            assert(out@ =~= base + components_text(g.comps@.take(i + 1)));
        }
        i = i + 1;
    }
    assert(g.comps@.take(i as int) =~= g.comps@);
    out.append(g.reg.kind.to_str());
    assert(out@ =~= old(out)@ + group_text(g@));
}

fn push_groups(out: &mut String, groups: &Vec<VectorGroup>)
    ensures
        final(out)@ == old(out)@ + groups_text(views(groups@)),
{
    let ghost base = out@;
    let ghost all = views(groups@);
    let mut i: usize = 0;
    while i < groups.len()
        invariant
            i <= groups.len(),
            all == views(groups@),
            out@ == base + groups_text(all.take(i as int)),
        decreases groups.len() - i,
    {
        if i > 0 {
            out.append(", ");
        }
        push_group(out, &groups[i]);
        proof {
            assert(all.take(i + 1).drop_last() =~= all.take(i as int));
            assert(all.take(i + 1).last() == groups@[i as int]@);
            assert(out@ =~= base + groups_text(all.take(i + 1)));
        }
        i = i + 1;
    }
    assert(all.take(i as int) =~= all);
}

fn push_literal(out: &mut String, v: u64)
    ensures
        final(out)@ == old(out)@ + literal_text(v),
{
    out.append("#");
    push_decimal(out, v);
    assert(out@ =~= old(out)@ + literal_text(v));
}

fn push_literals(out: &mut String, literals: &Vec<u64>)
    ensures
        final(out)@ == old(out)@ + literals_text(literals@),
{
    let ghost base = out@;
    let mut i: usize = 0;
    while i < literals.len()
        invariant
            i <= literals.len(),
            out@ == base + literals_text(literals@.take(i as int)),
        decreases literals.len() - i,
    {
        if i > 0 {
            out.append(", ");
        }
        push_literal(out, literals[i]);
        proof {
            assert(literals@.take(i + 1).drop_last() =~= literals@.take(i as int));
            assert(out@ =~= base + literals_text(literals@.take(i + 1)));
        }
        i = i + 1;
    }
    assert(literals@.take(i as int) =~= literals@);
}

fn push_dependencies(out: &mut String, locations: &Vec<ScalarLocation>, literals: &Vec<u64>)
    ensures
        final(out)@ == old(out)@ + dependencies_text(locations@, literals@),
{
    if literals.len() == 0 {
        let groups = group_vectors(locations);
        out.append("[");
        push_groups(out, &groups);
        out.append("]");
    } else if locations.len() == 0 {
        out.append("literals [");
        push_literals(out, literals);
        out.append("]");
    } else {
        let groups = group_vectors(locations);
        out.append("[");
        push_groups(out, &groups);
        out.append("] and literals [");
        push_literals(out, literals);
        out.append("]");
    }
    assert(out@ =~= old(out)@ + dependencies_text(locations@, literals@));
}

/// The locations stand in the canonical order: by register, then by
/// component, each before the next.
pub open spec fn canonical(q: Seq<ScalarLocation>) -> bool {
    forall|i: int, j: int| 0 <= i < j < q.len() ==> (#[trigger] q[i]).before(#[trigger] q[j])
}

/// Ascending rank is the canonical order of locations.
pub proof fn lemma_ascending_is_canonical(q: Seq<ScalarLocation>)
    ensures
        ascending(q) <==> canonical(q),
{
    if ascending(q) {
        assert forall|i: int, j: int| 0 <= i < j < q.len() implies (#[trigger] q[i]).before(
            #[trigger] q[j],
        ) by {
            ScalarLocation::lemma_rank_is_canonical(q[i], q[j]);
        }
    }
    if canonical(q) {
        assert forall|i: int, j: int| 0 <= i < j < q.len() implies (#[trigger] q[i]).rank() < (
        #[trigger] q[j]).rank() by {
            ScalarLocation::lemma_rank_is_canonical(q[i], q[j]);
        }
    }
}

/// Two states that hold the same dependencies give the same lines for the
/// same outputs.
proof fn lemma_output_lines_agree(outs: Seq<ScalarLocation>, a: DependencyView, b: DependencyView)
    requires
        forall|l: ScalarLocation, s: Scalar|
            #![trigger a.dependencies_of(l).contains(s)]
            #![trigger b.dependencies_of(l).contains(s)]
            a.dependencies_of(l).contains(s) <==> b.dependencies_of(l).contains(s),
    ensures
        output_lines(outs, a) == output_lines(outs, b),
    decreases outs.len(),
{
    if outs.len() > 0 {
        lemma_output_lines_agree(outs.drop_last(), a, b);
        assert(a.dependencies_of(outs.last()) =~= b.dependencies_of(outs.last()));
    }
}

/// The report is determined by the dependencies alone: two states in which
/// the same locations are present, with the same dependencies, and the same
/// guards were reached, have the same report, however each came about.
pub proof fn lemma_report_deterministic(
    a: DependencyView,
    b: DependencyView,
    io: Seq<IoDeclaration>,
)
    requires
        forall|l: ScalarLocation| a.present(l) <==> b.present(l),
        forall|l: ScalarLocation, s: Scalar|
            #![trigger a.dependencies_of(l).contains(s)]
            #![trigger b.dependencies_of(l).contains(s)]
            a.dependencies_of(l).contains(s) <==> b.dependencies_of(l).contains(s),
        forall|s: Scalar| a.guards.contains(s) <==> b.guards.contains(s),
    ensures
        report(a, io) == report(b, io),
{
    assert(a.guards =~= b.guards);
    assert(outputs_of(a) =~= outputs_of(b));
    lemma_output_lines_agree(listing(outputs_of(a)), a, b);
}

/// Among finitely many scalars there are finitely many locations and
/// finitely many literals.
proof fn lemma_parts_finite(scalars: Set<Scalar>)
    requires
        scalars.finite(),
    ensures
        locations_in(scalars).finite(),
        literals_in(scalars).finite(),
{
    let location_of = |s: Scalar|
        match s {
            Scalar::Location(l) => l,
            Scalar::Literal(_) => arbitrary(),
        };
    let literal_of = |s: Scalar|
        match s {
            Scalar::Location(_) => arbitrary(),
            Scalar::Literal(v) => v,
        };
    scalars.lemma_map_finite(location_of);
    scalars.lemma_map_finite(literal_of);
    assert forall|l: ScalarLocation| locations_in(scalars).contains(l) implies scalars.map(
        location_of,
    ).contains(l) by {
        assert(scalars.contains(Scalar::Location(l)) && l == location_of(Scalar::Location(l)));
    }
    assert forall|v: u64| literals_in(scalars).contains(v) implies scalars.map(
        literal_of,
    ).contains(v) by {
        assert(scalars.contains(Scalar::Literal(v)) && v == literal_of(Scalar::Literal(v)));
    }
    vstd::set_lib::lemma_set_subset_finite(scalars.map(location_of), locations_in(scalars));
    vstd::set_lib::lemma_set_subset_finite(scalars.map(literal_of), literals_in(scalars));
}

/// The locations among finitely many scalars are listed in the canonical
/// order, each once, and the literals by their value, each once.
pub proof fn lemma_parts_in_order(scalars: Set<Scalar>)
    requires
        scalars.finite(),
    ensures
        lists(listing(locations_in(scalars)), locations_in(scalars)),
        canonical(listing(locations_in(scalars))),
        lists(listing(literals_in(scalars)), literals_in(scalars)),
{
    lemma_parts_finite(scalars);
    lemma_listing_of_finite(locations_in(scalars));
    lemma_listing_of_finite(literals_in(scalars));
    lemma_ascending_is_canonical(listing(locations_in(scalars)));
}

/// Whatever the dependencies are, the report has one line for each output
/// that is present, and the lines stand in the canonical order: by
/// register, then by component. So do the locations within each line and
/// the locations that a discard depends on.
pub proof fn lemma_report_in_order(deps: DependencySet)
    ensures
        lists(listing(outputs_of(deps@)), outputs_of(deps@)),
        canonical(listing(outputs_of(deps@))),
        lists(listing(locations_in(deps@.guards)), locations_in(deps@.guards)),
        canonical(listing(locations_in(deps@.guards))),
        lists(listing(literals_in(deps@.guards)), literals_in(deps@.guards)),
        forall|l: ScalarLocation|
            #![trigger deps@.dependencies_of(l)]
            {
                let found = deps@.dependencies_of(l);
                &&& lists(listing(locations_in(found)), locations_in(found))
                &&& canonical(listing(locations_in(found)))
                &&& lists(listing(literals_in(found)), literals_in(found))
            },
{
    deps.lemma_finite();
    vstd::set_lib::lemma_set_subset_finite(deps@.dependents.dom(), outputs_of(deps@));
    lemma_listing_of_finite(outputs_of(deps@));
    lemma_ascending_is_canonical(listing(outputs_of(deps@)));
    lemma_parts_in_order(deps@.guards);
    assert forall|l: ScalarLocation|
        #![trigger deps@.dependencies_of(l)]
        {
            let found = deps@.dependencies_of(l);
            &&& lists(listing(locations_in(found)), locations_in(found))
            &&& canonical(listing(locations_in(found)))
            &&& lists(listing(literals_in(found)), literals_in(found))
        } by {
        lemma_parts_in_order(deps@.dependencies_of(l));
    }
}

/// The locations and the literals among some scalars, each in ascending
/// order and each once.
pub fn split(scalars: &Vec<Scalar>) -> (parts: (Vec<ScalarLocation>, Vec<u64>))
    ensures
        parts.0@ == listing(locations_in(scalars@.to_set())),
        parts.1@ == listing(literals_in(scalars@.to_set())),
        lists(parts.0@, locations_in(scalars@.to_set())),
        lists(parts.1@, literals_in(scalars@.to_set())),
        canonical(parts.0@),
{
    let mut locations: Vec<ScalarLocation> = Vec::new();
    let mut literals: Vec<u64> = Vec::new();
    let mut i: usize = 0;
    while i < scalars.len()
        invariant
            i <= scalars.len(),
            ascending(locations@),
            ascending(literals@),
            forall|l: ScalarLocation|
                #![trigger locations@.contains(l)]
                locations@.contains(l) <==> exists|k: int|
                    0 <= k < i && scalars@[k] == Scalar::Location(l),
            forall|v: u64|
                #![trigger literals@.contains(v)]
                literals@.contains(v) <==> exists|k: int|
                    0 <= k < i && scalars@[k] == Scalar::Literal(v),
        decreases scalars.len() - i,
    {
        let ghost old_locations = locations@;
        let ghost old_literals = literals@;
        match scalars[i] {
            Scalar::Location(l) => place(&mut locations, l),
            Scalar::Literal(v) => place(&mut literals, v),
        }
        proof {
            assert forall|l: ScalarLocation|
                #![trigger locations@.contains(l)]
                locations@.contains(l) <==> exists|k: int|
                    0 <= k < i + 1 && scalars@[k] == Scalar::Location(l) by {
                if locations@.contains(l) {
                    if old_locations.contains(l) {
                        let k = choose|k: int| 0 <= k < i && scalars@[k] == Scalar::Location(l);
                        assert(0 <= k < i + 1 && scalars@[k] == Scalar::Location(l));
                    } else {
                        assert(scalars@[i as int] == Scalar::Location(l));
                    }
                }
                if exists|k: int| 0 <= k < i + 1 && scalars@[k] == Scalar::Location(l) {
                    let k = choose|k: int| 0 <= k < i + 1 && scalars@[k] == Scalar::Location(l);
                    if k < i {
                        assert(old_locations.contains(l));
                    }
                }
            }
            assert forall|v: u64|
                #![trigger literals@.contains(v)]
                literals@.contains(v) <==> exists|k: int|
                    0 <= k < i + 1 && scalars@[k] == Scalar::Literal(v) by {
                if literals@.contains(v) {
                    if old_literals.contains(v) {
                        let k = choose|k: int| 0 <= k < i && scalars@[k] == Scalar::Literal(v);
                        assert(0 <= k < i + 1 && scalars@[k] == Scalar::Literal(v));
                    } else {
                        assert(scalars@[i as int] == Scalar::Literal(v));
                    }
                }
                if exists|k: int| 0 <= k < i + 1 && scalars@[k] == Scalar::Literal(v) {
                    let k = choose|k: int| 0 <= k < i + 1 && scalars@[k] == Scalar::Literal(v);
                    if k < i {
                        assert(old_literals.contains(v));
                    }
                }
            }
        }
        i = i + 1;
    }
    proof {
        let all = scalars@.to_set();
        assert forall|l: ScalarLocation| locations@.contains(l) <==> locations_in(all).contains(
            l,
        ) by {
            if locations@.contains(l) {
                let k = choose|k: int| 0 <= k < i && scalars@[k] == Scalar::Location(l);
                assert(scalars@.contains(Scalar::Location(l)));
            }
            if scalars@.contains(Scalar::Location(l)) {
                let k = choose|k: int|
                    0 <= k < scalars@.len() && scalars@[k] == Scalar::Location(l);
                assert(0 <= k < i && scalars@[k] == Scalar::Location(l));
            }
        }
        assert forall|v: u64| literals@.contains(v) <==> literals_in(all).contains(v) by {
            if literals@.contains(v) {
                let k = choose|k: int| 0 <= k < i && scalars@[k] == Scalar::Literal(v);
                assert(scalars@.contains(Scalar::Literal(v)));
            }
            if scalars@.contains(Scalar::Literal(v)) {
                let k = choose|k: int|
                    0 <= k < scalars@.len() && scalars@[k] == Scalar::Literal(v);
                assert(0 <= k < i && scalars@[k] == Scalar::Literal(v));
            }
        }
        lemma_listing_is(locations@, locations_in(all));
        lemma_listing_is(literals@, literals_in(all));
        lemma_ascending_is_canonical(locations@);
    }
    (locations, literals)
}

/// The outputs of the stage that are present, in ascending order.
pub fn outputs(deps: &DependencySet) -> (out: Vec<ScalarLocation>)
    ensures
        out@ == listing(outputs_of(deps@)),
        lists(out@, outputs_of(deps@)),
        canonical(out@),
{
    let all = deps.locations();
    assert(all@.to_set() =~= deps@.dependents.dom());
    let mut out: Vec<ScalarLocation> = Vec::new();
    let mut i: usize = 0;
    while i < all.len()
        invariant
            i <= all.len(),
            ascending(out@),
            forall|l: ScalarLocation|
                #![trigger out@.contains(l)]
                out@.contains(l) <==> (l.is_output() && exists|k: int|
                    0 <= k < i && all@[k] == l),
        decreases all.len() - i,
    {
        let ghost prev = out@;
        let l = all[i];
        if l.is_output() {
            place(&mut out, l);
        }
        proof {
            assert forall|x: ScalarLocation|
                #![trigger out@.contains(x)]
                out@.contains(x) <==> (x.is_output() && exists|k: int|
                    0 <= k < i + 1 && all@[k] == x) by {
                if out@.contains(x) {
                    if prev.contains(x) {
                        let k = choose|k: int| 0 <= k < i && all@[k] == x;
                        assert(0 <= k < i + 1 && all@[k] == x);
                    } else {
                        assert(all@[i as int] == x);
                    }
                }
                if x.is_output() && exists|k: int| 0 <= k < i + 1 && all@[k] == x {
                    let k = choose|k: int| 0 <= k < i + 1 && all@[k] == x;
                    if k < i {
                        assert(prev.contains(x));
                    }
                }
            }
        }
        i = i + 1;
    }
    proof {
        assert forall|l: ScalarLocation| out@.contains(l) <==> outputs_of(deps@).contains(l) by {
            if out@.contains(l) {
                let k = choose|k: int| 0 <= k < i && all@[k] == l;
                assert(all@.contains(l));
                assert(all@.to_set().contains(l));
            }
            if outputs_of(deps@).contains(l) {
                assert(all@.to_set().contains(l));
                let k = choose|k: int| 0 <= k < all@.len() && all@[k] == l;
                assert(0 <= k < i && all@[k] == l);
            }
        }
        lemma_listing_is(out@, outputs_of(deps@));
        lemma_ascending_is_canonical(out@);
    }
    out
}

/// Writes the report on the dependencies of a shader stage.
pub fn render(deps: &DependencySet, io: &Vec<IoDeclaration>) -> (text: String)
    ensures
        text@ == report(deps@, io@),
{
    let mut out = String::from_str("Inputs and Outputs:\n");
    let ghost head = out@;
    let mut i: usize = 0;
    while i < io.len()
        invariant
            i <= io.len(),
            out@ == head + io_lines(io@.take(i as int)),
        decreases io.len() - i,
    {
        out.append("\t");
        push_location(&mut out, io[i].location);
        out.append(" ");
        out.append(io[i].direction.to_str());
        out.append("\n");
        proof {
            assert(io@.take(i + 1).drop_last() =~= io@.take(i as int));
            assert(out@ =~= head + io_lines(io@.take(i + 1)));
        }
        i = i + 1;
    }
    assert(io@.take(i as int) =~= io@);

    let guards = deps.guards();
    assert(guards@.to_set() =~= deps@.guards);
    let (guard_locations, guard_literals) = split(&guards);
    let ghost after_io = out@;
    let mut g: usize = 0;
    while g < guard_locations.len()
        invariant
            g <= guard_locations.len(),
            out@ == after_io + guard_location_lines(guard_locations@.take(g as int)),
        decreases guard_locations.len() - g,
    {
        out.append("discard depends on ");
        push_location(&mut out, guard_locations[g]);
        out.append("\n");
        proof {
            assert(guard_locations@.take(g + 1).drop_last() =~= guard_locations@.take(g as int));
            assert(out@ =~= after_io + guard_location_lines(guard_locations@.take(g + 1)));
        }
        g = g + 1;
    }
    assert(guard_locations@.take(g as int) =~= guard_locations@);

    let ghost after_locations = out@;
    let mut h: usize = 0;
    while h < guard_literals.len()
        invariant
            h <= guard_literals.len(),
            out@ == after_locations + guard_literal_lines(guard_literals@.take(h as int)),
        decreases guard_literals.len() - h,
    {
        out.append("discard depends on ");
        push_literal(&mut out, guard_literals[h]);
        out.append("\n");
        proof {
            assert(guard_literals@.take(h + 1).drop_last() =~= guard_literals@.take(h as int));
            assert(out@ =~= after_locations + guard_literal_lines(guard_literals@.take(h + 1)));
        }
        h = h + 1;
    }
    assert(guard_literals@.take(h as int) =~= guard_literals@);

    let outs = outputs(deps);
    let ghost after_guards = out@;
    let mut o: usize = 0;
    while o < outs.len()
        invariant
            o <= outs.len(),
            out@ == after_guards + output_lines(outs@.take(o as int), deps@),
        decreases outs.len() - o,
    {
        let output = outs[o];
        let found = deps.dependencies(output);
        assert(found@.to_set() =~= deps@.dependencies_of(output));
        let (locations, literals) = split(&found);
        push_location(&mut out, output);
        out.append(" depends on ");
        push_dependencies(&mut out, &locations, &literals);
        out.append("\n");
        proof {
            assert(outs@.take(o + 1).drop_last() =~= outs@.take(o as int));
            assert(outs@.take(o + 1).last() == output);
            assert(out@ =~= after_guards + output_lines(outs@.take(o + 1), deps@));
        }
        o = o + 1;
    }
    assert(outs@.take(o as int) =~= outs@);
    assert(out@ =~= report(deps@, io@));
    out
}

} // verus!
