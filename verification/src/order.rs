//! Ascending listings of ranked values.
//!
//! A report must not depend on the order in which a collection happens to
//! hold its items. Every item that is listed therefore has a rank, and a set
//! of items is written out as the one sequence that holds exactly the items
//! of the set, in ascending rank.

use vstd::prelude::*;

verus! {

/// A value with a place in a total order, given by an integer rank.
pub trait Ranked: Copy {
    /// The rank by which values are ordered.
    spec fn rank(&self) -> int;

    /// Two values of the same rank are the same value.
    proof fn lemma_rank_injective(a: Self, b: Self)
        requires
            a.rank() == b.rank(),
        ensures
            a == b,
    ;

    /// Whether `self` comes strictly before `other`.
    fn precedes(&self, other: &Self) -> (b: bool)
        ensures
            b == (self.rank() < other.rank()),
    ;
}

impl Ranked for u64 {
    open spec fn rank(&self) -> int {
        *self as int
    }

    proof fn lemma_rank_injective(a: Self, b: Self) {
    }

    fn precedes(&self, other: &Self) -> (b: bool) {
        *self < *other
    }
}

/// The ranks of `s` strictly increase from left to right.
pub open spec fn ascending<T: Ranked>(s: Seq<T>) -> bool {
    forall|i: int, j: int| 0 <= i < j < s.len() ==> (#[trigger] s[i]).rank() < (#[trigger] s[j]).rank()
}

/// `q` holds exactly the items of `items`, in ascending rank.
pub open spec fn lists<T: Ranked>(q: Seq<T>, items: Set<T>) -> bool {
    &&& ascending(q)
    &&& forall|x: T|
        #![trigger q.contains(x)]
        #![trigger items.contains(x)]
        q.contains(x) <==> items.contains(x)
}

/// The items of `items` in ascending rank.
pub open spec fn listing<T: Ranked>(items: Set<T>) -> Seq<T> {
    choose|q: Seq<T>| lists(q, items)
}

/// `q` with `x` put at its place; `q` itself where it holds `x` already.
pub open spec fn placed<T: Ranked>(q: Seq<T>, x: T) -> Seq<T>
    decreases q.len(),
{
    if q.len() == 0 {
        seq![x]
    } else if q.last().rank() < x.rank() {
        q.push(x)
    } else if q.last().rank() == x.rank() {
        q
    } else {
        placed(q.drop_last(), x).push(q.last())
    }
}

/// The items of a sequence, each placed in turn.
pub open spec fn arranged<T: Ranked>(s: Seq<T>) -> Seq<T>
    decreases s.len(),
{
    if s.len() == 0 {
        Seq::empty()
    } else {
        placed(arranged(s.drop_last()), s.last())
    }
}

/// Placing an item keeps a sequence ascending and adds that item alone.
pub proof fn lemma_placed<T: Ranked>(q: Seq<T>, x: T)
    requires
        ascending(q),
    ensures
        ascending(placed(q, x)),
        forall|y: T|
            #![trigger placed(q, x).contains(y)]
            #![trigger q.contains(y)]
            placed(q, x).contains(y) <==> (q.contains(y) || y == x),
        placed(q, x).len() <= q.len() + 1,
        placed(q, x).len() > 0,
        placed(q, x).last().rank() == (if q.len() > 0 && q.last().rank() > x.rank() {
            q.last().rank()
        } else {
            x.rank()
        }),
    decreases q.len(),
{
    let r = placed(q, x);
    if q.len() == 0 {
        assert(r[0] == x);
        assert forall|y: T| r.contains(y) <==> (q.contains(y) || y == x) by {
            if y == x {
                assert(r[0] == y);
            }
        }
    } else if q.last().rank() < x.rank() {
        assert forall|i: int, j: int| 0 <= i < j < r.len() implies (#[trigger] r[i]).rank() < (
        #[trigger] r[j]).rank() by {
            if j == q.len() {
                if i < q.len() - 1 {
                    assert(q[i].rank() < q[q.len() - 1].rank());
                }
            } else {
                assert(q[i].rank() < q[j].rank());
            }
        }
        assert forall|y: T| r.contains(y) <==> (q.contains(y) || y == x) by {
            if r.contains(y) {
                let k = choose|k: int| 0 <= k < r.len() && r[k] == y;
                if k < q.len() {
                    assert(q[k] == y);
                }
            }
            if q.contains(y) {
                let k = choose|k: int| 0 <= k < q.len() && q[k] == y;
                assert(r[k] == y);
            }
            if y == x {
                assert(r[q.len() as int] == y);
            }
        }
    } else if q.last().rank() == x.rank() {
        T::lemma_rank_injective(q.last(), x);
        assert(q[q.len() - 1] == x);
    } else {
        let head = q.drop_last();
        let p = placed(head, x);
        assert forall|i: int, j: int| 0 <= i < j < head.len() implies (#[trigger] head[i]).rank()
            < (#[trigger] head[j]).rank() by {
            assert(q[i].rank() < q[j].rank());
        }
        lemma_placed(head, x);
        if head.len() > 0 {
            assert(head.last() == q[q.len() - 2]);
            assert(q[q.len() - 2].rank() < q[q.len() - 1].rank());
        }
        assert(p.last().rank() < q.last().rank());
        assert forall|i: int, j: int| 0 <= i < j < r.len() implies (#[trigger] r[i]).rank() < (
        #[trigger] r[j]).rank() by {
            if j == p.len() {
                if i < p.len() - 1 {
                    assert(p[i].rank() < p[p.len() - 1].rank());
                }
            } else {
                assert(p[i].rank() < p[j].rank());
            }
        }
        assert forall|y: T| r.contains(y) <==> (q.contains(y) || y == x) by {
            if r.contains(y) {
                let k = choose|k: int| 0 <= k < r.len() && r[k] == y;
                if k < p.len() {
                    assert(p[k] == y);
                    assert(p.contains(y));
                    if head.contains(y) {
                        let m = choose|m: int| 0 <= m < head.len() && head[m] == y;
                        assert(q[m] == y);
                    }
                } else {
                    assert(q[q.len() - 1] == y);
                }
            }
            if q.contains(y) {
                let k = choose|k: int| 0 <= k < q.len() && q[k] == y;
                if k < head.len() {
                    assert(head[k] == y);
                    assert(head.contains(y));
                    assert(p.contains(y));
                    let m = choose|m: int| 0 <= m < p.len() && p[m] == y;
                    assert(r[m] == y);
                } else {
                    assert(r[p.len() as int] == y);
                }
            }
            if y == x {
                assert(p.contains(y));
                let m = choose|m: int| 0 <= m < p.len() && p[m] == y;
                assert(r[m] == y);
            }
        }
    }
}

/// Arranging a sequence lists the set of its items.
pub proof fn lemma_arranged<T: Ranked>(s: Seq<T>)
    ensures
        lists(arranged(s), s.to_set()),
    decreases s.len(),
{
    let r = arranged(s);
    if s.len() == 0 {
        assert forall|x: T| r.contains(x) <==> s.to_set().contains(x) by {
            if r.contains(x) {
                let k = choose|k: int| 0 <= k < r.len() && r[k] == x;
            }
            if s.contains(x) {
                let k = choose|k: int| 0 <= k < s.len() && s[k] == x;
            }
        }
    } else {
        let head = s.drop_last();
        lemma_arranged(head);
        lemma_placed(arranged(head), s.last());
        assert forall|x: T| r.contains(x) <==> s.to_set().contains(x) by {
            if r.contains(x) {
                if arranged(head).contains(x) {
                    assert(head.to_set().contains(x));
                    let k = choose|k: int| 0 <= k < head.len() && head[k] == x;
                    assert(s[k] == x);
                } else {
                    assert(s[s.len() - 1] == x);
                }
            }
            if s.contains(x) {
                let k = choose|k: int| 0 <= k < s.len() && s[k] == x;
                if k < head.len() {
                    assert(head[k] == x);
                    assert(head.to_set().contains(x));
                    assert(arranged(head).contains(x));
                }
            }
        }
    }
}

/// A set has at most one listing.
pub proof fn lemma_lists_unique<T: Ranked>(a: Seq<T>, b: Seq<T>, items: Set<T>)
    requires
        lists(a, items),
        lists(b, items),
    ensures
        a == b,
    decreases a.len(),
{
    if a.len() == 0 {
        if b.len() > 0 {
            assert(b.contains(b[0]));
            assert(a.contains(b[0]));
        }
        assert(a =~= b);
    } else {
        let top = a.last();
        assert(a[a.len() - 1] == top);
        assert(a.contains(top));
        assert(b.contains(top));
        let jb = choose|k: int| 0 <= k < b.len() && b[k] == top;
        assert(b.contains(b[b.len() - 1]));
        assert(a.contains(b.last()));
        let ia = choose|k: int| 0 <= k < a.len() && a[k] == b.last();
        if ia < a.len() - 1 {
            assert(a[ia].rank() < a[a.len() - 1].rank());
        }
        if jb < b.len() - 1 {
            assert(b[jb].rank() < b[b.len() - 1].rank());
        }
        T::lemma_rank_injective(top, b.last());
        let rest = items.remove(top);
        lemma_without_last(a, items);
        lemma_without_last(b, items);
        lemma_lists_unique(a.drop_last(), b.drop_last(), rest);
        assert(a =~= a.drop_last().push(top));
        assert(b =~= b.drop_last().push(top));
    }
}

/// Without its last item a listing lists the set without that item.
proof fn lemma_without_last<T: Ranked>(q: Seq<T>, items: Set<T>)
    requires
        lists(q, items),
        q.len() > 0,
    ensures
        lists(q.drop_last(), items.remove(q.last())),
{
    let head = q.drop_last();
    let top = q.last();
    assert forall|i: int, j: int| 0 <= i < j < head.len() implies (#[trigger] head[i]).rank() < (
    #[trigger] head[j]).rank() by {
        assert(q[i].rank() < q[j].rank());
    }
    assert forall|x: T| head.contains(x) <==> items.remove(top).contains(x) by {
        if head.contains(x) {
            let k = choose|k: int| 0 <= k < head.len() && head[k] == x;
            assert(q[k] == x);
            assert(q[k].rank() < q[q.len() - 1].rank());
            assert(q.contains(x));
        }
        if items.remove(top).contains(x) {
            assert(q.contains(x));
            let k = choose|k: int| 0 <= k < q.len() && q[k] == x;
            assert(head[k] == x);
        }
    }
}

/// A sequence that lists a set is the listing of that set.
pub proof fn lemma_listing_is<T: Ranked>(q: Seq<T>, items: Set<T>)
    requires
        lists(q, items),
    ensures
        listing(items) == q,
{
    lemma_lists_unique(listing(items), q, items);
}

/// The items of a sequence have a listing, and it is the arranged sequence.
pub proof fn lemma_listing_of_seq<T: Ranked>(s: Seq<T>)
    ensures
        lists(listing(s.to_set()), s.to_set()),
        listing(s.to_set()) == arranged(s),
{
    lemma_arranged(s);
    lemma_listing_is(arranged(s), s.to_set());
}

/// A finite set has a listing.
pub proof fn lemma_listing_of_finite<T: Ranked>(items: Set<T>)
    requires
        items.finite(),
    ensures
        lists(listing(items), items),
{
    items.lemma_to_seq_to_set_id();
    lemma_listing_of_seq(items.to_seq());
}

/// Puts `x` at its place in an ascending vector, unless the vector holds it.
pub fn place<T: Ranked>(v: &mut Vec<T>, x: T)
    requires
        ascending(old(v)@),
    ensures
        final(v)@ == placed(old(v)@, x),
        ascending(final(v)@),
        forall|y: T|
            #![trigger final(v)@.contains(y)]
            #![trigger old(v)@.contains(y)]
            final(v)@.contains(y) <==> (old(v)@.contains(y) || y == x),
{
    let ghost before = v@;
    let ghost items = before.to_set().insert(x);
    proof {
        lemma_placed(before, x);
        assert forall|y: T| placed(before, x).contains(y) <==> items.contains(y) by {
            assert(before.to_set().contains(y) <==> before.contains(y));
        }
    }
    let mut i: usize = v.len();
    while i > 0 && x.precedes(&v[i - 1])
        invariant
            i <= v.len(),
            v@ == before,
            forall|k: int| i <= k < v.len() ==> x.rank() < (#[trigger] v@[k]).rank(),
        decreases i,
    {
        i = i - 1;
    }
    if i > 0 && !v[i - 1].precedes(&x) {
        proof {
            T::lemma_rank_injective(v@[i - 1], x);
            assert(before.contains(x));
            assert forall|y: T| before.contains(y) <==> items.contains(y) by {
                assert(before.to_set().contains(y) <==> before.contains(y));
            }
            lemma_lists_unique(before, placed(before, x), items);
        }
        return ;
    }
    v.insert(i, x);
    proof {
        let after = v@;
        assert forall|a: int, b: int| 0 <= a < b < after.len() implies (#[trigger] after[a]).rank()
            < (#[trigger] after[b]).rank() by {
            if b < i {
                assert(before[a].rank() < before[b].rank());
            } else if b == i {
                if a < i - 1 {
                    assert(before[a].rank() < before[i - 1].rank());
                }
            } else if a < i {
                assert(before[a].rank() < before[b - 1].rank());
            } else if a == i {
                assert(x.rank() < before[b - 1].rank());
            } else {
                assert(before[a - 1].rank() < before[b - 1].rank());
            }
        }
        assert forall|y: T| after.contains(y) <==> (before.contains(y) || y == x) by {
            if after.contains(y) {
                let k = choose|k: int| 0 <= k < after.len() && after[k] == y;
                if k < i {
                    assert(before[k] == y);
                } else if k > i {
                    assert(before[k - 1] == y);
                }
            }
            if before.contains(y) {
                let k = choose|k: int| 0 <= k < before.len() && before[k] == y;
                if k < i {
                    assert(after[k] == y);
                } else {
                    assert(after[k + 1] == y);
                }
            }
            if y == x {
                assert(after[i as int] == y);
            }
        }
        assert forall|y: T| after.contains(y) <==> items.contains(y) by {
            assert(before.to_set().contains(y) <==> before.contains(y));
        }
        lemma_lists_unique(after, placed(before, x), items);
    }
}

/// The items of `items` in ascending rank, each once.
pub fn arrange<T: Ranked>(items: &Vec<T>) -> (out: Vec<T>)
    ensures
        lists(out@, items@.to_set()),
        out@ == listing(items@.to_set()),
{
    let mut out: Vec<T> = Vec::new();
    let mut i: usize = 0;
    while i < items.len()
        invariant
            i <= items.len(),
            ascending(out@),
            forall|y: T|
                #![trigger out@.contains(y)]
                out@.contains(y) <==> exists|k: int| 0 <= k < i && items@[k] == y,
        decreases items.len() - i,
    {
        let ghost prev = out@;
        place(&mut out, items[i]);
        proof {
            assert forall|y: T| #![trigger out@.contains(y)] out@.contains(y) <==> exists|k: int|
                0 <= k < i + 1 && items@[k] == y by {
                if out@.contains(y) {
                    if prev.contains(y) {
                        let k = choose|k: int| 0 <= k < i && items@[k] == y;
                        assert(0 <= k < i + 1 && items@[k] == y);
                    } else {
                        assert(items@[i as int] == y);
                    }
                }
                if exists|k: int| 0 <= k < i + 1 && items@[k] == y {
                    let k = choose|k: int| 0 <= k < i + 1 && items@[k] == y;
                    if k < i {
                        assert(prev.contains(y));
                    }
                }
            }
        }
        i = i + 1;
    }
    proof {
        assert forall|x: T| out@.contains(x) <==> items@.to_set().contains(x) by {
            if out@.contains(x) {
                let k = choose|k: int| 0 <= k < i && items@[k] == x;
                assert(items@[k] == x);
            }
            if items@.contains(x) {
                let k = choose|k: int| 0 <= k < items@.len() && items@[k] == x;
                assert(0 <= k < i && items@[k] == x);
            }
        }
        lemma_listing_is(out@, items@.to_set());
    }
    out
}

} // verus!
