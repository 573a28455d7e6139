//! The ordering strategy a heap is built with, and the order-theoretic
//! facts that its guarantees rest on.

use vstd::prelude::*;
use vstd::multiset::Multiset;
use vstd::relations::total_ordering;
use vstd::seq_lib::lemma_sorted_unique;
use vstd::std_specs::cmp::PartialOrdSpec;
use core::cmp::Ordering;

verus! {

/// An injected comparison strategy: `better(a, b)` is true when `a` must
/// sit strictly closer to the root of a heap than `b`.
pub trait Comparator<T>: Sized {
    /// The mathematical relation that the executable comparison implements.
    spec fn better_spec(&self, x: T, y: T) -> bool;

    /// True when the executable comparison is known to agree with
    /// `better_spec` (for the standard orderings this is vstd's
    /// `obeys_partial_cmp_spec`).
    spec fn obeys_spec(&self) -> bool;

    /// Executable comparison: true when `a` must sit strictly closer to
    /// the root than `b`.
    fn better(&self, a: &T, b: &T) -> (r: bool)
        requires
            self.obeys_spec(),
        ensures
            r == self.better_spec(*a, *b),
    ;
}

/// The comparator behaves like a strict weak ordering: nothing beats
/// itself, beating is transitive, and failing to beat is transitive.
/// `<` and `>` on any totally ordered type are of this shape.
pub open spec fn strict_weak_ordering<T, C: Comparator<T>>(c: C) -> bool {
    &&& forall|x: T| !c.better_spec(x, x)
    &&& forall|x: T, y: T, z: T|
        #[trigger] c.better_spec(x, y) && #[trigger] c.better_spec(y, z) ==> c.better_spec(x, z)
    &&& forall|x: T, y: T, z: T|
        !(#[trigger] c.better_spec(x, y)) && !(#[trigger] c.better_spec(y, z))
            ==> !c.better_spec(x, z)
}

/// The comparator tells any two distinct values apart, as `<` on a
/// totally ordered type does.
pub open spec fn trichotomous<T, C: Comparator<T>>(c: C) -> bool {
    forall|x: T, y: T| x == y || #[trigger] c.better_spec(x, y) || #[trigger] c.better_spec(y, x)
}

/// A sequence laid out the way a full drain of a heap hands elements out:
/// no later element beats an earlier one.
pub open spec fn drain_ordered<T, C: Comparator<T>>(c: C, s: Seq<T>) -> bool {
    forall|i: int, j: int|
        0 <= i < j < s.len() ==> !c.better_spec(#[trigger] s[j], #[trigger] s[i])
}

/// Orders a min-heap: the smaller element wins.
pub struct MinComparator;

impl<T: PartialOrd> Comparator<T> for MinComparator {
    open spec fn better_spec(&self, x: T, y: T) -> bool {
        x.partial_cmp_spec(&y) == Some(Ordering::Less)
    }

    open spec fn obeys_spec(&self) -> bool {
        T::obeys_partial_cmp_spec()
    }

    fn better(&self, a: &T, b: &T) -> (r: bool) {
        a.lt(b)
    }
}

/// Orders a max-heap: the greater element wins.
pub struct MaxComparator;

impl<T: PartialOrd> Comparator<T> for MaxComparator {
    open spec fn better_spec(&self, x: T, y: T) -> bool {
        x.partial_cmp_spec(&y) == Some(Ordering::Greater)
    }

    open spec fn obeys_spec(&self) -> bool {
        T::obeys_partial_cmp_spec()
    }

    fn better(&self, a: &T, b: &T) -> (r: bool) {
        a.gt(b)
    }
}

/// Successive extractions never improve: when `x` is a best element of
/// the multiset `m` and `y` is drawn from what remains after taking `x`
/// out, `y` does not beat `x`.
pub proof fn lemma_successive_extracts_ordered<T, C: Comparator<T>>(
    c: C,
    m: Multiset<T>,
    x: T,
    y: T,
)
    requires
        m.contains(x),
        forall|e: T| m.contains(e) ==> !c.better_spec(e, x),
        m.remove(x).contains(y),
    ensures
        !c.better_spec(y, x),
{
    broadcast use vstd::multiset::group_multiset_axioms;

    assert(m.contains(y));
}

proof fn lemma_drain_span<T, C: Comparator<T>>(c: C, s: Seq<T>, i: int, j: int)
    requires
        strict_weak_ordering(c),
        forall|k: int| 0 < k < s.len() ==> !c.better_spec(#[trigger] s[k], s[k - 1]),
        0 <= i < j < s.len(),
    ensures
        !c.better_spec(s[j], s[i]),
    decreases j - i,
{
    if j > i + 1 {
        lemma_drain_span(c, s, i, j - 1);
        assert(!c.better_spec(s[j], s[j - 1]));
    }
}

/// A drain whose every element fails to beat its predecessor is ordered
/// throughout: no element beats any earlier one.
pub proof fn lemma_adjacent_drain_ordered<T, C: Comparator<T>>(c: C, s: Seq<T>)
    requires
        strict_weak_ordering(c),
        forall|k: int| 0 < k < s.len() ==> !c.better_spec(#[trigger] s[k], s[k - 1]),
    ensures
        drain_ordered(c, s),
{
    assert forall|i: int, j: int| 0 <= i < j < s.len() implies !c.better_spec(s[j], s[i]) by {
        lemma_drain_span(c, s, i, j);
    }
}

/// Heap sort is deterministic when the comparator tells distinct values
/// apart: two ordered drains of the same multiset are the same sequence,
/// whatever order the elements went in.
pub proof fn lemma_drain_unique<T, C: Comparator<T>>(c: C, s1: Seq<T>, s2: Seq<T>)
    requires
        strict_weak_ordering(c),
        trichotomous(c),
        drain_ordered(c, s1),
        drain_ordered(c, s2),
        s1.to_multiset() == s2.to_multiset(),
    ensures
        s1 == s2,
{
    let leq = |a: T, b: T| !c.better_spec(b, a);
    assert(total_ordering(leq)) by {
        assert forall|x: T| #[trigger] leq(x, x) by {
            assert(!c.better_spec(x, x));
        }
        assert forall|x: T, y: T| #[trigger] leq(x, y) && #[trigger] leq(y, x) implies x == y by {
            assert(!c.better_spec(y, x) && !c.better_spec(x, y));
            assert(x == y || c.better_spec(x, y) || c.better_spec(y, x));
        }
        assert forall|x: T, y: T, z: T|
            #[trigger] leq(x, y) && #[trigger] leq(y, z) implies leq(x, z) by {
            assert(!c.better_spec(y, x) && !c.better_spec(z, y));
        }
        assert forall|x: T, y: T| #[trigger] leq(x, y) || #[trigger] leq(y, x) by {
            if c.better_spec(y, x) && c.better_spec(x, y) {
                assert(c.better_spec(x, x));
            }
        }
    }
    assert(vstd::relations::sorted_by(s1, leq));
    assert(vstd::relations::sorted_by(s2, leq));
    lemma_sorted_unique(s1, s2, leq);
    assert(s1 =~= s2);
}

/// Round trip: a complete drain of everything that was inserted is an
/// ordered permutation of the inserted multiset — same elements with the
/// same multiplicities, handed out so that no element beats an earlier
/// one.
pub proof fn lemma_drain_round_trip<T, C: Comparator<T>>(
    c: C,
    inserted: Multiset<T>,
    drained: Seq<T>,
)
    requires
        strict_weak_ordering(c),
        drained.to_multiset() == inserted,
        forall|k: int| 0 < k < drained.len() ==> !c.better_spec(#[trigger] drained[k], drained[k - 1]),
    ensures
        drain_ordered(c, drained),
        drained.to_multiset() == inserted,
{
    lemma_adjacent_drain_ordered(c, drained);
}

} // verus!
