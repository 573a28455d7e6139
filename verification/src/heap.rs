//! A binary heap over a caller-supplied comparison strategy, with
//! machine-checked bounds on what `add` and `extract_best` do to the
//! stored multiset and on which element comes out first.

use vstd::prelude::*;
use crate::order::{Comparator, MaxComparator, MinComparator, strict_weak_ordering};

verus! {

/// Index of the parent of slot `i` in the flat storage (0-indexed layout).
pub open spec fn parent_index(i: int) -> int {
    (i - 1) / 2
}

/// The heap shape on a storage sequence: no element beats its parent.
pub open spec fn heap_ordered<T, C: Comparator<T>>(c: C, s: Seq<T>) -> bool {
    forall|i: int| 1 <= i < s.len() ==> !c.better_spec(#[trigger] s[i], s[parent_index(i)])
}

/// The child of slot `i` that sifting down descends into: the lone left
/// child if there is no right one, otherwise whichever of the two wins
/// the comparison (the right one on a tie).
pub open spec fn best_child_index<T, C: Comparator<T>>(c: C, s: Seq<T>, i: int) -> int {
    if 2 * i + 2 >= s.len() {
        2 * i + 1
    } else if c.better_spec(s[2 * i + 1], s[2 * i + 2]) {
        2 * i + 1
    } else {
        2 * i + 2
    }
}

/// Relies on slice::swap: the elements at `i` and `j` trade places and
/// nothing else changes.
#[verifier::external_body]
fn swap_items<T>(v: &mut Vec<T>, i: usize, j: usize)
    requires
        i < old(v)@.len(),
        j < old(v)@.len(),
    ensures
        final(v)@ == old(v)@.update(i as int, old(v)@[j as int]).update(j as int, old(v)@[i as int]),
{
    v.swap(i, j);
}

/// Overwriting one slot trades its old occupant for the new value in the
/// stored multiset.
proof fn lemma_update_to_multiset<T>(s: Seq<T>, i: int, v: T)
    requires
        0 <= i < s.len(),
    ensures
        s.update(i, v).to_multiset() =~= s.to_multiset().remove(s[i]).insert(v),
{
    broadcast use vstd::seq_lib::group_to_multiset_ensures;
    broadcast use vstd::multiset::group_multiset_axioms;

    let s2 = s.update(i, v);
    assert(s2.remove(i) =~= s.remove(i));
    assert(s2.remove(i).to_multiset() =~= s2.to_multiset().remove(v));
    assert(s.remove(i).to_multiset() =~= s.to_multiset().remove(s[i]));
    assert(s2.contains(v)) by {
        assert(s2[i] == v);
    }
    assert(s.contains(s[i]));
    assert(s2.to_multiset().count(v) > 0);
    assert(s.to_multiset().count(s[i]) > 0);
    assert forall|x: T|
        s2.to_multiset().count(x) == s.to_multiset().remove(s[i]).insert(v).count(x) by {
        assert(s2.to_multiset().remove(v).count(x) == s.to_multiset().remove(s[i]).count(x));
    }
}

/// Swapping two slots leaves the stored multiset unchanged.
proof fn lemma_swap_to_multiset<T>(s: Seq<T>, i: int, j: int)
    requires
        0 <= i < s.len(),
        0 <= j < s.len(),
    ensures
        s.update(i, s[j]).update(j, s[i]).to_multiset() =~= s.to_multiset(),
{
    broadcast use vstd::seq_lib::group_to_multiset_ensures;
    broadcast use vstd::multiset::group_multiset_axioms;

    if i == j {
        assert(s.update(i, s[j]).update(j, s[i]) =~= s);
    } else {
        let s1 = s.update(i, s[j]);
        lemma_update_to_multiset(s, i, s[j]);
        assert(s1[j] == s[j]);
        lemma_update_to_multiset(s1, j, s[i]);
        assert(s.contains(s[i]));
        assert(s.contains(s[j]));
        assert(s1.contains(s[j])) by {
            assert(s1[j] == s[j]);
        }
        assert forall|x: T|
            s.update(i, s[j]).update(j, s[i]).to_multiset().count(x) == s.to_multiset().count(
                x,
            ) by {}
    }
}

/// In a heap-shaped sequence under a strict weak ordering, nothing beats
/// the root.
pub proof fn lemma_heap_root_best<T, C: Comparator<T>>(c: C, s: Seq<T>, i: int)
    requires
        strict_weak_ordering(c),
        heap_ordered(c, s),
        0 <= i < s.len(),
    ensures
        !c.better_spec(s[i], s[0]),
    decreases i,
{
    if i > 0 {
        lemma_heap_root_best(c, s, parent_index(i));
    }
}

/// A binary heap over elements of type `T`, ordered by an injected
/// comparison strategy fixed at construction. The flat storage is
/// 0-indexed: the children of slot `i` sit at `2i + 1` and `2i + 2`.
pub struct Heap<T, C: Comparator<T>> {
    items: Vec<T>,
    comparator: C,
}

impl<T, C: Comparator<T>> View for Heap<T, C> {
    type V = Seq<T>;

    closed spec fn view(&self) -> Seq<T> {
        self.items@
    }
}

impl<T, C: Comparator<T>> Heap<T, C> {
    /// The comparison strategy the heap was built with.
    pub closed spec fn cmp(&self) -> C {
        self.comparator
    }

    /// What construction establishes and every operation preserves: a
    /// dependable strict-weak comparator and the heap shape on the storage.
    pub closed spec fn wf(&self) -> bool {
        &&& self.comparator.obeys_spec()
        &&& strict_weak_ordering(self.comparator)
        &&& heap_ordered(self.comparator, self.items@)
    }

    /// A well-formed heap keeps its view heap-shaped under its own
    /// comparator, which is a strict weak ordering.
    pub proof fn lemma_wf_heap_ordered(&self)
        requires
            self.wf(),
        ensures
            strict_weak_ordering(self.cmp()),
            heap_ordered(self.cmp(), self@),
    {
    }

    /// An empty heap with the given comparison strategy. The strategy must
    /// be a dependable strict weak ordering; that is the caller's
    /// correctness obligation, not something checked at run time.
    pub fn new(comparator: C) -> (h: Self)
        requires
            comparator.obeys_spec(),
            strict_weak_ordering(comparator),
        ensures
            h.wf(),
            h@ == Seq::<T>::empty(),
            h.cmp() == comparator,
    {
        Heap { items: Vec::new(), comparator }
    }

    /// Number of live elements.
    pub fn len(&self) -> (n: usize)
        ensures
            n == self@.len(),
    {
        self.items.len()
    }

    /// True exactly when no element is stored.
    pub fn is_empty(&self) -> (b: bool)
        ensures
            b == (self@.len() == 0),
    {
        self.len() == 0
    }

    fn parent_idx(&self, idx: usize) -> (p: usize)
        requires
            1 <= idx,
        ensures
            p == parent_index(idx as int),
    {
        (idx - 1) / 2
    }

    fn children_present(&self, idx: usize) -> (b: bool)
        ensures
            b == (2 * (idx as int) + 1 < self@.len()),
    {
        idx < self.items.len() / 2
    }

    fn left_child_idx(&self, idx: usize) -> (l: usize)
        requires
            2 * (idx as int) + 1 < self@.len(),
        ensures
            l == 2 * (idx as int) + 1,
    {
        let n: usize = self.items.len();
        proof {
            assert(2 * (idx as int) + 1 < n as int);
        }
        2 * idx + 1
    }

    fn right_child_idx(&self, idx: usize) -> (r: usize)
        requires
            2 * (idx as int) + 1 < self@.len(),
        ensures
            r == 2 * (idx as int) + 2,
    {
        let n: usize = self.items.len();
        proof {
            assert(2 * (idx as int) + 2 <= n as int);
        }
        2 * idx + 2
    }

    fn smallest_child_idx(&self, idx: usize) -> (c: usize)
        requires
            self.cmp().obeys_spec(),
            2 * (idx as int) + 1 < self@.len(),
        ensures
            c == best_child_index(self.cmp(), self@, idx as int),
            idx < c < self@.len(),
            parent_index(c as int) == idx,
    {
        let left = self.left_child_idx(idx);
        let right = self.right_child_idx(idx);
        if right >= self.items.len() {
            left
        } else if self.comparator.better(&self.items[left], &self.items[right]) {
            left
        } else {
            right
        }
    }

    /// Inserts `value`, then sifts it up until its parent is no worse,
    /// restoring the heap shape. The stored multiset gains exactly one
    /// occurrence of `value`.
    pub fn add(&mut self, value: T)
        requires
            old(self).wf(),
        ensures
            final(self).wf(),
            final(self).cmp() == old(self).cmp(),
            final(self)@.len() == old(self)@.len() + 1,
            final(self)@.to_multiset() == old(self)@.to_multiset().insert(value),
    {
        proof {
            broadcast use vstd::seq_lib::group_to_multiset_ensures;
        }
        self.items.push(value);
        let mut idx: usize = self.items.len() - 1;
        proof {
            assert(self.items@ == old(self)@.push(value));
            assert forall|j: int|
                1 <= j < self.items@.len() && j != idx ==> !self.comparator.better_spec(
                    #[trigger] self.items@[j],
                    self.items@[parent_index(j)],
                ) by {}
        }
        while idx > 0 && self.comparator.better(
            &self.items[idx],
            &self.items[self.parent_idx(idx)],
        )
            invariant
                self.comparator == old(self).comparator,
                self.comparator.obeys_spec(),
                strict_weak_ordering(self.comparator),
                idx < self.items@.len(),
                self.items@.len() == old(self)@.len() + 1,
                self.items@.to_multiset() == old(self)@.to_multiset().insert(value),
                forall|j: int|
                    1 <= j < self.items@.len() && j != idx ==> !self.comparator.better_spec(
                        #[trigger] self.items@[j],
                        self.items@[parent_index(j)],
                    ),
                idx > 0 ==> forall|j: int|
                    1 <= j < self.items@.len() && parent_index(j) == idx
                        ==> !self.comparator.better_spec(
                        #[trigger] self.items@[j],
                        self.items@[parent_index(idx as int)],
                    ),
            decreases idx,
        {
            let p = self.parent_idx(idx);
            let ghost s = self.items@;
            let ghost c = self.comparator;
            swap_items(&mut self.items, idx, p);
            proof {
                let t = self.items@;
                lemma_swap_to_multiset(s, idx as int, p as int);
                assert(t.to_multiset() == s.to_multiset());
                assert(c.better_spec(s[idx as int], s[p as int]));
                assert forall|j: int|
                    1 <= j < t.len() && j != p implies !c.better_spec(
                    #[trigger] t[j],
                    t[parent_index(j)],
                ) by {
                    if j == idx {
                        // the displaced parent must not beat the risen element
                        assert(!c.better_spec(s[p as int], s[idx as int]));
                    } else if parent_index(j) == p {
                        // a sibling that did not beat the old parent cannot
                        // beat the strictly better risen element
                        assert(!c.better_spec(s[j], s[p as int]));
                    } else if parent_index(j) == idx {
                        // a child of the vacated slot is covered by the
                        // grandparent link carried in the loop invariant
                        assert(!c.better_spec(s[j], s[p as int]));
                    } else {
                        assert(t[j] == s[j] && t[parent_index(j)] == s[parent_index(j)]);
                    }
                }
                assert(p > 0 ==> parent_index(p as int) < p);
                assert forall|j: int|
                    p > 0 && 1 <= j < t.len() && parent_index(j) == p implies !c.better_spec(
                    #[trigger] t[j],
                    t[parent_index(p as int)],
                ) by {
                    assert(!c.better_spec(s[p as int], s[parent_index(p as int)]));
                    if j == idx {
                        assert(t[j] == s[p as int]);
                    } else {
                        assert(t[j] == s[j]);
                        assert(!c.better_spec(s[j], s[p as int]));
                    }
                }
            }
            idx = p;
        }
    }

    /// Removes and returns the root, the best live element under the
    /// heap's strategy; absence signals an empty heap, not an error. The
    /// last element replaces the root and sifts down until no child beats
    /// it, restoring the heap shape.
    pub fn extract_best(&mut self) -> (r: Option<T>)
        requires
            old(self).wf(),
        ensures
            final(self).wf(),
            final(self).cmp() == old(self).cmp(),
            old(self)@.len() == 0 ==> r is None && final(self)@ == old(self)@,
            old(self)@.len() > 0 ==> {
                &&& r == Some(old(self)@[0])
                &&& final(self)@.len() == old(self)@.len() - 1
                &&& final(self)@.to_multiset() == old(self)@.to_multiset().remove(old(self)@[0])
                &&& forall|e: T|
                    old(self)@.to_multiset().contains(e) ==> !old(self).cmp().better_spec(
                        e,
                        old(self)@[0],
                    )
            },
    {
        proof {
            broadcast use vstd::seq_lib::group_to_multiset_ensures;
            broadcast use vstd::multiset::group_multiset_axioms;
        }
        if self.items.len() == 0 {
            return None;
        }
        let ghost s0 = self.items@;
        proof {
            assert forall|e: T| s0.to_multiset().contains(e) implies !self.cmp().better_spec(
                e,
                s0[0],
            ) by {
                assert(s0.contains(e));
                let k = choose|k: int| 0 <= k < s0.len() && s0[k] == e;
                lemma_heap_root_best(self.comparator, s0, k);
            }
        }
        let best = self.items.swap_remove(0);
        proof {
            // the multiset loses one occurrence of the old root
            let s1 = s0.update(0, s0.last());
            lemma_update_to_multiset(s0, 0, s0.last());
            assert(s0.contains(s0[0]));
            assert(s1.len() == s0.len());
            assert(s1.last() == s0.last());
            assert(s1 =~= s1.drop_last().push(s1.last()));
            assert(s1.drop_last().push(s1.last()).to_multiset() =~= s1.drop_last().to_multiset().insert(
                s1.last(),
            ));
            assert(self.items@ == s1.drop_last());
            assert(s1.to_multiset() =~= self.items@.to_multiset().insert(s0.last()));
            assert(s1.to_multiset() =~= s0.to_multiset().remove(s0[0]).insert(s0.last()));
            assert forall|x: T|
                self.items@.to_multiset().count(x) == s0.to_multiset().remove(s0[0]).count(x) by {
                assert(s1.to_multiset().count(x) == self.items@.to_multiset().insert(
                    s0.last(),
                ).count(x));
                assert(s1.to_multiset().count(x) == s0.to_multiset().remove(s0[0]).insert(
                    s0.last(),
                ).count(x));
            }
            assert(self.items@.to_multiset() =~= s0.to_multiset().remove(s0[0]));
            // the surviving prefix keeps every parent link away from the root
            assert forall|j: int|
                1 <= j < self.items@.len() && parent_index(j) != 0 implies !self.comparator.better_spec(
                #[trigger] self.items@[j],
                self.items@[parent_index(j)],
            ) by {
                assert(self.items@[j] == s0[j]);
                assert(self.items@[parent_index(j)] == s0[parent_index(j)]);
            }
        }
        if self.items.len() > 0 {
            let mut idx: usize = 0;
            while self.children_present(idx) && self.comparator.better(
                &self.items[self.smallest_child_idx(idx)],
                &self.items[idx],
            )
                invariant
                    self.comparator == old(self).comparator,
                    self.comparator.obeys_spec(),
                    strict_weak_ordering(self.comparator),
                    self.items@.len() > 0,
                    idx < self.items@.len(),
                    self.items@.len() == old(self)@.len() - 1,
                    self.items@.to_multiset() == old(self)@.to_multiset().remove(old(self)@[0]),
                    forall|j: int|
                        1 <= j < self.items@.len() && parent_index(j) != idx
                            ==> !self.comparator.better_spec(
                            #[trigger] self.items@[j],
                            self.items@[parent_index(j)],
                        ),
                    idx > 0 ==> forall|j: int|
                        1 <= j < self.items@.len() && parent_index(j) == idx
                            ==> !self.comparator.better_spec(
                            #[trigger] self.items@[j],
                            self.items@[parent_index(idx as int)],
                        ),
                decreases self.items@.len() - idx,
            {
                let child = self.smallest_child_idx(idx);
                let ghost s = self.items@;
                let ghost c = self.comparator;
                swap_items(&mut self.items, idx, child);
                proof {
                    let t = self.items@;
                    lemma_swap_to_multiset(s, idx as int, child as int);
                    assert(c.better_spec(s[child as int], s[idx as int]));
                    let l = 2 * (idx as int) + 1;
                    let rt = 2 * (idx as int) + 2;
                    assert forall|j: int|
                        1 <= j < t.len() && parent_index(j) != child implies !c.better_spec(
                        #[trigger] t[j],
                        t[parent_index(j)],
                    ) by {
                        if j == child {
                            // the sunk element was strictly beaten by this child
                            assert(!c.better_spec(s[idx as int], s[child as int]));
                        } else if parent_index(j) == idx {
                            // the other child loses (or ties) against the best child
                            assert(j == l || j == rt);
                            assert(!c.better_spec(s[j], s[child as int]));
                        } else if j == idx {
                            // the grandparent link carried in the loop invariant
                            assert(idx > 0);
                            assert(!c.better_spec(s[child as int], s[parent_index(idx as int)]));
                        } else {
                            assert(t[j] == s[j] && t[parent_index(j)] == s[parent_index(j)]);
                        }
                    }
                    assert forall|j: int|
                        child > 0 && 1 <= j < t.len() && parent_index(j) == child
                            implies !c.better_spec(#[trigger] t[j], t[parent_index(child as int)]) by {
                        assert(parent_index(child as int) == idx);
                        assert(t[j] == s[j]);
                        assert(!c.better_spec(s[j], s[child as int]));
                        assert(t[parent_index(child as int)] == s[child as int]);
                    }
                }
                idx = child;
            }
            proof {
                // on exit the missing links hold as well
                let s = self.items@;
                let c = self.comparator;
                assert forall|j: int|
                    1 <= j < s.len() implies !c.better_spec(#[trigger] s[j], s[parent_index(j)]) by {
                    if parent_index(j) == idx {
                        let l = 2 * (idx as int) + 1;
                        let rt = 2 * (idx as int) + 2;
                        let bc = best_child_index(c, s, idx as int);
                        assert(!c.better_spec(s[bc], s[idx as int]));
                        assert(j == l || j == rt);
                        assert(!c.better_spec(s[j], s[bc]) || j == bc);
                    }
                }
            }
        }
        Some(best)
    }
}

/// Builds min-heaps: `new` yields an empty heap whose strategy keeps the
/// smallest element at the root.
pub struct MinHeap;

impl MinHeap {
    /// Create a new MinHeap
    pub fn new<T: Ord>() -> (h: Heap<T, MinComparator>)
        requires
            <MinComparator as Comparator<T>>::obeys_spec(&MinComparator),
            strict_weak_ordering::<T, MinComparator>(MinComparator),
        ensures
            h.wf(),
            h@ == Seq::<T>::empty(),
            h.cmp() == MinComparator,
    {
        Heap::new(MinComparator)
    }
}

/// Builds max-heaps: `new` yields an empty heap whose strategy keeps the
/// greatest element at the root.
pub struct MaxHeap;

impl MaxHeap {
    /// Create a new MaxHeap
    pub fn new<T: Ord>() -> (h: Heap<T, MaxComparator>)
        requires
            <MaxComparator as Comparator<T>>::obeys_spec(&MaxComparator),
            strict_weak_ordering::<T, MaxComparator>(MaxComparator),
        ensures
            h.wf(),
            h@ == Seq::<T>::empty(),
            h.cmp() == MaxComparator,
    {
        Heap::new(MaxComparator)
    }
}

impl<T: Ord> Heap<T, MinComparator> {
    /// Create a new MinHeap
    pub fn new_min() -> (h: Self)
        requires
            <MinComparator as Comparator<T>>::obeys_spec(&MinComparator),
            strict_weak_ordering::<T, MinComparator>(MinComparator),
        ensures
            h.wf(),
            h@ == Seq::<T>::empty(),
            h.cmp() == MinComparator,
    {
        Heap::new(MinComparator)
    }
}

impl<T: Ord> Heap<T, MaxComparator> {
    /// Create a new MaxHeap
    pub fn new_max() -> (h: Self)
        requires
            <MaxComparator as Comparator<T>>::obeys_spec(&MaxComparator),
            strict_weak_ordering::<T, MaxComparator>(MaxComparator),
        ensures
            h.wf(),
            h@ == Seq::<T>::empty(),
            h.cmp() == MaxComparator,
    {
        Heap::new(MaxComparator)
    }
}

} // verus!
