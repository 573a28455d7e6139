//! A singly linked list with indexed lookup and a merge of two sorted
//! lists, specified against the sequence of stored values.

use vstd::prelude::*;
use vstd::std_specs::cmp::PartialOrdSpec;
use core::cmp::Ordering;

verus! {

struct Node<T> {
    val: T,
    next: Option<Box<Node<T>>>,
}

impl<T> Node<T> {
    fn new(t: T) -> (n: Node<T>)
        ensures
            n.val == t,
            n.next is None,
    {
        Node { val: t, next: None }
    }
}

/// The values stored in a chain of nodes, front to back.
spec fn seq_of_links<T>(n: Option<Box<Node<T>>>) -> Seq<T>
    decreases n,
{
    match n {
        None => Seq::empty(),
        Some(node) => seq![node.val] + seq_of_links(node.next),
    }
}

/// `x` goes no later than `y` in a merge: less than or equal under the
/// element order.
pub open spec fn le_spec<T: PartialOrd>(x: T, y: T) -> bool {
    x.partial_cmp_spec(&y) matches Some(Ordering::Less | Ordering::Equal)
}

/// The exact sequence a two-pointer merge of `a` and `b` produces: the
/// front of `a` goes first whenever it is less than or equal to the
/// front of `b`.
pub open spec fn merge_seqs<T: PartialOrd>(a: Seq<T>, b: Seq<T>) -> Seq<T>
    decreases a.len(), b.len(),
{
    if a.len() == 0 {
        b
    } else if b.len() == 0 {
        a
    } else if le_spec(a[0], b[0]) {
        seq![a[0]] + merge_seqs(a.drop_first(), b)
    } else {
        seq![b[0]] + merge_seqs(a, b.drop_first())
    }
}

/// A singly linked list. The public `length` field mirrors the number of
/// stored values, as `wf` records.
pub struct LinkedList<T> {
    pub length: u32,
    head: Option<Box<Node<T>>>,
}

impl<T> View for LinkedList<T> {
    type V = Seq<T>;

    closed spec fn view(&self) -> Seq<T> {
        seq_of_links(self.head)
    }
}

fn push_end<T>(rest: &mut Option<Box<Node<T>>>, obj: T)
    ensures
        seq_of_links(*final(rest)) == seq_of_links(*old(rest)).push(obj),
    decreases *old(rest),
{
    match rest.take() {
        None => {
            *rest = Some(Box::new(Node::new(obj)));
            proof {
                assert(seq_of_links(*rest) =~= seq_of_links(*old(rest)).push(obj));
            }
        },
        Some(mut node) => {
            let ghost prefix = node.val;
            push_end(&mut node.next, obj);
            let ghost tail = seq_of_links(node.next);
            *rest = Some(node);
            proof {
                assert(seq_of_links(*rest) == seq![prefix] + tail);
                assert(seq_of_links(*rest) =~= seq_of_links(*old(rest)).push(obj));
            }
        },
    }
}

fn get_ith_node<'a, T>(node: &'a Option<Box<Node<T>>>, index: i32) -> (r: Option<&'a T>)
    ensures
        match r {
            Some(v) => 0 <= index < seq_of_links(*node).len() && *v == seq_of_links(
                *node,
            )[index as int],
            None => !(0 <= index < seq_of_links(*node).len()),
        },
    decreases *node,
{
    match node {
        None => None,
        Some(next_ptr) => {
            if index == 0 {
                Some(&next_ptr.val)
            } else if index < 0 {
                None
            } else {
                let r = get_ith_node(&next_ptr.next, index - 1);
                proof {
                    assert(seq_of_links(*node) == seq![next_ptr.val] + seq_of_links(next_ptr.next));
                }
                r
            }
        },
    }
}

fn merge_links<T: PartialOrd>(a: Option<Box<Node<T>>>, b: Option<Box<Node<T>>>) -> (r: Option<
    Box<Node<T>>,
>)
    requires
        T::obeys_partial_cmp_spec(),
    ensures
        seq_of_links(r) == merge_seqs(seq_of_links(a), seq_of_links(b)),
    decreases a, b,
{
    match a {
        None => {
            proof {
                assert(seq_of_links::<T>(None) =~= Seq::<T>::empty());
            }
            b
        },
        Some(na) => match b {
            None => {
                proof {
                    assert(seq_of_links::<T>(None) =~= Seq::<T>::empty());
                    assert(seq_of_links(Some(na)).len() > 0);
                }
                Some(na)
            },
            Some(nb) => {
                let ghost sa = seq_of_links(Some(na));
                let ghost sb = seq_of_links(Some(nb));
                proof {
                    assert(sa == seq![na.val] + seq_of_links(na.next));
                    assert(sb == seq![nb.val] + seq_of_links(nb.next));
                    assert(sa[0] == na.val && sb[0] == nb.val);
                    assert(sa.drop_first() =~= seq_of_links(na.next));
                    assert(sb.drop_first() =~= seq_of_links(nb.next));
                }
                if na.val.le(&nb.val) {
                    let Node { val, next } = *na;
                    let tail = merge_links(next, Some(nb));
                    let r = Some(Box::new(Node { val, next: tail }));
                    proof {
                        assert(seq_of_links(r) =~= merge_seqs(sa, sb));
                    }
                    r
                } else {
                    let Node { val, next } = *nb;
                    let tail = merge_links(Some(na), next);
                    let r = Some(Box::new(Node { val, next: tail }));
                    proof {
                        assert(seq_of_links(r) =~= merge_seqs(sa, sb));
                    }
                    r
                }
            },
        },
    }
}

impl<T> LinkedList<T> {
    /// The `length` field counts exactly the stored values.
    pub closed spec fn wf(&self) -> bool {
        self.length == self@.len()
    }


    /// An empty list.
    pub fn new() -> (l: Self)
        ensures
            l.wf(),
            l@ == Seq::<T>::empty(),
    {
        let l = LinkedList { length: 0, head: None };
        proof {
            assert(l@ =~= Seq::<T>::empty());
        }
        l
    }

    /// Appends `obj` at the back of the list.
    pub fn add(&mut self, obj: T)
        requires
            old(self).wf(),
            old(self)@.len() < u32::MAX,
        ensures
            final(self).wf(),
            final(self)@ == old(self)@.push(obj),
    {
        push_end(&mut self.head, obj);
        self.length = self.length + 1;
    }

    /// The value at position `index`, counted from zero; absence when the
    /// index is negative or runs past the end.
    pub fn get(&mut self, index: i32) -> (r: Option<&T>)
        ensures
            *final(self) == *old(self),
            match r {
                Some(v) => 0 <= index < old(self)@.len() && *v == old(self)@[index as int],
                None => !(0 <= index < old(self)@.len()),
            },
    {
        get_ith_node(&self.head, index)
    }

    /// Merges two lists, consuming both: whenever both fronts are live,
    /// the smaller (or equal) front of `list_a` goes first. On sorted
    /// inputs this is the classic two-pointer merge of sorted lists.
    pub fn merge(list_a: LinkedList<T>, list_b: LinkedList<T>) -> (r: Self) where
        T: Clone + PartialOrd,

        requires
            T::obeys_partial_cmp_spec(),
            list_a.wf(),
            list_b.wf(),
            list_a@.len() + list_b@.len() <= u32::MAX,
        ensures
            r.wf(),
            r@ == merge_seqs(list_a@, list_b@),
    {
        proof {
            lemma_merge_seqs_len(list_a@, list_b@);
        }
        let length = list_a.length + list_b.length;
        let head = merge_links(list_a.head, list_b.head);
        LinkedList { length, head }
    }
}

/// A merge is exactly as long as its two inputs together.
proof fn lemma_merge_seqs_len<T: PartialOrd>(a: Seq<T>, b: Seq<T>)
    ensures
        merge_seqs(a, b).len() == a.len() + b.len(),
    decreases a.len(), b.len(),
{
    if a.len() == 0 {
    } else if b.len() == 0 {
    } else if le_spec(a[0], b[0]) {
        lemma_merge_seqs_len(a.drop_first(), b);
    } else {
        lemma_merge_seqs_len(a, b.drop_first());
    }
}

impl<T> Default for LinkedList<T> {
    /// An empty list, as `new` builds it.
    fn default() -> (l: Self)
        ensures
            l.wf(),
            l@ == Seq::<T>::empty(),
    {
        Self::new()
    }
}

} // verus!
