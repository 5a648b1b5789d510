//! A double-ended queue over a doubly-linked chain of nodes.
//!
//! The nodes live in an arena (a `Vec`) and name their neighbours by slot
//! index, so the chain is reachable from both ends without shared ownership
//! and without reference cycles. Views into an element are ordinary Rust
//! borrows: a shared view from `peek_*` excludes every mutation while it is
//! held, and a write view from `peek_*_mut` excludes every other view.
//! Dropping the deque drops the arena, which releases each node once and
//! without recursion, however long the chain.
use vstd::prelude::*;
use vstd::seq_lib::lemma_multiset_commutative;

verus! {

struct Node<T> {
    elem: T,
    prev: Option<usize>,
    next: Option<usize>,
}

impl<T> Node<T> {
    fn new(elem: T) -> (r: Node<T>)
        ensures
            r.elem == elem,
            r.prev is None,
            r.next is None,
    {
        Node { elem, prev: None, next: None }
    }
}

/// The neighbour that a chain laid out in `order` gives to position `k`,
/// `delta` positions away (`None` past either end).
spec fn neighbour(order: Seq<usize>, k: int, delta: int) -> Option<usize> {
    if 0 <= k + delta < order.len() {
        Some(order[k + delta])
    } else {
        None
    }
}

/// The slots in `order` are distinct slots of `nodes`, `head` and `tail` name
/// its two ends, and each node's links name its neighbours in `order`.
spec fn chain_ok<T>(
    nodes: Seq<Node<T>>,
    head: Option<usize>,
    tail: Option<usize>,
    order: Seq<usize>,
) -> bool {
    &&& forall|k: int| 0 <= k < order.len() ==> #[trigger] order[k] < nodes.len()
    &&& forall|k: int, l: int|
        0 <= k < order.len() && 0 <= l < order.len() && k != l ==> #[trigger] order[k]
            != #[trigger] order[l]
    &&& head == neighbour(order, 0, 0)
    &&& tail == neighbour(order, order.len() - 1, 0)
    &&& forall|k: int|
        0 <= k < order.len() ==> (#[trigger] nodes[order[k] as int]).prev == neighbour(
            order,
            k,
            -1,
        ) && nodes[order[k] as int].next == neighbour(order, k, 1)
}

/// Every slot below `n` is on the chain.
spec fn covers(order: Seq<usize>, n: nat) -> bool {
    forall|s: usize| s < n ==> #[trigger] order.contains(s)
}

/// The elements that the slots in `order` hold, in that order.
spec fn elems_of<T>(nodes: Seq<Node<T>>, order: Seq<usize>) -> Seq<T> {
    Seq::new(order.len(), |k: int| nodes[order[k] as int].elem)
}

pub struct List<T> {
    nodes: Vec<Node<T>>,
    head: Option<usize>,
    tail: Option<usize>,
    /// The arena slot of each element, front to back.
    order: Ghost<Seq<usize>>,
}

impl<T> View for List<T> {
    type V = Seq<T>;

    /// The elements, front to back.
    closed spec fn view(&self) -> Seq<T> {
        elems_of(self.nodes@, self.order@)
    }
}

impl<T> List<T> {
    /// The chain visits every slot of the arena exactly once.
    pub closed spec fn wf(&self) -> bool {
        &&& chain_ok(self.nodes@, self.head, self.tail, self.order@)
        &&& self.nodes@.len() == self.order@.len()
        &&& covers(self.order@, self.nodes@.len())
    }

    /// An empty deque.
    pub fn new() -> (r: Self)
        ensures
            r.wf(),
            r@ == Seq::<T>::empty(),
    {
        let r = List { nodes: Vec::new(), head: None, tail: None, order: Ghost(Seq::empty()) };
        assert(r@ =~= Seq::<T>::empty());
        r
    }

    /// Puts `elem` in front of the first element.
    pub fn push_front(&mut self, elem: T)
        requires
            old(self).wf(),
        ensures
            final(self).wf(),
            final(self)@ == seq![elem] + old(self)@,
    {
        let ghost old_nodes = self.nodes@;
        let ghost old_order = self.order@;
        let slot = self.nodes.len();
        let mut node = Node::new(elem);
        match self.head {
            Some(h) => {
                node.next = Some(h);
                self.nodes[h].prev = Some(slot);
                self.nodes.push(node);
                self.head = Some(slot);
            },
            None => {
                self.nodes.push(node);
                self.head = Some(slot);
                self.tail = Some(slot);
            },
        }
        self.order = Ghost(seq![slot] + old_order);
        proof {
            let order = self.order@;
            assert forall|k: int| 0 <= k < order.len() implies #[trigger] order[k]
                < self.nodes@.len() by {
                if k > 0 {
                    assert(order[k] == old_order[k - 1]);
                }
            }
            assert forall|k: int, l: int|
                0 <= k < order.len() && 0 <= l < order.len() && k != l implies #[trigger] order[k]
                != #[trigger] order[l] by {
                if k > 0 {
                    assert(order[k] == old_order[k - 1]);
                }
                if l > 0 {
                    assert(order[l] == old_order[l - 1]);
                }
            }
            assert forall|k: int| 0 <= k < order.len() implies (#[trigger] self.nodes@[order[k] as int]).prev
                == neighbour(order, k, -1) && self.nodes@[order[k] as int].next == neighbour(
                order,
                k,
                1,
            ) by {
                if k > 0 {
                    assert(order[k] == old_order[k - 1]);
                    assert(old_nodes[old_order[k - 1] as int].next == neighbour(old_order, k - 1, 1));
                    assert(old_nodes[old_order[k - 1] as int].prev == neighbour(old_order, k - 1, -1));
                }
            }
            assert forall|s: usize| s < self.nodes@.len() implies #[trigger] order.contains(s) by {
                if s < old_nodes.len() {
                    assert(old_order.contains(s));
                    let i = choose|i: int| 0 <= i < old_order.len() && old_order[i] == s;
                    assert(order[i + 1] == s);
                } else {
                    assert(order[0] == s);
                }
            }
            assert(self@ =~= seq![elem] + old(self)@);
        }
    }

    /// Puts `elem` after the last element.
    pub fn push_back(&mut self, elem: T)
        requires
            old(self).wf(),
        ensures
            final(self).wf(),
            final(self)@ == old(self)@.push(elem),
    {
        let ghost old_nodes = self.nodes@;
        let ghost old_order = self.order@;
        let slot = self.nodes.len();
        let mut node = Node::new(elem);
        match self.tail {
            Some(t) => {
                node.prev = Some(t);
                self.nodes[t].next = Some(slot);
                self.nodes.push(node);
                self.tail = Some(slot);
            },
            None => {
                self.nodes.push(node);
                self.head = Some(slot);
                self.tail = Some(slot);
            },
        }
        self.order = Ghost(old_order.push(slot));
        proof {
            let order = self.order@;
            let n = old_order.len();
            assert forall|k: int| 0 <= k < order.len() implies (#[trigger] self.nodes@[order[k] as int]).prev
                == neighbour(order, k, -1) && self.nodes@[order[k] as int].next == neighbour(
                order,
                k,
                1,
            ) by {
                if k < n {
                    assert(order[k] == old_order[k]);
                    assert(old_nodes[old_order[k] as int].next == neighbour(old_order, k, 1));
                    assert(old_nodes[old_order[k] as int].prev == neighbour(old_order, k, -1));
                }
            }
            assert forall|s: usize| s < self.nodes@.len() implies #[trigger] order.contains(s) by {
                if s < old_nodes.len() {
                    assert(old_order.contains(s));
                    let i = choose|i: int| 0 <= i < old_order.len() && old_order[i] == s;
                    assert(order[i] == s);
                } else {
                    assert(order[n as int] == s);
                }
            }
            assert(self@ =~= old(self)@.push(elem));
        }
    }

    /// Removes and returns the front element; `None` when the deque is empty.
    pub fn pop_front(&mut self) -> (r: Option<T>)
        requires
            old(self).wf(),
        ensures
            final(self).wf(),
            old(self)@.len() == 0 ==> r is None && final(self)@ == old(self)@,
            old(self)@.len() > 0 ==> r == Some(old(self)@[0]) && final(self)@ == old(self)@.drop_first(),
    {
        match self.head {
            Some(h) => {
                let elem = self.remove_at(h, Ghost(0));
                assert(self@ =~= old(self)@.drop_first());
                Some(elem)
            },
            None => None,
        }
    }

    /// Removes and returns the back element; `None` when the deque is empty.
    pub fn pop_back(&mut self) -> (r: Option<T>)
        requires
            old(self).wf(),
        ensures
            final(self).wf(),
            old(self)@.len() == 0 ==> r is None && final(self)@ == old(self)@,
            old(self)@.len() > 0 ==> r == Some(old(self)@.last()) && final(self)@ == old(self)@.drop_last(),
    {
        match self.tail {
            Some(t) => {
                let ghost k = self@.len() - 1;
                let elem = self.remove_at(t, Ghost(k));
                assert(self@ =~= old(self)@.drop_last());
                Some(elem)
            },
            None => None,
        }
    }

    /// A read view of the front element; `None` when the deque is empty.
    pub fn peek_front(&self) -> (r: Option<&T>)
        requires
            self.wf(),
        ensures
            r is None <==> self@.len() == 0,
            r matches Some(e) ==> *e == self@[0],
    {
        match self.head {
            Some(h) => Some(&self.nodes[h].elem),
            None => None,
        }
    }

    /// A read view of the back element; `None` when the deque is empty.
    pub fn peek_back(&self) -> (r: Option<&T>)
        requires
            self.wf(),
        ensures
            r is None <==> self@.len() == 0,
            r matches Some(e) ==> *e == self@.last(),
    {
        match self.tail {
            Some(t) => Some(&self.nodes[t].elem),
            None => None,
        }
    }

    /// A write view of the back element; `None` when the deque is empty.
    /// What is written through it becomes the back element.
    pub fn peek_back_mut(&mut self) -> (r: Option<&mut T>)
        requires
            old(self).wf(),
        ensures
            r is None <==> old(self)@.len() == 0,
            r is None ==> *final(self) == *old(self),
            r is Some ==> *r->0 == old(self)@.last() && final(self).wf() && final(self)@
                == old(self)@.update(old(self)@.len() - 1, *final(r->0)),
    {
        match self.tail {
            Some(t) => {
                let node = &mut self.nodes[t];
                Some(&mut node.elem)
            },
            None => None,
        }
    }

    /// A write view of the front element; `None` when the deque is empty.
    /// What is written through it becomes the front element.
    pub fn peek_front_mut(&mut self) -> (r: Option<&mut T>)
        requires
            old(self).wf(),
        ensures
            r is None <==> old(self)@.len() == 0,
            r is None ==> *final(self) == *old(self),
            r is Some ==> *r->0 == old(self)@[0] && final(self).wf() && final(self)@
                == old(self)@.update(0, *final(r->0)),
    {
        match self.head {
            Some(h) => {
                let node = &mut self.nodes[h];
                Some(&mut node.elem)
            },
            None => None,
        }
    }

    /// Turns the deque into an iterator that takes its elements out from
    /// either end.
    pub fn into_iter(self) -> (r: IntoIter<T>)
        requires
            self.wf(),
        ensures
            r.wf(),
            r@ == self@,
    {
        IntoIter(self)
    }

    /// Takes the element at position `k`, held in arena slot `slot`, out of
    /// the chain.
    fn remove_at(&mut self, slot: usize, Ghost(k): Ghost<int>) -> (r: T)
        requires
            old(self).wf(),
            0 <= k < old(self)@.len(),
            old(self).order@[k] == slot,
        ensures
            final(self).wf(),
            r == old(self)@[k],
            final(self)@ == old(self)@.remove(k),
    {
        self.unlink(slot, Ghost(k));
        assert(self@ =~= old(self)@.remove(k));
        self.release(slot)
    }

    /// Links the neighbours of position `k` (slot `slot`) to each other, so
    /// that the chain passes over that slot.
    fn unlink(&mut self, slot: usize, Ghost(k): Ghost<int>)
        requires
            old(self).wf(),
            0 <= k < old(self)@.len(),
            old(self).order@[k] == slot,
        ensures
            chain_ok(final(self).nodes@, final(self).head, final(self).tail, final(self).order@),
            final(self).order@ == old(self).order@.remove(k),
            final(self).nodes@.len() == old(self).nodes@.len(),
            forall|s: int|
                0 <= s < old(self).nodes@.len() ==> (#[trigger] final(self).nodes@[s]).elem
                    == old(self).nodes@[s].elem,
            forall|j: int| 0 <= j < final(self).order@.len() ==> #[trigger] final(self).order@[j] != slot,
            forall|s: usize|
                s < final(self).nodes@.len() && s != slot ==> #[trigger] final(self).order@.contains(s),
    {
        let ghost old_nodes = self.nodes@;
        let ghost old_order = self.order@;
        let ghost mid_order = old_order.remove(k);
        let prev = self.nodes[slot].prev;
        let next = self.nodes[slot].next;
        match prev {
            Some(p) => {
                self.nodes[p].next = next;
            },
            None => {
                self.head = next;
            },
        }
        match next {
            Some(q) => {
                self.nodes[q].prev = prev;
            },
            None => {
                self.tail = prev;
            },
        }
        self.order = Ghost(mid_order);
        proof {
            let mid_nodes = self.nodes@;
            assert forall|j: int| 0 <= j < mid_order.len() implies #[trigger] mid_order[j] != slot by {
                if j < k {
                    assert(mid_order[j] == old_order[j]);
                } else {
                    assert(mid_order[j] == old_order[j + 1]);
                }
            }
            assert forall|j: int| 0 <= j < mid_order.len() implies (#[trigger] mid_nodes[mid_order[j] as int]).prev
                == neighbour(mid_order, j, -1) && mid_nodes[mid_order[j] as int].next == neighbour(
                mid_order,
                j,
                1,
            ) by {
                let i = if j < k { j } else { j + 1 };
                assert(mid_order[j] == old_order[i]);
                assert(old_nodes[old_order[i] as int].next == neighbour(old_order, i, 1));
                assert(old_nodes[old_order[i] as int].prev == neighbour(old_order, i, -1));
                if j == k - 1 && k + 1 < old_order.len() {
                    assert(old_order[i] != old_order[k + 1]);
                }
                if j == k && k > 0 {
                    assert(old_order[i] != old_order[k - 1]);
                }
            }
            assert forall|j: int, l: int|
                0 <= j < mid_order.len() && 0 <= l < mid_order.len() && j != l implies #[trigger] mid_order[j]
                != #[trigger] mid_order[l] by {
                let i = if j < k { j } else { j + 1 };
                let m = if l < k { l } else { l + 1 };
                assert(mid_order[j] == old_order[i]);
                assert(mid_order[l] == old_order[m]);
            }
            assert forall|s: usize| s < mid_nodes.len() && s != slot implies #[trigger] mid_order.contains(s) by {
                assert(old_order.contains(s));
                let i = choose|i: int| 0 <= i < old_order.len() && old_order[i] == s;
                if i < k {
                    assert(mid_order[i] == s);
                } else {
                    assert(mid_order[i - 1] == s);
                }
            }
            assert forall|j: int| 0 <= j < mid_order.len() implies #[trigger] mid_order[j] < mid_nodes.len() by {
                let i = if j < k { j } else { j + 1 };
                assert(mid_order[j] == old_order[i]);
            }
        }
    }

    /// Frees slot `slot`, which the chain no longer visits, by moving the
    /// last slot of the arena into it; returns the element it held.
    fn release(&mut self, slot: usize) -> (r: T)
        requires
            chain_ok(old(self).nodes@, old(self).head, old(self).tail, old(self).order@),
            old(self).nodes@.len() == old(self).order@.len() + 1,
            slot < old(self).nodes@.len(),
            forall|j: int| 0 <= j < old(self).order@.len() ==> #[trigger] old(self).order@[j] != slot,
            forall|s: usize|
                s < old(self).nodes@.len() && s != slot ==> #[trigger] old(self).order@.contains(s),
        ensures
            final(self).wf(),
            r == old(self).nodes@[slot as int].elem,
            final(self)@ == old(self)@,
    {
        let ghost old_nodes = self.nodes@;
        let ghost old_order = self.order@;
        let last = self.nodes.len() - 1;
        let ghost j: int = -1;
        proof {
            if slot != last {
                assert(old_order.contains(last));
                j = choose|i: int| 0 <= i < old_order.len() && old_order[i] == last;
                assert(old_nodes[old_order[j] as int].prev == neighbour(old_order, j, -1));
                assert(old_nodes[old_order[j] as int].next == neighbour(old_order, j, 1));
            }
        }
        let node = self.nodes.swap_remove(slot);
        if slot != last {
            let moved_prev = self.nodes[slot].prev;
            let moved_next = self.nodes[slot].next;
            proof {
                if j > 0 {
                    assert(old_order[j - 1] != slot);
                    assert(old_order[j - 1] != last);
                }
                if j + 1 < old_order.len() {
                    assert(old_order[j + 1] != slot);
                    assert(old_order[j + 1] != last);
                }
            }
            match moved_prev {
                Some(p) => {
                    self.nodes[p].next = Some(slot);
                },
                None => {
                    self.head = Some(slot);
                },
            }
            match moved_next {
                Some(q) => {
                    self.nodes[q].prev = Some(slot);
                },
                None => {
                    self.tail = Some(slot);
                },
            }
        }
        let ghost order = old_order.map_values(|s: usize| if s == last { slot } else { s });
        self.order = Ghost(order);
        proof {
            let nodes = self.nodes@;
            let n = old_order.len();
            assert forall|i: int| 0 <= i < n && i != j implies #[trigger] old_order[i] != last by {
                if slot == last {
                } else {
                    assert(old_order[j] == last);
                }
            }
            assert forall|i: int| 0 <= i < n implies #[trigger] order[i] < nodes.len() by {
                if i != j {
                    assert(old_order[i] != last);
                }
            }
            assert forall|i: int, l: int|
                0 <= i < n && 0 <= l < n && i != l implies #[trigger] order[i] != #[trigger] order[l] by {
                if i != j {
                    assert(old_order[i] != last);
                }
                if l != j {
                    assert(old_order[l] != last);
                }
            }
            assert forall|i: int| 0 <= i < n implies (#[trigger] nodes[order[i] as int]).prev
                == neighbour(order, i, -1) && nodes[order[i] as int].next == neighbour(order, i, 1)
                && nodes[order[i] as int].elem == old_nodes[old_order[i] as int].elem by {
                assert(old_nodes[old_order[i] as int].prev == neighbour(old_order, i, -1));
                assert(old_nodes[old_order[i] as int].next == neighbour(old_order, i, 1));
                if i != j {
                    assert(old_order[i] != last);
                }
                if i > 0 && i - 1 != j {
                    assert(old_order[i - 1] != last);
                }
                if i + 1 < n && i + 1 != j {
                    assert(old_order[i + 1] != last);
                }
                if i > 0 {
                    assert(old_order[i - 1] != old_order[i]);
                }
                if i + 1 < n {
                    assert(old_order[i + 1] != old_order[i]);
                }
                if i > 0 && i + 1 < n {
                    assert(old_order[i + 1] != old_order[i - 1]);
                }
            }
            assert forall|s: usize| s < nodes.len() implies #[trigger] order.contains(s) by {
                if s == slot {
                    assert(order[j] == s);
                } else {
                    assert(old_order.contains(s));
                    let i = choose|i: int| 0 <= i < n && old_order[i] == s;
                    assert(order[i] == s);
                }
            }
            assert(self@ =~= old(self)@);
        }
        node.elem
    }
}

/// A consuming iterator over a deque, which it owns.
pub struct IntoIter<T>(List<T>);

impl<T> View for IntoIter<T> {
    type V = Seq<T>;

    /// The elements not yet produced, front to back.
    closed spec fn view(&self) -> Seq<T> {
        self.0@
    }
}

impl<T> IntoIter<T> {
    /// The deque it owns is well formed.
    pub closed spec fn wf(&self) -> bool {
        self.0.wf()
    }

    /// Produces the front element; `None` once the elements are exhausted.
    pub fn next(&mut self) -> (r: Option<T>)
        requires
            old(self).wf(),
        ensures
            final(self).wf(),
            old(self)@.len() == 0 ==> r is None && final(self)@ == old(self)@,
            old(self)@.len() > 0 ==> r == Some(old(self)@[0]) && final(self)@ == old(self)@.drop_first(),
    {
        self.0.pop_front()
    }

    /// Produces the back element; `None` once the elements are exhausted.
    pub fn next_back(&mut self) -> (r: Option<T>)
        requires
            old(self).wf(),
        ensures
            final(self).wf(),
            old(self)@.len() == 0 ==> r is None && final(self)@ == old(self)@,
            old(self)@.len() > 0 ==> r == Some(old(self)@.last()) && final(self)@ == old(self)@.drop_last(),
    {
        self.0.pop_back()
    }
}

/// What a run of `pop_front` (`true`) and `pop_back` (`false`) calls, one for
/// each entry of `ends`, takes out of a deque holding `s`, in the order taken.
pub open spec fn drained<T>(s: Seq<T>, ends: Seq<bool>) -> Seq<T>
    decreases ends.len(),
{
    if ends.len() == 0 || s.len() == 0 {
        Seq::empty()
    } else if ends[0] {
        seq![s[0]] + drained(s.drop_first(), ends.drop_first())
    } else {
        seq![s.last()] + drained(s.drop_last(), ends.drop_first())
    }
}

/// What a deque holding `s` holds after the calls that `ends` describes.
pub open spec fn left_after<T>(s: Seq<T>, ends: Seq<bool>) -> Seq<T>
    decreases ends.len(),
{
    if ends.len() == 0 || s.len() == 0 {
        s
    } else if ends[0] {
        left_after(s.drop_first(), ends.drop_first())
    } else {
        left_after(s.drop_last(), ends.drop_first())
    }
}

/// What an empty deque holds after `push_front` of each value of `vs`, in
/// the order of `vs`.
pub open spec fn pushed_front<T>(vs: Seq<T>) -> Seq<T>
    decreases vs.len(),
{
    if vs.len() == 0 {
        Seq::empty()
    } else {
        seq![vs.last()] + pushed_front(vs.drop_last())
    }
}

/// What an empty deque holds after `push_back` of each value of `vs`, in
/// the order of `vs`.
pub open spec fn pushed_back<T>(vs: Seq<T>) -> Seq<T>
    decreases vs.len(),
{
    if vs.len() == 0 {
        Seq::empty()
    } else {
        pushed_back(vs.drop_last()).push(vs.last())
    }
}

/// `n` calls at the same end.
pub open spec fn same_end(front: bool, n: nat) -> Seq<bool> {
    Seq::new(n, |i: int| front)
}

proof fn lemma_drained_front<T>(s: Seq<T>, n: nat)
    requires
        n == s.len(),
    ensures
        drained(s, same_end(true, n)) == s,
    decreases n,
{
    if n > 0 {
        assert(same_end(true, n).drop_first() =~= same_end(true, (n - 1) as nat));
        lemma_drained_front(s.drop_first(), (n - 1) as nat);
        assert(s =~= seq![s[0]] + s.drop_first());
    } else {
        assert(s =~= Seq::<T>::empty());
    }
}

proof fn lemma_drained_back<T>(s: Seq<T>, n: nat)
    requires
        n == s.len(),
    ensures
        drained(s, same_end(false, n)) == s.reverse(),
    decreases n,
{
    if n > 0 {
        assert(same_end(false, n).drop_first() =~= same_end(false, (n - 1) as nat));
        lemma_drained_back(s.drop_last(), (n - 1) as nat);
        assert(seq![s.last()] + s.drop_last().reverse() =~= s.reverse());
    } else {
        assert(s.reverse() =~= Seq::<T>::empty());
    }
}

proof fn lemma_pushed_front<T>(vs: Seq<T>)
    ensures
        pushed_front(vs) == vs.reverse(),
    decreases vs.len(),
{
    if vs.len() > 0 {
        lemma_pushed_front(vs.drop_last());
        assert(seq![vs.last()] + vs.drop_last().reverse() =~= vs.reverse());
    } else {
        assert(vs.reverse() =~= Seq::<T>::empty());
    }
}

proof fn lemma_pushed_back<T>(vs: Seq<T>)
    ensures
        pushed_back(vs) == vs,
    decreases vs.len(),
{
    if vs.len() > 0 {
        lemma_pushed_back(vs.drop_last());
        assert(vs.drop_last().push(vs.last()) =~= vs);
    } else {
        assert(vs =~= Seq::<T>::empty());
    }
}

/// Values pushed at one end come back out of that same end last-pushed
/// first: `push_front` of `v1..vn` then `n` calls of `pop_front` yield
/// `vn..v1`, and likewise for `push_back` and `pop_back`.
pub proof fn lemma_same_end_lifo<T>(vs: Seq<T>)
    ensures
        drained(pushed_front(vs), same_end(true, vs.len())) == vs.reverse(),
        drained(pushed_back(vs), same_end(false, vs.len())) == vs.reverse(),
{
    lemma_pushed_front(vs);
    lemma_pushed_back(vs);
    lemma_drained_front(vs.reverse(), vs.len());
    lemma_drained_back(vs, vs.len());
}

/// Draining a deque of `n` elements from either end, in any order, takes
/// out one element per call while elements are left: at least `n` calls
/// take out exactly `n` elements and leave the deque empty, so that every
/// further call finds it empty.
pub proof fn lemma_drain_length<T>(s: Seq<T>, ends: Seq<bool>)
    ensures
        drained(s, ends).len() == if ends.len() < s.len() { ends.len() } else { s.len() },
        left_after(s, ends).len() == s.len() - drained(s, ends).len(),
        ends.len() >= s.len() ==> left_after(s, ends) == Seq::<T>::empty(),
    decreases ends.len(),
{
    if ends.len() > 0 && s.len() > 0 {
        if ends[0] {
            lemma_drain_length(s.drop_first(), ends.drop_first());
        } else {
            lemma_drain_length(s.drop_last(), ends.drop_first());
        }
    } else if s.len() == 0 {
        assert(s =~= Seq::<T>::empty());
    }
}

/// Draining a deque from both ends, in any interleaving, takes out exactly
/// the elements it held, each of them once: front calls take the current
/// first element and back calls the current last one.
pub proof fn lemma_drain_exactly_once<T>(s: Seq<T>, ends: Seq<bool>)
    requires
        ends.len() >= s.len(),
    ensures
        drained(s, ends).to_multiset() == s.to_multiset(),
    decreases ends.len(),
{
    if s.len() > 0 {
        if ends[0] {
            lemma_drain_exactly_once(s.drop_first(), ends.drop_first());
            lemma_multiset_commutative(seq![s[0]], drained(s.drop_first(), ends.drop_first()));
            lemma_multiset_commutative(seq![s[0]], s.drop_first());
            assert(s =~= seq![s[0]] + s.drop_first());
        } else {
            lemma_drain_exactly_once(s.drop_last(), ends.drop_first());
            lemma_multiset_commutative(seq![s.last()], drained(s.drop_last(), ends.drop_first()));
            lemma_multiset_commutative(s.drop_last(), seq![s.last()]);
            assert(s =~= s.drop_last() + seq![s.last()]);
        }
    } else {
        assert(s =~= Seq::<T>::empty());
        assert(drained(s, ends) =~= Seq::<T>::empty());
    }
}

/// A value written through the front write view is what `pop_front` then
/// returns, and the rest of the deque is left as it was.
pub proof fn lemma_write_front_then_pop<T>(s: Seq<T>, v: T)
    requires
        s.len() > 0,
    ensures
        drained(s.update(0, v), seq![true]) == seq![v],
        left_after(s.update(0, v), seq![true]) == s.drop_first(),
{
    let t = s.update(0, v);
    assert(seq![true].drop_first() =~= Seq::<bool>::empty());
    assert(drained(t.drop_first(), Seq::<bool>::empty()) == Seq::<T>::empty());
    assert(left_after(t.drop_first(), Seq::<bool>::empty()) == t.drop_first());
    assert(s.update(0, v).drop_first() =~= s.drop_first());
    assert(seq![v] + Seq::<T>::empty() =~= seq![v]);
}

} // verus!
