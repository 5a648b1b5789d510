//! A stack of `i32` values over a singly-linked chain of boxed nodes.
use vstd::prelude::*;

verus! {

pub struct List {
    head: Link,
}

enum Link {
    Empty,
    More(Box<Node>),
}

struct Node {
    elem: i32,
    next: Link,
}

impl Link {
    /// The values along the chain, first to last.
    spec fn values(&self) -> Seq<i32>
        decreases self,
    {
        match self {
            Link::Empty => Seq::empty(),
            Link::More(node) => seq![node.elem] + node.next.values(),
        }
    }
}

impl View for List {
    type V = Seq<i32>;

    /// The values, top of the stack first.
    closed spec fn view(&self) -> Seq<i32> {
        self.head.values()
    }
}

impl List {
    /// An empty stack.
    pub fn new() -> (r: Self)
        ensures
            r@ == Seq::<i32>::empty(),
    {
        List { head: Link::Empty }
    }

    /// Puts `elem` on top of the stack.
    pub fn push(&mut self, elem: i32)
        ensures
            final(self)@ == seq![elem] + old(self)@,
    {
        let mut next = Link::Empty;
        std::mem::swap(&mut self.head, &mut next);
        let new_node = Box::new(Node { elem, next });
        self.head = Link::More(new_node);
    }

    /// Removes and returns the top of the stack; `None` when it is empty.
    pub fn pop(&mut self) -> (r: Option<i32>)
        ensures
            old(self)@.len() == 0 ==> r is None && final(self)@ == old(self)@,
            old(self)@.len() > 0 ==> r == Some(old(self)@[0]) && final(self)@ == old(self)@.drop_first(),
    {
        let mut head = Link::Empty;
        std::mem::swap(&mut self.head, &mut head);
        match head {
            Link::Empty => None,
            Link::More(node) => {
                let Node { elem, next } = *node;
                self.head = next;
                Some(elem)
            },
        }
    }
}

} // verus!
