//! A generic stack over a singly-linked chain of boxed nodes, with a
//! consuming iterator and iterators that borrow its elements.
use vstd::prelude::*;

verus! {

pub struct List<T> {
    head: Option<Box<Node<T>>>,
}

struct Node<T> {
    elem: T,
    next: Option<Box<Node<T>>>,
}

/// The elements along a chain starting at `link`, first to last.
spec fn link_elems<T>(link: Option<Box<Node<T>>>) -> Seq<T>
    decreases link,
{
    match link {
        None => Seq::empty(),
        Some(node) => seq![node.elem] + link_elems(node.next),
    }
}

/// The elements along a chain starting at `node`, first to last.
spec fn node_elems<T>(node: Option<&Node<T>>) -> Seq<T> {
    match node {
        None => Seq::empty(),
        Some(n) => seq![n.elem] + link_elems(n.next),
    }
}

fn first_node<T>(link: &Option<Box<Node<T>>>) -> (r: Option<&Node<T>>)
    ensures
        node_elems(r) == link_elems(*link),
{
    match link {
        Some(b) => Some(&**b),
        None => None,
    }
}

fn first_node_mut<T>(link: &mut Option<Box<Node<T>>>) -> (r: Option<&mut Node<T>>)
    ensures
        r is None <==> *old(link) is None,
        r is None ==> *final(link) == *old(link),
        r is Some ==> *r->0 == *((*old(link))->0) && *final(link) is Some && *((*final(link))->0)
            == *final(r->0),
{
    match link {
        Some(b) => Some(&mut **b),
        None => None,
    }
}

impl<T> View for List<T> {
    type V = Seq<T>;

    /// The elements, top of the stack first.
    closed spec fn view(&self) -> Seq<T> {
        link_elems(self.head)
    }
}

impl<T> List<T> {
    /// An empty stack.
    pub fn new() -> (r: Self)
        ensures
            r@ == Seq::<T>::empty(),
    {
        List { head: None }
    }

    /// Puts `elem` on top of the stack.
    pub fn push(&mut self, elem: T)
        ensures
            final(self)@ == seq![elem] + old(self)@,
    {
        let new_node = Box::new(Node { elem, next: self.head.take() });
        self.head = Some(new_node);
    }

    /// Removes and returns the top of the stack; `None` when it is empty.
    pub fn pop(&mut self) -> (r: Option<T>)
        ensures
            old(self)@.len() == 0 ==> r is None && final(self)@ == old(self)@,
            old(self)@.len() > 0 ==> r == Some(old(self)@[0]) && final(self)@ == old(self)@.drop_first(),
    {
        match self.head.take() {
            Some(node) => {
                let Node { elem, next } = *node;
                self.head = next;
                Some(elem)
            },
            None => None,
        }
    }

    /// The top of the stack; `None` when it is empty.
    pub fn peek(&self) -> (r: Option<&T>)
        ensures
            r is None <==> self@.len() == 0,
            r matches Some(e) ==> *e == self@[0],
    {
        match &self.head {
            Some(node) => Some(&node.elem),
            None => None,
        }
    }

    /// A write view of the top of the stack; `None` when it is empty.
    pub fn peek_mut(&mut self) -> (r: Option<&mut T>)
        ensures
            r is None <==> old(self)@.len() == 0,
            r is None ==> final(self)@ == old(self)@,
            r is Some ==> *r->0 == old(self)@[0] && final(self)@ == old(self)@.update(0, *final(r->0)),
    {
        match &mut self.head {
            Some(node) => Some(&mut node.elem),
            None => None,
        }
    }

    /// Turns the stack into an iterator that pops its elements.
    pub fn into_iter(self) -> (r: IntoIter<T>)
        ensures
            r@ == self@,
    {
        IntoIter(self)
    }

    /// An iterator over shared views of the elements, top first.
    pub fn iter(&self) -> (r: Iter<'_, T>)
        ensures
            r@ == self@,
    {
        Iter { next: first_node(&self.head) }
    }

    /// An iterator over write views of the elements, top first.
    pub fn iter_mut(&mut self) -> (r: IterMut<'_, T>)
        ensures
            r@ == old(self)@,
    {
        IterMut { next: first_node_mut(&mut self.head) }
    }
}

/// A consuming iterator over a stack, which it owns.
pub struct IntoIter<T>(List<T>);

impl<T> View for IntoIter<T> {
    type V = Seq<T>;

    /// The elements not yet produced, in the order they come.
    closed spec fn view(&self) -> Seq<T> {
        self.0@
    }
}

impl<T> IntoIter<T> {
    /// Produces the next element; `None` once they are exhausted.
    pub fn next(&mut self) -> (r: Option<T>)
        ensures
            old(self)@.len() == 0 ==> r is None && final(self)@ == old(self)@,
            old(self)@.len() > 0 ==> r == Some(old(self)@[0]) && final(self)@ == old(self)@.drop_first(),
    {
        self.0.pop()
    }
}

/// An iterator over shared views of the elements of a stack.
pub struct Iter<'a, T> {
    next: Option<&'a Node<T>>,
}

impl<'a, T> View for Iter<'a, T> {
    type V = Seq<T>;

    /// The elements not yet produced, in the order they come.
    closed spec fn view(&self) -> Seq<T> {
        node_elems(self.next)
    }
}

impl<'a, T> Iter<'a, T> {
    /// Produces a view of the next element; `None` once they are exhausted.
    pub fn next(&mut self) -> (r: Option<&'a T>)
        ensures
            old(self)@.len() == 0 ==> r is None && final(self)@ == old(self)@,
            old(self)@.len() > 0 ==> r is Some && *r->0 == old(self)@[0] && final(self)@
                == old(self)@.drop_first(),
    {
        match self.next {
            Some(node) => {
                self.next = first_node(&node.next);
                Some(&node.elem)
            },
            None => None,
        }
    }
}

/// An iterator over write views of the elements of a stack.
pub struct IterMut<'a, T> {
    next: Option<&'a mut Node<T>>,
}

impl<'a, T> View for IterMut<'a, T> {
    type V = Seq<T>;

    /// The elements not yet produced, in the order they come.
    closed spec fn view(&self) -> Seq<T> {
        match self.next {
            None => Seq::empty(),
            Some(n) => seq![n.elem] + link_elems(n.next),
        }
    }
}

impl<'a, T> IterMut<'a, T> {
    /// Produces a write view of the next element; `None` once they are
    /// exhausted.
    pub fn next(&mut self) -> (r: Option<&'a mut T>)
        ensures
            old(self)@.len() == 0 ==> r is None && final(self)@ == old(self)@,
            old(self)@.len() > 0 ==> r is Some && *r->0 == old(self)@[0] && final(self)@
                == old(self)@.drop_first(),
    {
        match self.next.take() {
            Some(node) => {
                let Node { elem, next } = node;
                self.next = first_node_mut(next);
                Some(elem)
            },
            None => None,
        }
    }
}

} // verus!
