//! A persistent singly-linked list: `prepend` and `tail` build new lists that
//! share their nodes with the list they came from, which stays as it was.
use std::rc::Rc;
use vstd::prelude::*;

verus! {

pub struct List<T> {
    head: Option<Rc<Node<T>>>,
}

struct Node<T> {
    elem: T,
    next: Option<Rc<Node<T>>>,
}

/// The elements along a chain starting at `link`, first to last.
spec fn link_elems<T>(link: Option<Rc<Node<T>>>) -> Seq<T>
    decreases link,
{
    match link {
        None => Seq::empty(),
        Some(node) => seq![node.elem] + link_elems(node.next),
    }
}

/// The elements along a chain starting at `node`, first to last.
spec fn node_elems<T>(node: Option<&Node<T>>) -> Seq<T> {
    match node {
        None => Seq::empty(),
        Some(n) => seq![n.elem] + link_elems(n.next),
    }
}

/// A second handle on the chain that `link` starts.
fn share<T>(link: &Option<Rc<Node<T>>>) -> (r: Option<Rc<Node<T>>>)
    ensures
        link_elems(r) == link_elems(*link),
{
    match link {
        Some(node) => Some(Rc::clone(node)),
        None => None,
    }
}

fn first_node<T>(link: &Option<Rc<Node<T>>>) -> (r: Option<&Node<T>>)
    ensures
        node_elems(r) == link_elems(*link),
{
    match link {
        Some(node) => Some(&**node),
        None => None,
    }
}

impl<T> View for List<T> {
    type V = Seq<T>;

    /// The elements, first to last.
    closed spec fn view(&self) -> Seq<T> {
        link_elems(self.head)
    }
}

impl<T> List<T> {
    /// An empty list.
    pub fn new() -> (r: Self)
        ensures
            r@ == Seq::<T>::empty(),
    {
        List { head: None }
    }

    /// A list with `elem` in front of the elements of this one, which it
    /// shares.
    pub fn prepend(&self, elem: T) -> (r: List<T>)
        ensures
            r@ == seq![elem] + self@,
    {
        List { head: Some(Rc::new(Node { elem, next: share(&self.head) })) }
    }

    /// The list without its first element (empty when this one is empty),
    /// sharing the rest.
    pub fn tail(&self) -> (r: List<T>)
        ensures
            self@.len() == 0 ==> r@ == Seq::<T>::empty(),
            self@.len() > 0 ==> r@ == self@.drop_first(),
    {
        match &self.head {
            Some(node) => List { head: share(&node.next) },
            None => List { head: None },
        }
    }

    /// The first element; `None` when the list is empty.
    pub fn head(&self) -> (r: Option<&T>)
        ensures
            r is None <==> self@.len() == 0,
            r matches Some(e) ==> *e == self@[0],
    {
        match &self.head {
            Some(node) => Some(&node.elem),
            None => None,
        }
    }

    /// An iterator over shared views of the elements, first to last.
    pub fn iter(&self) -> (r: Iter<'_, T>)
        ensures
            r@ == self@,
    {
        Iter { next: first_node(&self.head) }
    }
}

/// An iterator over shared views of the elements of a list.
pub struct Iter<'a, T> {
    next: Option<&'a Node<T>>,
}

impl<'a, T> View for Iter<'a, T> {
    type V = Seq<T>;

    /// The elements not yet produced, in the order they come.
    closed spec fn view(&self) -> Seq<T> {
        node_elems(self.next)
    }
}

impl<'a, T> Iter<'a, T> {
    /// Produces a view of the next element; `None` once they are exhausted.
    pub fn next(&mut self) -> (r: Option<&'a T>)
        ensures
            old(self)@.len() == 0 ==> r is None && final(self)@ == old(self)@,
            old(self)@.len() > 0 ==> r is Some && *r->0 == old(self)@[0] && final(self)@
                == old(self)@.drop_first(),
    {
        match self.next {
            Some(node) => {
                self.next = first_node(&node.next);
                Some(&node.elem)
            },
            None => None,
        }
    }
}

} // verus!
