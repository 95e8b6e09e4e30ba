use vstd::prelude::*;
use std::rc::Rc;

verus! {

/// An immutable stack whose versions share their tails.
pub struct List<T> {
    head: Link<T>,
}

type Link<T> = Option<Rc<Node<T>>>;

struct Node<T> {
    value: T,
    next: Link<T>,
}

/// The values from `link` on, top first.
spec fn values<T>(link: Link<T>) -> Seq<T>
    decreases link,
{
    match link {
        None => Seq::empty(),
        Some(node) => seq![node.value] + values(node.next),
    }
}

/// Relies on `Rc::clone`: a second pointer to the same node.
#[verifier::external_body]
fn share<T>(node: &Rc<Node<T>>) -> (r: Rc<Node<T>>)
    ensures
        *r == **node,
{
    Rc::clone(node)
}

/// Another handle on the same chain of nodes.
fn share_link<T>(link: &Link<T>) -> (r: Link<T>)
    ensures
        values(r) == values(*link),
{
    match link {
        None => None,
        Some(node) => Some(share(node)),
    }
}

impl<T> View for List<T> {
    type V = Seq<T>;

    closed spec fn view(&self) -> Seq<T> {
        values(self.head)
    }
}

impl<T> List<T> {
    /// An empty stack.
    pub fn new() -> (r: List<T>)
        ensures
            r@ == Seq::<T>::empty(),
    {
        List { head: None }
    }

    /// The top value, if there is one.
    pub fn head(&self) -> (r: Option<&T>)
        ensures
            self@.len() == 0 ==> r is None,
            self@.len() > 0 ==> r == Some(&self@[0]),
    {
        match &self.head {
            None => None,
            Some(node) => Some(&node.value),
        }
    }

    /// A new stack with `value` on top of this one, which stays as it was.
    pub fn append(&self, value: T) -> (r: List<T>)
        ensures
            r@ == seq![value] + self@,
    {
        let next = share_link(&self.head);
        List { head: Some(Rc::new(Node { value, next })) }
    }

    /// The stack below the top value; empty when this one is.
    pub fn tail(&self) -> (r: List<T>)
        ensures
            self@.len() == 0 ==> r@ == self@,
            self@.len() > 0 ==> r@ == self@.drop_first(),
    {
        match &self.head {
            None => List { head: None },
            Some(node) => {
                let r = List { head: share_link(&node.next) };
                proof {
                    assert(self@.drop_first() =~= r@);
                }
                r
            },
        }
    }

    /// Walks the values from the top down.
    pub fn iter(&self) -> (r: Iter<'_, T>)
        ensures
            r.remaining() == self@,
    {
        match &self.head {
            None => Iter { current: None },
            Some(node) => Iter { current: Some(&**node) },
        }
    }
}

/// Walks a persistent stack from the top down.
pub struct Iter<'a, T> {
    current: Option<&'a Node<T>>,
}

impl<'a, T> Iter<'a, T> {
    /// The values still to come.
    pub closed spec fn remaining(&self) -> Seq<T> {
        match self.current {
            None => Seq::empty(),
            Some(node) => seq![node.value] + values(node.next),
        }
    }

    /// The next value, if any is left.
    pub fn next(&mut self) -> (r: Option<&'a T>)
        ensures
            old(self).remaining().len() == 0 ==> r is None && final(self).remaining() == old(self).remaining(),
            old(self).remaining().len() > 0 ==> r == Some(&old(self).remaining()[0])
                && final(self).remaining() == old(self).remaining().drop_first(),
    {
        match self.current {
            None => None,
            Some(node) => {
                self.current = match &node.next {
                    None => None,
                    Some(next) => Some(&**next),
                };
                proof {
                    assert(old(self).remaining().drop_first() =~= self.remaining());
                }
                Some(&node.value)
            },
        }
    }
}

} // verus!
