use vstd::prelude::*;

verus! {

/// A stack kept as a singly linked list that owns its nodes.
pub struct List<T> {
    head: Option<Box<Node<T>>>,
}

struct Node<T> {
    value: T,
    next: Option<Box<Node<T>>>,
}

/// The values from `link` on, top first.
spec fn values<T>(link: Option<Box<Node<T>>>) -> Seq<T>
    decreases link,
{
    match link {
        None => Seq::empty(),
        Some(node) => seq![node.value] + values(node.next),
    }
}

impl<T> View for List<T> {
    type V = Seq<T>;

    closed spec fn view(&self) -> Seq<T> {
        values(self.head)
    }
}

impl<T> List<T> {
    /// An empty stack.
    pub fn new() -> (r: List<T>)
        ensures
            r@ == Seq::<T>::empty(),
    {
        List { head: None }
    }

    /// Puts `value` on top.
    pub fn push(&mut self, value: T)
        ensures
            final(self)@ == seq![value] + old(self)@,
    {
        let old_head = self.head.take();
        self.head = Some(Box::new(Node { value, next: old_head }));
    }

    /// Takes the top value off, if there is one.
    pub fn pop(&mut self) -> (r: Option<T>)
        ensures
            old(self)@.len() == 0 ==> r is None && final(self)@ == old(self)@,
            old(self)@.len() > 0 ==> r == Some(old(self)@[0]) && final(self)@ == old(self)@.drop_first(),
    {
        match self.head.take() {
            None => None,
            Some(node) => {
                let node = *node;
                self.head = node.next;
                proof {
                    assert(old(self)@.drop_first() =~= self@);
                }
                Some(node.value)
            },
        }
    }

    /// The top value, if there is one.
    pub fn peek(&self) -> (r: Option<&T>)
        ensures
            self@.len() == 0 ==> r is None,
            self@.len() > 0 ==> r == Some(&self@[0]),
    {
        match &self.head {
            None => None,
            Some(node) => Some(&node.value),
        }
    }

    /// The top value, if there is one, to be changed in place.
    pub fn peek_mut(&mut self) -> (r: Option<&mut T>)
        ensures
            old(self)@.len() == 0 ==> r is None && final(self)@ == old(self)@,
            old(self)@.len() > 0 ==> (r matches Some(x) && *x == old(self)@[0] && final(self)@ == old(
                self,
            )@.update(0, *final(x))),
    {
        match &mut self.head {
            None => None,
            Some(node) => Some(&mut node.value),
        }
    }

    /// Walks the values from the top down without taking them.
    pub fn iter(&self) -> (r: Iter<'_, T>)
        ensures
            r.remaining() == self@,
    {
        match &self.head {
            None => Iter { current: None },
            Some(node) => Iter { current: Some(&**node) },
        }
    }

    /// Walks the values from the top down, each to be changed in place.
    pub fn iter_mut(&mut self) -> (r: IterMut<'_, T>)
        ensures
            r.remaining() == old(self)@,
    {
        match &mut self.head {
            None => IterMut { current: None },
            Some(node) => IterMut { current: Some(&mut **node) },
        }
    }

    /// Turns the stack into a walk that hands out its values from the top down.
    pub fn into_iter(self) -> (r: IntoIter<T>)
        ensures
            r.remaining() == self@,
    {
        IntoIter { list: self }
    }
}

impl<T> Drop for List<T> {
    /// Frees the nodes one at a time, so that a long stack does not exhaust the call stack.
    fn drop(&mut self)
        opens_invariants none
        no_unwind
    {
        let mut link: Option<Box<Node<T>>> = None;
        core::mem::swap(&mut self.head, &mut link);
        loop
            decreases values(link).len(),
        {
            match link {
                None => {
                    break;
                },
                Some(boxed) => {
                    let mut node = *boxed;
                    let mut rest: Option<Box<Node<T>>> = None;
                    core::mem::swap(&mut node.next, &mut rest);
                    link = rest;
                },
            }
        }
    }
}

/// Walks a stack from the top down by reference.
pub struct Iter<'a, T> {
    current: Option<&'a Node<T>>,
}

impl<'a, T> Iter<'a, T> {
    /// The values still to come.
    pub closed spec fn remaining(&self) -> Seq<T> {
        match self.current {
            None => Seq::empty(),
            Some(node) => seq![node.value] + values(node.next),
        }
    }

    /// The next value, if any is left.
    pub fn next(&mut self) -> (r: Option<&'a T>)
        ensures
            old(self).remaining().len() == 0 ==> r is None && final(self).remaining() == old(self).remaining(),
            old(self).remaining().len() > 0 ==> r == Some(&old(self).remaining()[0])
                && final(self).remaining() == old(self).remaining().drop_first(),
    {
        match self.current {
            None => None,
            Some(node) => {
                self.current = match &node.next {
                    None => None,
                    Some(next) => Some(&**next),
                };
                proof {
                    assert(old(self).remaining().drop_first() =~= self.remaining());
                }
                Some(&node.value)
            },
        }
    }
}

/// Walks a stack from the top down, handing out each value to be changed in place.
pub struct IterMut<'a, T> {
    current: Option<&'a mut Node<T>>,
}

impl<'a, T> IterMut<'a, T> {
    /// The values still to come.
    pub closed spec fn remaining(&self) -> Seq<T> {
        match self.current {
            None => Seq::empty(),
            Some(node) => seq![node.value] + values(node.next),
        }
    }

    /// The next value, if any is left.
    pub fn next(&mut self) -> (r: Option<&'a mut T>)
        ensures
            old(self).remaining().len() == 0 ==> r is None,
            old(self).remaining().len() > 0 ==> (r matches Some(x) && *x == old(self).remaining()[0]
                && final(self).remaining() == old(self).remaining().drop_first()),
    {
        match self.current.take() {
            None => None,
            Some(node) => {
                self.current = match &mut node.next {
                    None => None,
                    Some(next) => Some(&mut **next),
                };
                Some(&mut node.value)
            },
        }
    }
}

/// Hands out the values of a stack from the top down, by value.
pub struct IntoIter<T> {
    list: List<T>,
}

impl<T> IntoIter<T> {
    /// The values still to come.
    pub closed spec fn remaining(&self) -> Seq<T> {
        self.list@
    }

    /// The next value, if any is left.
    pub fn next(&mut self) -> (r: Option<T>)
        ensures
            old(self).remaining().len() == 0 ==> r is None && final(self).remaining() == old(self).remaining(),
            old(self).remaining().len() > 0 ==> r == Some(old(self).remaining()[0])
                && final(self).remaining() == old(self).remaining().drop_first(),
    {
        self.list.pop()
    }
}

} // verus!
