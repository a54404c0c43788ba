//! A singly linked list with a borrowing cursor over its elements.

use vstd::prelude::*;

verus! {

/// A list: a chain of nodes ending in `Nil`.
#[derive(Debug)]
pub enum List<T> {
    Node { data: T, next: Box<List<T>> },
    Nil,
}

impl<T> List<T> {
    /// The elements of the list, front first.
    pub open spec fn elems(&self) -> Seq<T>
        decreases self,
    {
        match self {
            List::Node { data, next } => seq![*data] + next.elems(),
            List::Nil => Seq::empty(),
        }
    }

    /// The empty list.
    pub fn new() -> (r: List<T>)
        ensures
            r.elems() == Seq::<T>::empty(),
    {
        List::Nil
    }

    /// Consumes the list and returns it with `data` prepended.
    pub fn cons(self, data: T) -> (r: List<T>)
        ensures
            r.elems() == seq![data] + self.elems(),
    {
        List::Node { data, next: Box::new(self) }
    }

    /// A cursor over the list's elements.
    pub fn iter<'a>(&'a self) -> (r: ListIter<'a, T>)
        ensures
            r.remaining() == self.elems(),
    {
        ListIter { elm: self }
    }
}

/// A borrowing cursor: `next` hands out each element in order.
pub struct ListIter<'a, T> {
    elm: &'a List<T>,
}

impl<'a, T> ListIter<'a, T> {
    /// The elements the cursor has not yet handed out.
    pub closed spec fn remaining(&self) -> Seq<T> {
        self.elm.elems()
    }

    /// The next element, or `None` at the end of the list.
    pub fn next(&mut self) -> (r: Option<&'a T>)
        ensures
            old(self).remaining().len() == 0 ==> r is None && final(self).remaining() == old(
                self,
            ).remaining(),
            old(self).remaining().len() > 0 ==> (r matches Some(x) && *x == old(
                self,
            ).remaining()[0]) && final(self).remaining() == old(self).remaining().drop_first(),
    {
        match self.elm {
            List::Node { data, next } => {
                self.elm = next;
                proof {
                    assert((seq![*data] + self.elm.elems()).drop_first() =~= self.elm.elems());
                }
                Some(data)
            },
            List::Nil => None,
        }
    }
}

} // verus!
