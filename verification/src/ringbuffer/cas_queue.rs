//! A queue in which items come out in the order in which they went in.
use std::collections::VecDeque;
use vstd::prelude::*;

verus! {

pub struct LockFreeQueue<T> {
    items: VecDeque<T>,
}

impl<T> View for LockFreeQueue<T> {
    type V = Seq<T>;

    closed spec fn view(&self) -> Seq<T> {
        self.items@
    }
}

impl<T> LockFreeQueue<T> {
    pub fn new() -> (q: Self)
        ensures
            q@ == Seq::<T>::empty(),
    {
        LockFreeQueue { items: VecDeque::new() }
    }

    /// Puts an item at the end.
    pub fn enqueue(&mut self, val: T)
        ensures
            final(self)@ == old(self)@.push(val),
    {
        self.items.push_back(val);
    }

    /// Takes the item at the front, if there is one.
    pub fn dequeue(&mut self) -> (r: Option<T>)
        ensures
            old(self)@.len() == 0 ==> r is None && final(self)@ == old(self)@,
            old(self)@.len() > 0 ==> r == Some(old(self)@[0]) && final(self)@
                == old(self)@.drop_first(),
    {
        let r = self.items.pop_front();
        assert(old(self)@.len() > 0 ==> old(self)@.subrange(1, old(self)@.len() as int)
            =~= old(self)@.drop_first());
        r
    }

    pub fn is_empty(&self) -> (b: bool)
        ensures
            b == (self@.len() == 0),
    {
        self.items.len() == 0
    }
}

} // verus!
