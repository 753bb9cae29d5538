use vstd::prelude::*;
use std::collections::VecDeque;

verus! {

/// A bounded history with undo and redo.
///
/// Saving 1, 2, 3, 4, 5 then undoing twice gives back 5 then 4, and redoing
/// twice gives back 4 then 5: the undo queue holds [1, 2, 3] and the redo
/// stack [5, 4] in between.
pub struct UndoBuffer<T: Clone> {
    pub capacity: usize,
    pub undo_queue: VecDeque<T>,
    pub redo_stack: Vec<T>,
}

impl<T: Clone> UndoBuffer<T> {
    pub fn new(cap: usize) -> (r: UndoBuffer<T>)
        ensures
            r.capacity == cap,
            r.undo_queue@.len() == 0,
            r.redo_stack@.len() == 0,
    {
        UndoBuffer { capacity: cap, undo_queue: VecDeque::new(), redo_stack: Vec::new() }
    }

    /// Records `x` as the latest change: the redo stack is emptied and only the
    /// `capacity` latest changes are kept.
    pub fn save(&mut self, x: T)
        ensures
            final(self).capacity == old(self).capacity,
            final(self).redo_stack@.len() == 0,
            ({
                let q = old(self).undo_queue@.push(x);
                final(self).undo_queue@ == if q.len() > old(self).capacity {
                    q.subrange(q.len() - old(self).capacity, q.len() as int)
                } else {
                    q
                }
            }),
    {
        self.redo_stack.clear();
        self.undo_queue.push_back(x);
        let ghost q = self.undo_queue@;
        while self.undo_queue.len() > self.capacity
            invariant
                self.capacity == old(self).capacity,
                self.redo_stack@.len() == 0,
                self.undo_queue@.len() >= self.capacity ==> self.undo_queue@ == q.subrange(
                    q.len() - self.undo_queue@.len(),
                    q.len() as int,
                ),
                self.undo_queue@.len() <= q.len(),
                q.len() <= self.capacity ==> self.undo_queue@ == q,
                q.len() > self.capacity ==> self.undo_queue@.len() >= self.capacity,
            decreases self.undo_queue@.len(),
        {
            let ghost before = self.undo_queue@;
            self.undo_queue.pop_front();
            assert(self.undo_queue@ == q.subrange(q.len() - self.undo_queue@.len(), q.len() as int));
        }
        proof {
            if q.len() > self.capacity {
                assert(self.undo_queue@.len() == self.capacity);
            } else {
                assert(q.subrange(0, q.len() as int) == q);
            }
        }
    }

    /// The latest change, if any.
    pub fn peek(&self) -> (r: Option<&T>)
        ensures
            r == (if self.undo_queue@.len() > 0 {
                Some(&self.undo_queue@.last())
            } else {
                None
            }),
    {
        let n = self.undo_queue.len();
        if n == 0 {
            None
        } else {
            Some(&self.undo_queue[n - 1])
        }
    }

    /// Takes back the latest change, which moves to the redo stack.
    pub fn pop_undo(&mut self) -> (r: Option<T>)
        ensures
            final(self).capacity == old(self).capacity,
            old(self).undo_queue@.len() == 0 ==> r is None && final(self).undo_queue@ == old(self).undo_queue@
                && final(self).redo_stack@ == old(self).redo_stack@,
            old(self).undo_queue@.len() > 0 ==> {
                &&& r == Some(old(self).undo_queue@.last())
                &&& final(self).undo_queue@ == old(self).undo_queue@.drop_last()
                &&& final(self).redo_stack@.len() == old(self).redo_stack@.len() + 1
                &&& final(self).redo_stack@.drop_last() == old(self).redo_stack@
                &&& cloned(old(self).undo_queue@.last(), final(self).redo_stack@.last())
            },
    {
        let x0 = self.undo_queue.pop_back();
        match &x0 {
            Some(x) => {
                let c = x.clone();
                self.redo_stack.push(c);
            },
            None => {},
        }
        x0
    }

    /// Takes back the latest undone change, which moves to the undo queue.
    pub fn pop_redo(&mut self) -> (r: Option<T>)
        ensures
            final(self).capacity == old(self).capacity,
            old(self).redo_stack@.len() == 0 ==> r is None && final(self).undo_queue@ == old(self).undo_queue@
                && final(self).redo_stack@ == old(self).redo_stack@,
            old(self).redo_stack@.len() > 0 ==> {
                &&& r == Some(old(self).redo_stack@.last())
                &&& final(self).redo_stack@ == old(self).redo_stack@.drop_last()
                &&& final(self).undo_queue@.len() == old(self).undo_queue@.len() + 1
                &&& final(self).undo_queue@.drop_last() == old(self).undo_queue@
                &&& cloned(old(self).redo_stack@.last(), final(self).undo_queue@.last())
            },
    {
        let x0 = self.redo_stack.pop();
        match &x0 {
            Some(x) => {
                let c = x.clone();
                self.undo_queue.push_back(c);
            },
            None => {},
        }
        x0
    }
}

} // verus!
