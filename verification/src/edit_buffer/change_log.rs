use vstd::prelude::*;
use crate::read_buffer::{BufElem, Cursor};
use super::undo_buffer::UndoBuffer;

verus! {

/// A copy of the elements.
pub fn copy_elems(v: &[BufElem]) -> (r: Vec<BufElem>)
    ensures
        r@ == v@,
{
    let mut r: Vec<BufElem> = Vec::new();
    let mut i: usize = 0;
    while i < v.len()
        invariant
            i <= v@.len(),
            r@ == v@.take(i as int),
        decreases v@.len() - i,
    {
        r.push(v[i]);
        i = i + 1;
        assert(r@ == v@.take(i as int));
    }
    assert(v@.take(v@.len() as int) == v@);
    r
}

/// A copy of the characters.
pub fn copy_chars(v: &[char]) -> (r: Vec<char>)
    ensures
        r@ == v@,
{
    let mut r: Vec<char> = Vec::new();
    let mut i: usize = 0;
    while i < v.len()
        invariant
            i <= v@.len(),
            r@ == v@.take(i as int),
        decreases v@.len() - i,
    {
        r.push(v[i]);
        i = i + 1;
        assert(r@ == v@.take(i as int));
    }
    assert(v@.take(v@.len() as int) == v@);
    r
}

/// One edit of a buffer: at `at`, `deleted` was taken out and `inserted` put in.
pub struct ChangeLog {
    pub at: Cursor,
    pub deleted: Vec<BufElem>,
    pub inserted: Vec<BufElem>,
}

/// A change log as a value: where, what was deleted, what was inserted.
pub struct LogView {
    pub at: Cursor,
    pub deleted: Seq<BufElem>,
    pub inserted: Seq<BufElem>,
}

impl View for ChangeLog {
    type V = LogView;

    open spec fn view(&self) -> LogView {
        LogView { at: self.at, deleted: self.deleted@, inserted: self.inserted@ }
    }
}

impl Clone for ChangeLog {
    fn clone(&self) -> (r: Self)
        ensures
            r@ == self@,
    {
        ChangeLog { at: self.at, deleted: copy_elems(&self.deleted), inserted: copy_elems(&self.inserted) }
    }
}

impl ChangeLog {
    pub fn new(at: Cursor, deleted: Vec<BufElem>, inserted: Vec<BufElem>) -> (r: Self)
        ensures
            r.at == at,
            r.deleted == deleted,
            r.inserted == inserted,
    {
        ChangeLog { at, deleted, inserted }
    }

    /// The edit that takes this one back: what was inserted is deleted and
    /// what was deleted is inserted, at the same place.
    pub fn swap(&self) -> (r: Self)
        ensures
            r@ == swapped(self@),
    {
        ChangeLog { at: self.at, deleted: copy_elems(&self.inserted), inserted: copy_elems(&self.deleted) }
    }
}

/// The edit that takes `l` back.
pub open spec fn swapped(l: LogView) -> LogView {
    LogView { at: l.at, deleted: l.inserted, inserted: l.deleted }
}

/// Swapping twice gives back the same edit.
pub proof fn law_swap_involutive(l: LogView)
    ensures
        swapped(swapped(l)) == l,
{
}

/// A stamp that was given out before the next stamp `next`.
pub open spec fn stamp_given(s: u64, next: u64) -> bool {
    s < next || next == u64::MAX
}

/// The number of edits that can be undone.
pub const CHANGE_LOG_CAPACITY: usize = 20;

/// The history of the edits of a buffer, with a logical clock: each recorded
/// edit gets a stamp larger than those before it.
pub struct ChangeLogBuffer {
    pub buf: UndoBuffer<ChangeLog>,
    pub stamps: UndoBuffer<u64>,
    pub next_stamp: u64,
}

impl ChangeLogBuffer {
    /// The edits and their stamps go together, and every stamp given is
    /// below the next one (unless the stamps ran out).
    pub open spec fn inv(&self) -> bool {
        &&& self.buf.capacity == CHANGE_LOG_CAPACITY
        &&& self.stamps.capacity == CHANGE_LOG_CAPACITY
        &&& self.buf.undo_queue@.len() == self.stamps.undo_queue@.len()
        &&& self.buf.redo_stack@.len() == self.stamps.redo_stack@.len()
        &&& forall|i: int| 0 <= i < self.stamps.undo_queue@.len() ==> stamp_given(#[trigger] self.stamps.undo_queue@[i], self.next_stamp)
        &&& forall|i: int| 0 <= i < self.stamps.redo_stack@.len() ==> stamp_given(#[trigger] self.stamps.redo_stack@[i], self.next_stamp)
    }

    pub fn new() -> (r: Self)
        ensures
            r.inv(),
            r.buf.undo_queue@.len() == 0,
            r.buf.redo_stack@.len() == 0,
    {
        ChangeLogBuffer {
            buf: UndoBuffer::new(CHANGE_LOG_CAPACITY),
            stamps: UndoBuffer::new(CHANGE_LOG_CAPACITY),
            next_stamp: 0,
        }
    }

    /// The latest edit, if any.
    pub fn peek(&self) -> (r: Option<&ChangeLog>)
        ensures
            r == (if self.buf.undo_queue@.len() > 0 {
                Some(&self.buf.undo_queue@.last())
            } else {
                None
            }),
    {
        self.buf.peek()
    }

    /// The stamp of the latest edit, if any.
    pub open spec fn clock_spec(&self) -> Option<u64> {
        if self.stamps.undo_queue@.len() > 0 {
            Some(self.stamps.undo_queue@.last())
        } else {
            None
        }
    }

    /// The stamp of the latest edit, if any.
    pub fn clock(&self) -> (r: Option<u64>)
        ensures
            r == self.clock_spec(),
    {
        match self.stamps.peek() {
            Some(x) => Some(*x),
            None => None,
        }
    }

    /// Records an edit: it becomes the latest, and nothing is left to redo.
    pub fn push(&mut self, x: ChangeLog)
        requires
            old(self).inv(),
        ensures
            final(self).inv(),
            final(self).buf.undo_queue@.last() == x,
            final(self).buf.undo_queue@.last()@ == x@,
            final(self).buf.undo_queue@.len() > 0,
            final(self).buf.redo_stack@.len() == 0,
            final(self).stamps.undo_queue@.last() == old(self).next_stamp,
            ({
                let q = old(self).buf.undo_queue@.push(x);
                final(self).buf.undo_queue@ == if q.len() > CHANGE_LOG_CAPACITY {
                    q.subrange(q.len() - CHANGE_LOG_CAPACITY, q.len() as int)
                } else {
                    q
                }
            }),
    {
        let stamp = self.next_stamp;
        self.buf.save(x);
        self.stamps.save(stamp);
        if self.next_stamp < u64::MAX {
            self.next_stamp = self.next_stamp + 1;
        }
    }

    /// Takes back the latest edit, if any.
    pub fn pop_undo(&mut self) -> (r: Option<ChangeLog>)
        requires
            old(self).inv(),
        ensures
            final(self).inv(),
            final(self).next_stamp == old(self).next_stamp,
            old(self).buf.undo_queue@.len() == 0 ==> r is None && final(self).buf.undo_queue@ == old(self).buf.undo_queue@
                && final(self).buf.redo_stack@ == old(self).buf.redo_stack@,
            old(self).buf.undo_queue@.len() > 0 ==> r == Some(old(self).buf.undo_queue@.last())
                && final(self).buf.undo_queue@ == old(self).buf.undo_queue@.drop_last()
                && final(self).buf.redo_stack@.len() == old(self).buf.redo_stack@.len() + 1
                && final(self).buf.redo_stack@.drop_last() == old(self).buf.redo_stack@
                && final(self).buf.redo_stack@.last()@ == old(self).buf.undo_queue@.last()@,
    {
        let _ = self.stamps.pop_undo();
        let r = self.buf.pop_undo();
        proof {
            if old(self).buf.undo_queue@.len() > 0 {
                let a = old(self).buf.undo_queue@.last();
                let b = self.buf.redo_stack@.last();
                assert(cloned(a, b));
                assert(a@ == b@) by {
                    if vstd::pervasive::strictly_cloned(a, b) {
                        assert(call_ensures(ChangeLog::clone, (&a,), b));
                    }
                }
            }
            let n = self.next_stamp;
            if old(self).stamps.undo_queue@.len() > 0 {
                let a = old(self).stamps.undo_queue@.last();
                let b = self.stamps.redo_stack@.last();
                assert(a == b) by {
                    if vstd::pervasive::strictly_cloned(a, b) {
                        assert(call_ensures(u64::clone, (&a,), b));
                    }
                }
                assert(stamp_given(a, n));
                assert forall|i: int| 0 <= i < self.stamps.redo_stack@.len() implies stamp_given(#[trigger] self.stamps.redo_stack@[i], n) by {
                    if i < old(self).stamps.redo_stack@.len() {
                        assert(self.stamps.redo_stack@[i] == self.stamps.redo_stack@.drop_last()[i]);
                    }
                }
                assert forall|i: int| 0 <= i < self.stamps.undo_queue@.len() implies stamp_given(#[trigger] self.stamps.undo_queue@[i], n) by {
                    assert(self.stamps.undo_queue@[i] == old(self).stamps.undo_queue@[i]);
                }
            }
        }
        r
    }

    /// Takes back the latest undone edit, if any.
    pub fn pop_redo(&mut self) -> (r: Option<ChangeLog>)
        requires
            old(self).inv(),
        ensures
            final(self).inv(),
            final(self).next_stamp == old(self).next_stamp,
            old(self).buf.redo_stack@.len() == 0 ==> r is None && final(self).buf.undo_queue@ == old(self).buf.undo_queue@
                && final(self).buf.redo_stack@ == old(self).buf.redo_stack@,
            old(self).buf.redo_stack@.len() > 0 ==> r == Some(old(self).buf.redo_stack@.last())
                && final(self).buf.redo_stack@ == old(self).buf.redo_stack@.drop_last()
                && final(self).buf.undo_queue@.len() == old(self).buf.undo_queue@.len() + 1
                && final(self).buf.undo_queue@.drop_last() == old(self).buf.undo_queue@
                && final(self).buf.undo_queue@.last()@ == old(self).buf.redo_stack@.last()@,
    {
        let _ = self.stamps.pop_redo();
        let r = self.buf.pop_redo();
        proof {
            if old(self).buf.redo_stack@.len() > 0 {
                let a = old(self).buf.redo_stack@.last();
                let b = self.buf.undo_queue@.last();
                assert(cloned(a, b));
                assert(a@ == b@) by {
                    if vstd::pervasive::strictly_cloned(a, b) {
                        assert(call_ensures(ChangeLog::clone, (&a,), b));
                    }
                }
            }
            let n = self.next_stamp;
            if old(self).stamps.redo_stack@.len() > 0 {
                let a = old(self).stamps.redo_stack@.last();
                let b = self.stamps.undo_queue@.last();
                assert(a == b) by {
                    if vstd::pervasive::strictly_cloned(a, b) {
                        assert(call_ensures(u64::clone, (&a,), b));
                    }
                }
                assert(stamp_given(a, n));
                assert forall|i: int| 0 <= i < self.stamps.undo_queue@.len() implies stamp_given(#[trigger] self.stamps.undo_queue@[i], n) by {
                    if i < old(self).stamps.undo_queue@.len() {
                        assert(self.stamps.undo_queue@[i] == self.stamps.undo_queue@.drop_last()[i]);
                    }
                }
                assert forall|i: int| 0 <= i < self.stamps.redo_stack@.len() implies stamp_given(#[trigger] self.stamps.redo_stack@[i], n) by {
                    assert(self.stamps.redo_stack@[i] == old(self).stamps.redo_stack@[i]);
                }
            }
        }
        r
    }
}

} // verus!
