use vstd::prelude::*;
use crate::Key;
use crate::read_buffer::{BufElem, Cursor, CursorRange, INIT, flatten, max_size, word_lo, word_hi, spec_is_word_char};
use crate::read_buffer::search::line_wf;
use super::{EditBuffer, Request, deletable, deleted_text, edit_log, started_edit, cursor_after, del_local_end, del_region};
use super::history::{apply_rows, rows_wf, applicable, lemma_apply_rows};
use super::change_log::LogView;
use super::clipboard::{Type, type_view};
use super::text::{all_lines_wf, prefix_len, lemma_prefix_step, lemma_prefix_mono};

verus! {

pub const COMMAND: &'static str = "Command";
pub const REPLACE_ONCE: &'static str = "ReplaceOnce";
pub const WARP: &'static str = "Warp";
pub const WILL_DELETE: &'static str = "WillDelete";
pub const WILL_YANK: &'static str = "WillYank";
pub const WILL_CHANGE: &'static str = "WillChange";
pub const INSERT: &'static str = "Insert";
pub const SNIPPET: &'static str = "Snippet";

/// The cursor just after `c` on its row.
pub open spec fn spec_range_end(c: Cursor) -> Cursor {
    Cursor { row: c.row, col: (c.col + 1) as usize }
}

/// The cursor just after `cursor` on its row.
pub fn to_cursor_range_end(cursor: Cursor) -> (r: Cursor)
    requires
        cursor.col < usize::MAX,
    ensures
        r == spec_range_end(cursor),
{
    Cursor { row: cursor.row, col: cursor.col + 1 }
}

/// The elements without a final line end.
pub open spec fn spec_trim_right(xs: Seq<BufElem>) -> Seq<BufElem> {
    if xs.len() > 0 && xs.last() == BufElem::Eol {
        xs.drop_last()
    } else {
        xs
    }
}

/// Drops a final line end.
pub fn trim_right(xs: Vec<BufElem>) -> (r: Vec<BufElem>)
    ensures
        r@ == spec_trim_right(xs@),
{
    let mut v = xs;
    if v.len() == 0 {
        v
    } else if v[v.len() - 1] == BufElem::Eol {
        v.pop();
        v
    } else {
        v
    }
}

/// The state after an edit of the range by `pre` and `post` was made and
/// recorded, with the cursor after `pre`.
pub open spec fn committed_edit(o: EditBuffer, n: EditBuffer, r: CursorRange, pre: Seq<BufElem>, post: Seq<BufElem>) -> bool {
    let ls = o.rb.lines();
    &&& committed_rows(o, n, r, pre, post)
    &&& n.rb.cursor == cursor_after(r, flatten(del_region(ls, r)).take(r.start.col as int) + pre)
}

/// The rows and history after an edit of the range by `pre` and `post` was
/// made and recorded.
pub open spec fn committed_rows(o: EditBuffer, n: EditBuffer, r: CursorRange, pre: Seq<BufElem>, post: Seq<BufElem>) -> bool {
    let ls = o.rb.lines();
    let l = edit_log(ls, r, pre + post);
    &&& n.wf()
    &&& n.edit_state is None
    &&& applicable(ls, l)
    &&& n.rb.lines() == apply_rows(ls, l)
    &&& n.visual_cursor is None
    &&& if l.deleted.len() > 0 || l.inserted.len() > 0 {
        &&& n.change_log_buffer.buf.undo_queue@.len() > 0
        &&& n.change_log_buffer.buf.undo_queue@.last()@ == l
        &&& n.change_log_buffer.buf.redo_stack@.len() == 0
        &&& o.change_log_buffer.next_stamp < u64::MAX ==> n.spec_dirty()
    } else {
        n.change_log_buffer == o.change_log_buffer
    }
    &&& n.rb.state == o.rb.state
    &&& n.rb.window == o.rb.window
    &&& n.rb.search.cur_word == o.rb.search.cur_word
    &&& n.rb.message_box == o.rb.message_box
    &&& n.config == o.config
    &&& n.path == o.path
    &&& n.sync_clock == o.sync_clock
    &&& n.request == o.request
}

impl EditBuffer {
    /// The edit can start: nothing is being edited, and the result fits.
    pub open spec fn can_edit(&self, r: CursorRange, added: nat) -> bool {
        &&& self.wf()
        &&& self.edit_state is None
        &&& deletable(self.rb.lines(), r)
        &&& self.text().len() + added + 1 <= max_size()
    }

    /// Replaces the range by `init_pre` and `init_post` and records the edit.
    /// Returns what was taken out.
    fn edit_and_commit(&mut self, r: &CursorRange, init_pre: Vec<BufElem>, init_post: Vec<BufElem>) -> (res: Vec<BufElem>)
        requires
            old(self).can_edit(*r, init_pre@.len() + init_post@.len()),
        ensures
            committed_edit(*old(self), *final(self), *r, init_pre@, init_post@),
            final(self).clipboard == old(self).clipboard,
            final(self).snippet_repo == old(self).snippet_repo,
            res@ == deleted_text(old(self).rb.lines(), *r),
    {
        let ghost pre = init_pre@;
        let ghost post = init_post@;
        self.create_edit_state(r, init_pre, init_post);
        let ghost mid = *self;
        let removed = self.commit_edit_state();
        proof {
            assert(mid.edit_state->0.log() == edit_log(old(self).rb.lines(), *r, pre + post));
        }
        removed
    }

    /// Takes the range out and records the deletion. Returns what was taken
    /// out.
    pub fn delete_range(&mut self, range: CursorRange) -> (res: Vec<BufElem>)
        requires
            old(self).can_edit(range, 0),
        ensures
            committed_edit(*old(self), *final(self), range, Seq::empty(), Seq::empty()),
            final(self).clipboard == old(self).clipboard,
            final(self).snippet_repo == old(self).snippet_repo,
            res@ == deleted_text(old(self).rb.lines(), range),
    {
        let r = self.edit_and_commit(&range, Vec::new(), Vec::new());
        assert(Seq::<BufElem>::empty() + Seq::<BufElem>::empty() == Seq::<BufElem>::empty());
        r
    }

    /// The selection from the visual cursor to the cursor, both included.
    pub fn visual_range(&self) -> (r: Option<CursorRange>)
        requires
            self.rb.cursor.col < usize::MAX,
            self.visual_cursor matches Some(vc) ==> vc.col < usize::MAX,
        ensures
            match self.visual_cursor {
                None => r is None,
                Some(vc) => r == Some(
                    if super::cursor_before(vc, self.rb.cursor) {
                        CursorRange { start: vc, end: spec_range_end(self.rb.cursor) }
                    } else {
                        CursorRange { start: self.rb.cursor, end: spec_range_end(vc) }
                    },
                ),
            },
    {
        match self.visual_cursor {
            None => None,
            Some(vc) => {
                if super::cursor_lt(vc, self.rb.cursor) {
                    Some(CursorRange { start: vc, end: to_cursor_range_end(self.rb.cursor) })
                } else {
                    Some(CursorRange { start: self.rb.cursor, end: to_cursor_range_end(vc) })
                }
            },
        }
    }

    /// The word the cursor is on, if it is on one.
    pub fn word_range(&self) -> (r: Option<CursorRange>)
        requires
            self.rb.cursor_ok(),
        ensures
            ({
                let line = self.rb.buf@[self.rb.cursor.row as int]@;
                let col = self.rb.cursor.col as int;
                if spec_is_word_char(line[col]) {
                    r == Some(
                        CursorRange {
                            start: Cursor { row: self.rb.cursor.row, col: word_lo(line, col) as usize },
                            end: Cursor { row: self.rb.cursor.row, col: word_hi(line, col) as usize },
                        },
                    )
                } else {
                    r is None
                }
            }),
    {
        let col_range = self.rb.line(self.rb.cursor.row).word_range(self.rb.cursor.col);
        match col_range {
            None => None,
            Some(r) => Some(
                CursorRange {
                    start: Cursor { row: self.rb.cursor.row, col: r.start },
                    end: Cursor { row: self.rb.cursor.row, col: r.end },
                },
            ),
        }
    }

    /// From the cursor to the end of its row, the line end excluded (just the
    /// cursor on an empty row).
    pub fn line_tail_range(&self) -> (r: CursorRange)
        requires
            self.rb.cursor_ok(),
        ensures
            r.start == self.rb.cursor,
            r.end == (if self.rb.buf@[self.rb.cursor.row as int]@.len() == 1 {
                self.rb.cursor
            } else {
                Cursor { row: self.rb.cursor.row, col: (self.rb.buf@[self.rb.cursor.row as int]@.len() - 1) as usize }
            }),
    {
        let start = self.rb.cursor;
        let line = &self.rb.buf[start.row];
        let end = if line.len() == 1 {
            start
        } else {
            Cursor { row: start.row, col: line.len() - 1 }
        };
        CursorRange { start, end }
    }

    /// The length of the text.
    pub fn text_len(&self) -> (r: usize)
        requires
            rows_wf(self.rb.lines()),
        ensures
            r == self.text().len(),
    {
        let ghost ls = self.rb.lines();
        let mut n: usize = 0;
        let mut i: usize = 0;
        while i < self.rb.buf.len()
            invariant
                ls == self.rb.lines(),
                rows_wf(ls),
                i <= self.rb.buf@.len(),
                n == prefix_len(ls, i as int),
            decreases self.rb.buf@.len() - i,
        {
            proof {
                lemma_prefix_step(ls, i as int);
                lemma_prefix_mono(ls, i + 1, ls.len() as int);
                assert(ls.take(ls.len() as int) == ls);
                assert(ls[i as int] == self.rb.buf@[i as int]@);
            }
            n = n + self.rb.buf[i].len();
            i = i + 1;
        }
        assert(ls.take(ls.len() as int) == ls);
        n
    }
}


/// The range of a whole row, its line end included.
pub open spec fn row_range(row: usize, len: int) -> CursorRange {
    CursorRange { start: Cursor { row, col: 0 }, end: Cursor { row, col: len as usize } }
}

/// An empty range at `c`.
pub open spec fn at_range(c: Cursor) -> CursorRange {
    CursorRange { start: c, end: c }
}

impl EditBuffer {
    /// The row the cursor is on.
    pub open spec fn cur_line(&self) -> Seq<BufElem> {
        self.rb.buf@[self.rb.cursor.row as int]@
    }

    /// Ready to edit at the cursor: nothing is being edited, the cursor is on
    /// an element, and the result of adding `added` elements fits.
    pub open spec fn edit_ready(&self, added: nat) -> bool {
        &&& self.wf()
        &&& self.edit_state is None
        &&& self.rb.cursor_ok()
        &&& self.text().len() + added + 1 <= max_size()
    }

    /// What `eff_enter_command_mode` does: the value `s1` and the state `r` it leaves from `s0` with the key `_k`.
    pub open spec fn eff_enter_command_mode_post(s0: EditBuffer, s1: EditBuffer, _k: Key, r: String) -> bool {
        &&& r@ == super::effects::COMMAND@
        &&& s1 == s0
    }

    pub fn eff_enter_command_mode(&mut self, _k: Key) -> (r: String)
        ensures
            Self::eff_enter_command_mode_post(*old(self), *final(self), _k, r),
    {
        COMMAND.to_owned()
    }

    /// What `eff_cancel_command_mode` does: the value `s1` and the state `r` it leaves from `s0` with the key `_k`.
    pub open spec fn eff_cancel_command_mode_post(s0: EditBuffer, s1: EditBuffer, _k: Key, r: String) -> bool {
        &&& r@ == INIT@
        &&& s1 == s0
    }

    pub fn eff_cancel_command_mode(&mut self, _k: Key) -> (r: String)
        ensures
            Self::eff_cancel_command_mode_post(*old(self), *final(self), _k, r),
    {
        INIT.to_owned()
    }

    /// Asks the application to close the buffer.
    pub fn close_buffer(&mut self)
        ensures
            old(self).wf() ==> final(self).wf(),
            final(self).snippet_repo == old(self).snippet_repo,
            final(self).request == Some(Request::Close),
            final(self).rb == old(self).rb,
            final(self).change_log_buffer == old(self).change_log_buffer,
            final(self).edit_state == old(self).edit_state,
    {
        self.request = Some(Request::Close);
    }

    /// Asks the application to write the buffer to its file.
    pub fn save_to_file(&mut self)
        ensures
            old(self).wf() ==> final(self).wf(),
            final(self).snippet_repo == old(self).snippet_repo,
            final(self).request == Some(Request::Save),
            final(self).rb == old(self).rb,
            final(self).change_log_buffer == old(self).change_log_buffer,
            final(self).edit_state == old(self).edit_state,
    {
        self.request = Some(Request::Save);
    }

    /// The buffer was written to its file: it is clean until the next edit.
    pub fn mark_saved(&mut self)
        ensures
            old(self).wf() ==> final(self).wf(),
            final(self).snippet_repo == old(self).snippet_repo,
            final(self).sync_clock == old(self).change_log_buffer.clock_spec(),
            final(self).rb.message_box.buf@ == "Saved"@,
            final(self).rb.buf == old(self).rb.buf,
            final(self).rb.cursor == old(self).rb.cursor,
            final(self).change_log_buffer == old(self).change_log_buffer,
            final(self).edit_state == old(self).edit_state,
    {
        self.sync_clock = self.change_log_buffer.clock();
        self.rb.message_box.send("Saved");
    }

    /// A buffer just saved is clean: `mark_saved` and then `is_dirty` gives
    /// `false`, as long as no edit came in between.
    pub proof fn law_saved_is_clean(before: EditBuffer, after: EditBuffer)
        requires
            after.sync_clock == before.change_log_buffer.clock_spec(),
            after.change_log_buffer == before.change_log_buffer,
        ensures
            !after.spec_dirty(),
    {
    }

    /// What `eff_execute_command` does: the value `s1` and the state `r` it leaves from `s0` with the key `k`.
    pub open spec fn eff_execute_command_post(s0: EditBuffer, s1: EditBuffer, k: Key, r: String) -> bool {
        &&& s0.wf() ==> s1.wf()
        &&& s1.snippet_repo == s0.snippet_repo
        &&& r@ == INIT@
        &&& s1.request == (if k == Key::Char('w') {
            Some(Request::Save)
        } else if k == Key::Char('q') {
            Some(Request::Close)
        } else {
            s0.request
        })
        &&& s1.rb == s0.rb
        &&& s1.change_log_buffer == s0.change_log_buffer
        &&& s1.edit_state == s0.edit_state
    }

    /// `w` saves, `q` closes; back to the init mode either way.
    pub fn eff_execute_command(&mut self, k: Key) -> (r: String)
        ensures
            Self::eff_execute_command_post(*old(self), *final(self), k, r),
    {
        match k {
            Key::Char('w') => self.save_to_file(),
            Key::Char('q') => self.close_buffer(),
            _ => {},
        }
        INIT.to_owned()
    }

    /// What `eff_undo` does: the value `s1` and the state `r` it leaves from `s0` with the key `_k`.
    pub open spec fn eff_undo_post(s0: EditBuffer, s1: EditBuffer, _k: Key, r: String) -> bool {
        &&& r@ == INIT@
        &&& s1.wf()
        &&& s1.edit_state is None
        &&& s0.change_log_buffer.buf.undo_queue@.len() == 0 ==> s1.rb == s0.rb
        &&& s0.change_log_buffer.buf.undo_queue@.len() > 0 ==> s1.rb.lines() == apply_rows(
            s0.rb.lines(),
            super::change_log::swapped(s0.change_log_buffer.buf.undo_queue@.last()@),
        ) && s1.rb.cursor == s0.change_log_buffer.buf.undo_queue@.last().at
          && s1.change_log_buffer.buf.undo_queue@ == s0.change_log_buffer.buf.undo_queue@.drop_last()
          && s1.change_log_buffer.buf.redo_stack@.last()@ == s0.change_log_buffer.buf.undo_queue@.last()@
          && s1.change_log_buffer.buf.redo_stack@.len() == s0.change_log_buffer.buf.redo_stack@.len() + 1
          && s1.change_log_buffer.buf.redo_stack@.drop_last() == s0.change_log_buffer.buf.redo_stack@
    }

    pub fn eff_undo(&mut self, _k: Key) -> (r: String)
        requires
            old(self).wf(),
            old(self).edit_state is None,
        ensures
            Self::eff_undo_post(*old(self), *final(self), _k, r),
    {
        self.undo();
        INIT.to_owned()
    }

    /// What `eff_redo` does: the value `s1` and the state `r` it leaves from `s0` with the key `_k`.
    pub open spec fn eff_redo_post(s0: EditBuffer, s1: EditBuffer, _k: Key, r: String) -> bool {
        &&& r@ == INIT@
        &&& s1.wf()
        &&& s1.edit_state is None
        &&& s0.change_log_buffer.buf.redo_stack@.len() == 0 ==> s1.rb == s0.rb
        &&& s0.change_log_buffer.buf.redo_stack@.len() > 0 ==> s1.rb.lines() == apply_rows(
            s0.rb.lines(),
            s0.change_log_buffer.buf.redo_stack@.last()@,
        ) && s1.change_log_buffer.buf.redo_stack@ == s0.change_log_buffer.buf.redo_stack@.drop_last()
          && s1.change_log_buffer.buf.undo_queue@.last()@ == s0.change_log_buffer.buf.redo_stack@.last()@
          && s1.change_log_buffer.buf.undo_queue@.len() == s0.change_log_buffer.buf.undo_queue@.len() + 1
          && s1.change_log_buffer.buf.undo_queue@.drop_last() == s0.change_log_buffer.buf.undo_queue@
    }

    pub fn eff_redo(&mut self, _k: Key) -> (r: String)
        requires
            old(self).wf(),
            old(self).edit_state is None,
        ensures
            Self::eff_redo_post(*old(self), *final(self), _k, r),
    {
        self.redo();
        INIT.to_owned()
    }

    /// What `eff_enter_insert_newline` does: the value `s1` and the state `r` it leaves from `s0` with the key `_k`.
    pub open spec fn eff_enter_insert_newline_post(s0: EditBuffer, s1: EditBuffer, _k: Key, r: String) -> bool {
        &&& r@ == INSERT@
        &&& s1.wf()
        &&& ({
            let line = s0.cur_line();
            let c = Cursor { row: s0.rb.cursor.row, col: (line.len() - 1) as usize };
            started_edit(
                s0,
                s1,
                at_range(c),
                seq![BufElem::Eol] + super::diff_tree::next_indent_of(line.drop_last(), s0.config.indent_type),
                Seq::empty(),
            )
        })
    }

    /// Opens a new line below the cursor's, indented after it, and starts
    /// typing there.
    pub fn eff_enter_insert_newline(&mut self, _k: Key) -> (r: String)
        requires
            old(self).edit_ready(1 + old(self).cur_line().len() + super::indent::indent_elems(old(self).config.indent_type).len()),
        ensures
            Self::eff_enter_insert_newline_post(*old(self), *final(self), _k, r),
    {
        let row = self.rb.cursor.row;
        let n = self.rb.buf[row].len();
        let delete_range = CursorRange { start: Cursor { row, col: n - 1 }, end: Cursor { row, col: n - 1 } };
        let mut v: Vec<BufElem> = Vec::new();
        v.push(BufElem::Eol);
        let auto_indent = super::indent::AutoIndent::new(&self.rb.buf[row].as_slice()[0..n - 1], self.config.indent_type);
        let mut ni = auto_indent.next_indent();
        v.append(&mut ni);
        proof {
            assert(self.rb.buf@[row as int]@.subrange(0, n - 1) == self.cur_line().drop_last());
            assert(self.rb.lines()[row as int] == self.cur_line());
            super::text::lemma_leading_indent_le(self.cur_line().drop_last());
        }
        self.create_edit_state(&delete_range, v, Vec::new());
        INSERT.to_owned()
    }

    /// What `eff_enter_insert_newline_above` does: the value `s1` and the state `r` it leaves from `s0` with the key `_k`.
    pub open spec fn eff_enter_insert_newline_above_post(s0: EditBuffer, s1: EditBuffer, _k: Key, r: String) -> bool {
        &&& r@ == INSERT@
        &&& s1.wf()
        &&& started_edit(
            s0,
            s1,
            at_range(Cursor { row: s0.rb.cursor.row, col: 0 }),
            super::indent::leading_indent(s0.cur_line().drop_last()),
            seq![BufElem::Eol],
        )
    }

    /// Opens a new line above the cursor's, with its indentation, and starts
    /// typing there.
    pub fn eff_enter_insert_newline_above(&mut self, _k: Key) -> (r: String)
        requires
            old(self).edit_ready(1 + old(self).cur_line().len()),
        ensures
            Self::eff_enter_insert_newline_above_post(*old(self), *final(self), _k, r),
    {
        let row = self.rb.cursor.row;
        let n = self.rb.buf[row].len();
        let delete_range = CursorRange { start: Cursor { row, col: 0 }, end: Cursor { row, col: 0 } };
        let auto_indent = super::indent::AutoIndent::new(&self.rb.buf[row].as_slice()[0..n - 1], self.config.indent_type);
        let mut post: Vec<BufElem> = Vec::new();
        post.push(BufElem::Eol);
        proof {
            assert(self.rb.buf@[row as int]@.subrange(0, n - 1) == self.cur_line().drop_last());
            assert(self.rb.lines()[row as int] == self.cur_line());
            super::text::lemma_leading_indent_le(self.cur_line().drop_last());
        }
        self.create_edit_state(&delete_range, auto_indent.current_indent(), post);
        INSERT.to_owned()
    }

    /// What `eff_enter_insert_mode` does: the value `s1` and the state `r` it leaves from `s0` with the key `_k`.
    pub open spec fn eff_enter_insert_mode_post(s0: EditBuffer, s1: EditBuffer, _k: Key, r: String) -> bool {
        &&& r@ == INSERT@
        &&& s1.wf()
        &&& started_edit(s0, s1, at_range(s0.rb.cursor), Seq::empty(), Seq::empty())
    }

    /// Starts typing at the cursor.
    pub fn eff_enter_insert_mode(&mut self, _k: Key) -> (r: String)
        requires
            old(self).edit_ready(0),
        ensures
            Self::eff_enter_insert_mode_post(*old(self), *final(self), _k, r),
    {
        let delete_range = CursorRange { start: self.rb.cursor, end: self.rb.cursor };
        assert(self.rb.lines()[self.rb.cursor.row as int] == self.cur_line());
        self.create_edit_state(&delete_range, Vec::new(), Vec::new());
        INSERT.to_owned()
    }

    /// What `eff_enter_insert_mode_line_last` does: the value `s1` and the state `r` it leaves from `s0` with the key `_k`.
    pub open spec fn eff_enter_insert_mode_line_last_post(s0: EditBuffer, s1: EditBuffer, _k: Key, r: String) -> bool {
        &&& r@ == INSERT@
        &&& s1.wf()
        &&& started_edit(
            s0,
            s1,
            at_range(Cursor { row: s0.rb.cursor.row, col: (s0.cur_line().len() - 1) as usize }),
            Seq::empty(),
            Seq::empty(),
        )
    }

    /// Starts typing at the end of the cursor's row.
    pub fn eff_enter_insert_mode_line_last(&mut self, _k: Key) -> (r: String)
        requires
            old(self).edit_ready(0),
        ensures
            Self::eff_enter_insert_mode_line_last_post(*old(self), *final(self), _k, r),
    {
        let eol_cursor = Cursor { row: self.rb.cursor.row, col: self.rb.buf[self.rb.cursor.row].len() - 1 };
        let delete_range = CursorRange { start: eol_cursor, end: eol_cursor };
        assert(self.rb.lines()[self.rb.cursor.row as int] == self.cur_line());
        self.create_edit_state(&delete_range, Vec::new(), Vec::new());
        INSERT.to_owned()
    }

    /// What `eff_enter_append_mode` does: the value `s1` and the state `r` it leaves from `s0` with the key `k`.
    pub open spec fn eff_enter_append_mode_post(s0: EditBuffer, s1: EditBuffer, k: Key, r: String) -> bool {
        &&& r@ == INSERT@
        &&& s1.wf()
        &&& ({
            let c = s0.rb.cursor;
            let next = if c.col < s0.cur_line().len() - 1 { (c.col + 1) as usize } else { c.col };
            started_edit(
                EditBuffer { rb: crate::read_buffer::ReadBuffer { cursor: Cursor { row: c.row, col: next }, ..s0.rb }, ..s0 },
                s1,
                at_range(Cursor { row: c.row, col: next }),
                Seq::empty(),
                Seq::empty(),
            )
        })
    }

    /// Starts typing after the cursor.
    pub fn eff_enter_append_mode(&mut self, k: Key) -> (r: String)
        requires
            old(self).edit_ready(0),
        ensures
            Self::eff_enter_append_mode_post(*old(self), *final(self), k, r),
    {
        self.rb.cursor_right();
        proof {
            assert(self.rb.lines() == old(self).rb.lines());
        }
        self.eff_enter_insert_mode(k)
    }

    /// What `eff_leave_edit_mode` does: the value `s1` and the state `r` it leaves from `s0` with the key `_k`.
    pub open spec fn eff_leave_edit_mode_post(s0: EditBuffer, s1: EditBuffer, _k: Key, r: String) -> bool {
        &&& r@ == INIT@
        &&& s1.wf()
        &&& s1.edit_state is None
        &&& s1.rb.lines() == apply_rows(s0.edit_state->0.base(), s0.edit_state->0.log())
    }

    /// Ends typing: the edit is recorded.
    pub fn eff_leave_edit_mode(&mut self, _k: Key) -> (r: String)
        requires
            old(self).wf(),
            old(self).edit_state is Some,
        ensures
            Self::eff_leave_edit_mode_post(*old(self), *final(self), _k, r),
    {
        self.commit_edit_state();
        INIT.to_owned()
    }

    /// What `eff_cancel_will_mode` does: the value `s1` and the state `r` it leaves from `s0` with the key `_k`.
    pub open spec fn eff_cancel_will_mode_post(s0: EditBuffer, s1: EditBuffer, _k: Key, r: String) -> bool {
        &&& r@ == INIT@
        &&& s1 == s0
    }

    pub fn eff_cancel_will_mode(&mut self, _k: Key) -> (r: String)
        ensures
            Self::eff_cancel_will_mode_post(*old(self), *final(self), _k, r),
    {
        INIT.to_owned()
    }

    /// What `eff_enter_visual_mode` does: the value `s1` and the state `r` it leaves from `s0` with the key `_k`.
    pub open spec fn eff_enter_visual_mode_post(s0: EditBuffer, s1: EditBuffer, _k: Key, r: String) -> bool {
        &&& s0.wf() ==> s1.wf()
        &&& s1.snippet_repo == s0.snippet_repo
        &&& r@ == INIT@
        &&& s1.visual_cursor == Some(s0.rb.cursor)
        &&& s1.rb == s0.rb
        &&& s1.edit_state == s0.edit_state
        &&& s1.change_log_buffer == s0.change_log_buffer
    }

    /// Starts selecting from the cursor.
    pub fn eff_enter_visual_mode(&mut self, _k: Key) -> (r: String)
        ensures
            Self::eff_enter_visual_mode_post(*old(self), *final(self), _k, r),
    {
        self.visual_cursor = Some(self.rb.cursor);
        INIT.to_owned()
    }

    /// What `eff_reset` does: the value `s1` and the state `r` it leaves from `s0` with the key `_k`.
    pub open spec fn eff_reset_post(s0: EditBuffer, s1: EditBuffer, _k: Key, r: String) -> bool {
        &&& s0.wf() ==> s1.wf()
        &&& s1.snippet_repo == s0.snippet_repo
        &&& r@ == INIT@
        &&& s1.visual_cursor is None
        &&& !s1.rb.search.show
        &&& s1.rb.buf == s0.rb.buf
        &&& s1.rb.cursor == s0.rb.cursor
        &&& s1.edit_state == s0.edit_state
        &&& s1.change_log_buffer == s0.change_log_buffer
    }

    /// Drops the selection and the search highlights.
    pub fn eff_reset(&mut self, _k: Key) -> (r: String)
        ensures
            Self::eff_reset_post(*old(self), *final(self), _k, r),
    {
        self.visual_cursor = None;
        self.rb.reset();
        INIT.to_owned()
    }

    /// What `eff_enter_replace_once_mode` does: the value `s1` and the state `r` it leaves from `s0` with the key `_k`.
    pub open spec fn eff_enter_replace_once_mode_post(s0: EditBuffer, s1: EditBuffer, _k: Key, r: String) -> bool {
        &&& r@ == REPLACE_ONCE@
        &&& s1 == s0
    }

    pub fn eff_enter_replace_once_mode(&mut self, _k: Key) -> (r: String)
        ensures
            Self::eff_enter_replace_once_mode_post(*old(self), *final(self), _k, r),
    {
        REPLACE_ONCE.to_owned()
    }

    /// What `eff_cancel_replace_once_mode` does: the value `s1` and the state `r` it leaves from `s0` with the key `_k`.
    pub open spec fn eff_cancel_replace_once_mode_post(s0: EditBuffer, s1: EditBuffer, _k: Key, r: String) -> bool {
        &&& r@ == INIT@
        &&& s1 == s0
    }

    pub fn eff_cancel_replace_once_mode(&mut self, _k: Key) -> (r: String)
        ensures
            Self::eff_cancel_replace_once_mode_post(*old(self), *final(self), _k, r),
    {
        INIT.to_owned()
    }
}


/// The selection is on elements of the buffer.
pub open spec fn visual_ok(eb: EditBuffer) -> bool {
    eb.visual_cursor matches Some(vc) ==> vc.row < eb.rb.buf@.len() && vc.col < eb.rb.buf@[vc.row as int]@.len()
}

/// The selection as a range, if any.
pub open spec fn spec_visual_range(eb: EditBuffer) -> Option<CursorRange> {
    match eb.visual_cursor {
        None => None,
        Some(vc) => Some(
            if super::cursor_before(vc, eb.rb.cursor) {
                CursorRange { start: vc, end: spec_range_end(eb.rb.cursor) }
            } else {
                CursorRange { start: eb.rb.cursor, end: spec_range_end(vc) }
            },
        ),
    }
}

/// The number of spaces and tabs that start the line.
pub open spec fn blank_prefix(line: Seq<BufElem>) -> int {
    super::indent::indent_len(line) as int
}

impl EditBuffer {
    /// The cursor and the selection stand on columns below the largest.
    proof fn lemma_cols_bounded(&self)
        requires
            self.rb.wf(),
            self.rb.cursor_ok(),
            visual_ok(*self),
        ensures
            self.rb.cursor.col < usize::MAX,
            self.visual_cursor matches Some(vc) ==> vc.col < usize::MAX,
    {
        assert(self.rb.lines()[self.rb.cursor.row as int] == self.rb.buf@[self.rb.cursor.row as int]@);
        if let Some(vc) = self.visual_cursor {
            assert(self.rb.lines()[vc.row as int] == self.rb.buf@[vc.row as int]@);
        }
    }

    /// A selection on elements gives a range that can be deleted.
    pub(crate) proof fn lemma_visual_deletable(&self)
        requires
            self.rb.wf(),
            self.rb.cursor_ok(),
            visual_ok(*self),
            self.visual_cursor is Some,
        ensures
            deletable(self.rb.lines(), spec_visual_range(*self)->0),
    {
        let vc = self.visual_cursor->0;
        assert(self.rb.lines()[vc.row as int] == self.rb.buf@[vc.row as int]@);
        assert(self.rb.lines()[self.rb.cursor.row as int] == self.rb.buf@[self.rb.cursor.row as int]@);
    }

    /// What `eff_join_next_line` does: the value `s1` and the state `r` it leaves from `s0` with the key `_k`.
    pub open spec fn eff_join_next_line_post(s0: EditBuffer, s1: EditBuffer, _k: Key, r: String) -> bool {
        &&& s0.rb.cursor.row == s0.rb.buf@.len() - 1 ==> r@ == INIT@ && s1 == s0
        &&& s0.rb.cursor.row < s0.rb.buf@.len() - 1 ==> {
            let row = s0.rb.cursor.row;
            let next = s0.rb.buf@[row + 1]@;
            &&& r@ == INSERT@
            &&& s1.wf()
            &&& started_edit(
                s0,
                s1,
                CursorRange {
                    start: Cursor { row, col: (s0.cur_line().len() - 1) as usize },
                    end: Cursor { row: (row + 1) as usize, col: blank_prefix(next) as usize },
                },
                Seq::empty(),
                Seq::empty(),
            )
        }
    }

    /// Joins the next row to the cursor's, without its indentation, and starts
    /// typing at the join. On the last row nothing happens.
    pub fn eff_join_next_line(&mut self, _k: Key) -> (r: String)
        requires
            old(self).edit_ready(0),
        ensures
            Self::eff_join_next_line_post(*old(self), *final(self), _k, r),
    {
        let row = self.rb.cursor.row;
        if row == self.rb.buf.len() - 1 {
            return INIT.to_owned();
        }
        let ghost next = self.rb.buf@[row + 1]@;
        assert(self.rb.lines()[row + 1] == next);
        assert(line_wf(next));
        let mut k: usize = 0;
        let nr = row + 1;
        let n_next = self.rb.buf[nr].len();
        while k < n_next
            invariant
                k <= n_next,
                nr == row + 1,
                nr < self.rb.buf@.len(),
                n_next == next.len(),
                next == self.rb.buf@[row + 1]@,
                forall|j: int| 0 <= j < k ==> super::indent::is_indent_char(#[trigger] next[j]),
            ensures
                k <= n_next,
                forall|j: int| 0 <= j < k ==> super::indent::is_indent_char(#[trigger] next[j]),
                k == n_next || !super::indent::is_indent_char(next[k as int]),
            decreases n_next - k,
        {
            let e = self.rb.buf[nr][k];
            if e == BufElem::Char(' ') || e == BufElem::Char('\t') {
                k = k + 1;
            } else {
                break;
            }
        }
        proof {
            super::indent::lemma_indent_len(next, k as int);
        }
        let delete_range = CursorRange {
            start: Cursor { row, col: self.rb.buf[row].len() - 1 },
            end: Cursor { row: row + 1, col: k },
        };
        assert(self.rb.lines()[row as int] == self.cur_line());
        self.create_edit_state(&delete_range, Vec::new(), Vec::new());
        INSERT.to_owned()
    }

    /// What `eff_change_range` does: the value `s1` and the state `r` it leaves from `s0` with the key `_k`.
    pub open spec fn eff_change_range_post(s0: EditBuffer, s1: EditBuffer, _k: Key, r: String) -> bool {
        &&& s0.visual_cursor is None ==> r@ == WILL_CHANGE@ && s1 == s0
        &&& s0.visual_cursor is Some ==> r@ == INSERT@ && s1.wf() && started_edit(
            s0,
            s1,
            spec_visual_range(s0)->0,
            Seq::empty(),
            Seq::empty(),
        )
    }

    /// Without a selection, waits for what to change; with one, takes it out
    /// and starts typing there.
    pub fn eff_change_range(&mut self, _k: Key) -> (r: String)
        requires
            old(self).edit_ready(0),
            visual_ok(*old(self)),
        ensures
            Self::eff_change_range_post(*old(self), *final(self), _k, r),
    {
        proof {
            self.lemma_cols_bounded();
        }
        match self.visual_range() {
            None => WILL_CHANGE.to_owned(),
            Some(delete_range) => {
                proof {
                    self.lemma_visual_deletable();
                }
                self.create_edit_state(&delete_range, Vec::new(), Vec::new());
                INSERT.to_owned()
            },
        }
    }

    /// What `eff_change_word` does: the value `s1` and the state `r` it leaves from `s0` with the key `_k`.
    pub open spec fn eff_change_word_post(s0: EditBuffer, s1: EditBuffer, _k: Key, r: String) -> bool {
        &&& !spec_is_word_char(s0.cur_line()[s0.rb.cursor.col as int]) ==> r@ == INIT@ && s1
            == s0
        &&& spec_is_word_char(s0.cur_line()[s0.rb.cursor.col as int]) ==> {
            let line = s0.cur_line();
            let c = s0.rb.cursor;
            &&& r@ == INSERT@
            &&& s1.wf()
            &&& started_edit(
                s0,
                s1,
                CursorRange {
                    start: Cursor { row: c.row, col: word_lo(line, c.col as int) as usize },
                    end: Cursor { row: c.row, col: word_hi(line, c.col as int) as usize },
                },
                Seq::empty(),
                Seq::empty(),
            )
        }
    }

    /// Takes the word under the cursor out and starts typing there; off a word
    /// nothing happens.
    pub fn eff_change_word(&mut self, _k: Key) -> (r: String)
        requires
            old(self).edit_ready(0),
        ensures
            Self::eff_change_word_post(*old(self), *final(self), _k, r),
    {
        match self.word_range() {
            Some(range) => {
                proof {
                    let line = self.cur_line();
                    let col = self.rb.cursor.col as int;
                    super::diff_tree::lemma_word_lo_le(line, col);
                    lemma_word_hi_le(line, col);
                    assert(self.rb.lines()[self.rb.cursor.row as int] == line);
                }
                self.create_edit_state(&range, Vec::new(), Vec::new());
                INSERT.to_owned()
            },
            None => INIT.to_owned(),
        }
    }

    /// What `eff_change_line_tail` does: the value `s1` and the state `r` it leaves from `s0` with the key `_k`.
    pub open spec fn eff_change_line_tail_post(s0: EditBuffer, s1: EditBuffer, _k: Key, r: String) -> bool {
        &&& r@ == INSERT@
        &&& s1.wf()
        &&& started_edit(s0, s1, s0.line_tail_spec(), Seq::empty(), Seq::empty())
    }

    /// Takes the rest of the row out and starts typing there.
    pub fn eff_change_line_tail(&mut self, _k: Key) -> (r: String)
        requires
            old(self).edit_ready(0),
        ensures
            Self::eff_change_line_tail_post(*old(self), *final(self), _k, r),
    {
        let delete_range = self.line_tail_range();
        assert(self.rb.lines()[self.rb.cursor.row as int] == self.cur_line());
        self.create_edit_state(&delete_range, Vec::new(), Vec::new());
        INSERT.to_owned()
    }

    /// From the cursor to the end of its row, the line end excluded.
    pub open spec fn line_tail_spec(&self) -> CursorRange {
        CursorRange {
            start: self.rb.cursor,
            end: if self.cur_line().len() == 1 {
                self.rb.cursor
            } else {
                Cursor { row: self.rb.cursor.row, col: (self.cur_line().len() - 1) as usize }
            },
        }
    }

    /// What `eff_delete_line_tail` does: the value `s1` and the state `r` it leaves from `s0` with the key `_k`.
    pub open spec fn eff_delete_line_tail_post(s0: EditBuffer, s1: EditBuffer, _k: Key, r: String) -> bool {
        &&& r@ == INIT@
        &&& committed_edit(s0, s1, s0.line_tail_spec(), Seq::empty(), Seq::empty())
        &&& s1.clipboard.x matches Some(t) && type_view(t) == (false, deleted_text(
            s0.rb.lines(),
            s0.line_tail_spec(),
        ))
    }

    /// Deletes the rest of the row into the clipboard.
    pub fn eff_delete_line_tail(&mut self, _k: Key) -> (r: String)
        requires
            old(self).edit_ready(0),
        ensures
            Self::eff_delete_line_tail_post(*old(self), *final(self), _k, r),
    {
        let delete_range = self.line_tail_range();
        assert(self.rb.lines()[self.rb.cursor.row as int] == self.cur_line());
        let removed = self.delete_range(delete_range);
        self.clipboard.copy(Type::Range(removed));
        INIT.to_owned()
    }

    /// What `eff_delete_line` does: the value `s1` and the state `r` it leaves from `s0` with the key `_k`.
    pub open spec fn eff_delete_line_post(s0: EditBuffer, s1: EditBuffer, _k: Key, r: String) -> bool {
        &&& r@ == INIT@
        &&& committed_edit(
            s0,
            s1,
            row_range(s0.rb.cursor.row, s0.cur_line().len() as int),
            Seq::empty(),
            Seq::empty(),
        )
        &&& s1.clipboard.x matches Some(t) && type_view(t) == (true, deleted_text(
            s0.rb.lines(),
            row_range(s0.rb.cursor.row, s0.cur_line().len() as int),
        ))
    }

    /// Deletes the cursor's row into the clipboard, as a line.
    pub fn eff_delete_line(&mut self, _k: Key) -> (r: String)
        requires
            old(self).edit_ready(0),
        ensures
            Self::eff_delete_line_post(*old(self), *final(self), _k, r),
    {
        let range = CursorRange {
            start: Cursor { row: self.rb.cursor.row, col: 0 },
            end: Cursor { row: self.rb.cursor.row, col: self.rb.buf[self.rb.cursor.row].len() },
        };
        assert(self.rb.lines()[self.rb.cursor.row as int] == self.cur_line());
        let removed = self.delete_range(range);
        self.clipboard.copy(Type::Line(removed));
        INIT.to_owned()
    }

    /// What `eff_delete_range` does: the value `s1` and the state `r` it leaves from `s0` with the key `_k`.
    pub open spec fn eff_delete_range_post(s0: EditBuffer, s1: EditBuffer, _k: Key, r: String) -> bool {
        &&& s0.visual_cursor is None ==> r@ == WILL_DELETE@ && s1 == s0
        &&& s0.visual_cursor is Some ==> {
            &&& r@ == INIT@
            &&& committed_edit(
                s0,
                s1,
                spec_visual_range(s0)->0,
                Seq::empty(),
                Seq::empty(),
            )
            &&& s1.clipboard.x matches Some(t) && type_view(t) == (false, deleted_text(
                s0.rb.lines(),
                spec_visual_range(s0)->0,
            ))
        }
    }

    /// Without a selection, waits for what to delete; with one, deletes it
    /// into the clipboard.
    pub fn eff_delete_range(&mut self, _k: Key) -> (r: String)
        requires
            old(self).edit_ready(0),
            visual_ok(*old(self)),
        ensures
            Self::eff_delete_range_post(*old(self), *final(self), _k, r),
    {
        proof {
            self.lemma_cols_bounded();
        }
        match self.visual_range() {
            None => WILL_DELETE.to_owned(),
            Some(vr) => {
                proof {
                    self.lemma_visual_deletable();
                }
                let removed = self.delete_range(vr);
                self.clipboard.copy(Type::Range(removed));
                INIT.to_owned()
            },
        }
    }

    /// What `eff_delete_char` does: the value `s1` and the state `r` it leaves from `s0` with the key `_k`.
    pub open spec fn eff_delete_char_post(s0: EditBuffer, s1: EditBuffer, _k: Key, r: String) -> bool {
        &&& r@ == INIT@
        &&& ({
            let range = match spec_visual_range(s0) {
                Some(vr) => vr,
                None => CursorRange { start: s0.rb.cursor, end: spec_range_end(s0.rb.cursor) },
            };
            &&& committed_edit(s0, s1, range, Seq::empty(), Seq::empty())
            &&& s1.clipboard.x matches Some(t) && type_view(t) == (false, deleted_text(
                s0.rb.lines(),
                range,
            ))
        })
    }

    /// Deletes the selection, or the element under the cursor, into the
    /// clipboard.
    pub fn eff_delete_char(&mut self, _k: Key) -> (r: String)
        requires
            old(self).edit_ready(0),
            visual_ok(*old(self)),
        ensures
            Self::eff_delete_char_post(*old(self), *final(self), _k, r),
    {
        proof {
            self.lemma_cols_bounded();
        }
        let range = match self.visual_range() {
            Some(vr) => {
                proof {
                    self.lemma_visual_deletable();
                }
                vr
            },
            None => CursorRange { start: self.rb.cursor, end: to_cursor_range_end(self.rb.cursor) },
        };
        assert(self.rb.lines()[self.rb.cursor.row as int] == self.cur_line());
        let removed = self.delete_range(range);
        self.clipboard.copy(Type::Range(removed));
        INIT.to_owned()
    }

    /// What `eff_delete_word` does: the value `s1` and the state `r` it leaves from `s0` with the key `_k`.
    pub open spec fn eff_delete_word_post(s0: EditBuffer, s1: EditBuffer, _k: Key, r: String) -> bool {
        &&& r@ == INIT@
        &&& !spec_is_word_char(s0.cur_line()[s0.rb.cursor.col as int]) ==> s1 == s0
        &&& spec_is_word_char(s0.cur_line()[s0.rb.cursor.col as int]) ==> {
            let line = s0.cur_line();
            let c = s0.rb.cursor;
            let range = CursorRange {
                start: Cursor { row: c.row, col: word_lo(line, c.col as int) as usize },
                end: Cursor { row: c.row, col: word_hi(line, c.col as int) as usize },
            };
            &&& committed_edit(s0, s1, range, Seq::empty(), Seq::empty())
            &&& s1.clipboard.x matches Some(t) && type_view(t) == (false, deleted_text(
                s0.rb.lines(),
                range,
            ))
        }
    }

    /// Deletes the word under the cursor into the clipboard; off a word nothing
    /// happens.
    pub fn eff_delete_word(&mut self, _k: Key) -> (r: String)
        requires
            old(self).edit_ready(0),
        ensures
            Self::eff_delete_word_post(*old(self), *final(self), _k, r),
    {
        match self.word_range() {
            Some(range) => {
                proof {
                    let line = self.cur_line();
                    let col = self.rb.cursor.col as int;
                    super::diff_tree::lemma_word_lo_le(line, col);
                    lemma_word_hi_le(line, col);
                    assert(self.rb.lines()[self.rb.cursor.row as int] == line);
                }
                let removed = self.delete_range(range);
                self.clipboard.copy(Type::Range(removed));
            },
            None => {},
        }
        INIT.to_owned()
    }

    /// What `eff_commit_replace_once` does: the value `s1` and the state `r` it leaves from `s0` with the key `k`.
    pub open spec fn eff_commit_replace_once_post(s0: EditBuffer, s1: EditBuffer, k: Key, r: String) -> bool {
        &&& !(k is Char) ==> r@ == REPLACE_ONCE@ && s1 == s0
        &&& k is Char && s0.cur_line()[s0.rb.cursor.col as int] == BufElem::Eol ==> r@ == INIT@ && s1 == s0
        &&& k is Char && s0.cur_line()[s0.rb.cursor.col as int] != BufElem::Eol ==> {
            &&& r@ == INIT@
            &&& committed_edit(
                s0,
                s1,
                CursorRange { start: s0.rb.cursor, end: spec_range_end(s0.rb.cursor) },
                seq![BufElem::Char(k->Char_0)],
                Seq::empty(),
            )
        }
    }

    /// Replaces the element under the cursor by the typed character; a line
    /// end is left alone, and other keys wait.
    pub fn eff_commit_replace_once(&mut self, k: Key) -> (r: String)
        requires
            old(self).edit_ready(1),
        ensures
            Self::eff_commit_replace_once_post(*old(self), *final(self), k, r),
    {
        match k {
            Key::Char(c) => {
                assert(self.rb.lines()[self.rb.cursor.row as int] == self.cur_line());
                let before = self.rb.buf[self.rb.cursor.row][self.rb.cursor.col];
                if before == BufElem::Eol {
                    INIT.to_owned()
                } else {
                    let delete_range = CursorRange {
                        start: self.rb.cursor,
                        end: to_cursor_range_end(self.rb.cursor),
                    };
                    let mut v: Vec<BufElem> = Vec::new();
                    v.push(BufElem::Char(c));
                    assert(self.rb.lines()[self.rb.cursor.row as int] == self.cur_line());
                    self.edit_and_commit(&delete_range, v, Vec::new());
                    INIT.to_owned()
                }
            },
            _ => REPLACE_ONCE.to_owned(),
        }
    }
}

/// The end of a word is within the line.
pub proof fn lemma_word_hi_le(s: Seq<BufElem>, col: int)
    requires
        0 <= col < s.len(),
    ensures
        col < word_hi(s, col) <= s.len(),
    decreases s.len() - col,
{
    if col + 1 < s.len() && spec_is_word_char(s[col + 1]) {
        lemma_word_hi_le(s, col + 1);
    }
}


impl EditBuffer {
    /// What the range holds, read by deleting it and undoing the deletion:
    /// the buffer is as before. The range must hold something.
    pub fn get_buffer(&mut self, range: CursorRange) -> (r: Vec<BufElem>)
        requires
            old(self).can_edit(range, 0),
            deleted_text(old(self).rb.lines(), range).len() > 0,
        ensures
            r@ == deleted_text(old(self).rb.lines(), range),
            final(self).wf(),
            final(self).edit_state is None,
            final(self).rb.lines() == old(self).rb.lines(),
            final(self).rb.cursor == range.start,
            final(self).visual_cursor is None,
            final(self).clipboard == old(self).clipboard,
            final(self).snippet_repo == old(self).snippet_repo,
            final(self).request == old(self).request,
            final(self).config == old(self).config,
            final(self).rb.state == old(self).rb.state,
            final(self).rb.window == old(self).rb.window,
    {
        let ghost ls = self.rb.lines();
        let ghost l = edit_log(ls, range, Seq::empty());
        self.delete_range(range);
        let to_copy = match self.change_log_buffer.peek() {
            Some(log) => super::change_log::copy_elems(&log.deleted),
            None => Vec::new(),
        };
        proof {
            assert(Seq::<BufElem>::empty() + Seq::<BufElem>::empty() == Seq::<BufElem>::empty());
            lemma_apply_rows(ls, l);
        }
        self.undo();
        proof {
            super::change_log::law_swap_involutive(l);
        }
        to_copy
    }

    /// What `eff_yank_range` does: the value `s1` and the state `r` it leaves from `s0` with the key `_k`.
    pub open spec fn eff_yank_range_post(s0: EditBuffer, s1: EditBuffer, _k: Key, r: String) -> bool {
        &&& s0.visual_cursor is None ==> r@ == WILL_YANK@ && s1 == s0
        &&& s0.visual_cursor is Some ==> {
            &&& r@ == INIT@
            &&& s1.wf()
            &&& s1.edit_state is None
            &&& s1.rb.lines() == s0.rb.lines()
            &&& s1.rb.cursor == s0.rb.cursor
            &&& s1.clipboard.x matches Some(t) && type_view(t) == (false, deleted_text(
                s0.rb.lines(),
                spec_visual_range(s0)->0,
            ))
        }
    }

    /// Without a selection, waits for what to yank; with one, copies it into
    /// the clipboard, leaving the buffer and the cursor as they were.
    pub fn eff_yank_range(&mut self, _k: Key) -> (r: String)
        requires
            old(self).edit_ready(0),
            visual_ok(*old(self)),
            old(self).visual_cursor is Some ==> deleted_text(old(self).rb.lines(), spec_visual_range(*old(self))->0).len()
                > 0,
        ensures
            Self::eff_yank_range_post(*old(self), *final(self), _k, r),
    {
        let orig_cursor = self.rb.cursor;
        proof {
            self.lemma_cols_bounded();
        }
        let vr = self.visual_range();
        match vr {
            None => WILL_YANK.to_owned(),
            Some(vr) => {
                proof {
                    self.lemma_visual_deletable();
                }
                let to_copy = self.get_buffer(vr);
                self.clipboard.copy(Type::Range(to_copy));
                self.rb.cursor = orig_cursor;
                INIT.to_owned()
            },
        }
    }

    /// What `eff_yank_line` does: the value `s1` and the state `r` it leaves from `s0` with the key `_k`.
    pub open spec fn eff_yank_line_post(s0: EditBuffer, s1: EditBuffer, _k: Key, r: String) -> bool {
        &&& r@ == INIT@
        &&& s1.wf()
        &&& s1.edit_state is None
        &&& s1.rb.lines() == s0.rb.lines()
        &&& s1.clipboard.x matches Some(t) && type_view(t) == (true, deleted_text(
            s0.rb.lines(),
            row_range(s0.rb.cursor.row, s0.cur_line().len() as int),
        ))
    }

    /// Copies the cursor's row into the clipboard, as a line, leaving the
    /// buffer as it was. The row must hold something that can be taken.
    pub fn eff_yank_line(&mut self, _k: Key) -> (r: String)
        requires
            old(self).edit_ready(0),
            deleted_text(old(self).rb.lines(), row_range(old(self).rb.cursor.row, old(self).cur_line().len() as int)).len()
                > 0,
        ensures
            Self::eff_yank_line_post(*old(self), *final(self), _k, r),
    {
        let range = CursorRange {
            start: Cursor { row: self.rb.cursor.row, col: 0 },
            end: Cursor { row: self.rb.cursor.row, col: self.rb.buf[self.rb.cursor.row].len() },
        };
        assert(self.rb.lines()[self.rb.cursor.row as int] == self.cur_line());
        let to_copy = self.get_buffer(range);
        self.clipboard.copy(Type::Line(to_copy));
        INIT.to_owned()
    }

    /// What `eff_paste_system` does: the value `s1` and the state `r` it leaves from `s0` with the key `_k`.
    pub open spec fn eff_paste_system_post(s0: EditBuffer, s1: EditBuffer, _k: Key, r: String) -> bool {
        &&& s0.wf() ==> s1.wf()
        &&& s1.snippet_repo == s0.snippet_repo
        &&& r@ == INIT@
        &&& s1.request == Some(Request::PasteSystem)
        &&& s1.rb == s0.rb
        &&& s1.edit_state == s0.edit_state
        &&& s1.change_log_buffer == s0.change_log_buffer
    }

    /// Asks the application for the system clipboard.
    pub fn eff_paste_system(&mut self, _k: Key) -> (r: String)
        ensures
            Self::eff_paste_system_post(*old(self), *final(self), _k, r),
    {
        self.request = Some(Request::PasteSystem);
        INIT.to_owned()
    }

    /// Inserts `v` at the cursor as a recorded edit.
    fn insert_at_cursor(&mut self, v: Vec<BufElem>)
        requires
            old(self).edit_ready(v@.len()),
        ensures
            final(self).wf(),
            final(self).edit_state is None,
            final(self).rb.lines() == apply_rows(
                old(self).rb.lines(),
                LogView { at: old(self).rb.cursor, deleted: Seq::empty(), inserted: v@ },
            ),
            final(self).change_log_buffer.buf.undo_queue@.last()@ == (LogView {
                at: old(self).rb.cursor,
                deleted: Seq::empty(),
                inserted: v@,
            }),
            final(self).change_log_buffer.buf.undo_queue@.len() > 0,
            final(self).change_log_buffer.buf.redo_stack@.len() == 0,
            old(self).change_log_buffer.next_stamp < u64::MAX ==> final(self).spec_dirty(),
            final(self).rb.cursor == old(self).rb.cursor,
            final(self).clipboard == old(self).clipboard,
            final(self).snippet_repo == old(self).snippet_repo,
            final(self).request == old(self).request,
            final(self).visual_cursor == old(self).visual_cursor,
            final(self).config == old(self).config,
            final(self).rb.state == old(self).rb.state,
            final(self).rb.window == old(self).rb.window,
    {
        let ghost ls = self.rb.lines();
        let log = super::change_log::ChangeLog::new(self.rb.cursor, Vec::new(), v);
        let ghost q = self.change_log_buffer.buf.undo_queue@;
        proof {
            assert(self.rb.lines()[self.rb.cursor.row as int] == self.cur_line());
            let t = flatten(ls);
            let o = super::text::offset(ls, log.at);
            super::text::lemma_flatten_index(ls, log.at.row as int, log.at.col as int);
            assert(t.subrange(o, o) == Seq::<BufElem>::empty());
            assert(applicable(ls, log@));
            lemma_apply_rows(ls, log@);
        }
        let c = log.clone();
        self.change_log_buffer.push(c);
        proof {
            let q2 = q.push(self.change_log_buffer.buf.undo_queue@.last());
            assert(q2.drop_last() == q);
            if q2.len() > super::change_log::CHANGE_LOG_CAPACITY {
                super::history::lemma_undo_chain_suffix(
                    apply_rows(ls, log@),
                    q2,
                    q2.len() - super::change_log::CHANGE_LOG_CAPACITY,
                );
                assert(q2.skip(q2.len() - super::change_log::CHANGE_LOG_CAPACITY) == q2.subrange(
                    q2.len() - super::change_log::CHANGE_LOG_CAPACITY,
                    q2.len() as int,
                ));
            }
        }
        self.apply_log(&log);
        proof {
            super::text::lemma_materialize_flatten(self.rb.lines());
        }
    }

    /// Inserts what the system clipboard held at the cursor, as a recorded
    /// edit; when it held nothing, says so.
    pub fn paste_system(&mut self, pasted: Option<Vec<char>>)
        requires
            old(self).edit_ready(match pasted { Some(p) => p@.len(), None => 0 }),
        ensures
            pasted is None ==> final(self).rb.message_box.buf@ == "nothing to paste"@ && final(self).rb.buf == old(self).rb.buf,
            pasted matches Some(p) ==> old(self).change_log_buffer.next_stamp < u64::MAX ==> final(self).spec_dirty(),
            pasted matches Some(p) ==> final(self).rb.lines() == apply_rows(
                old(self).rb.lines(),
                LogView {
                    at: old(self).rb.cursor,
                    deleted: Seq::empty(),
                    inserted: super::clipboard::elems_of_text(p@),
                },
            ),
            final(self).wf(),
            final(self).edit_state is None,
    {
        match pasted {
            None => {
                self.rb.message_box.send("nothing to paste");
            },
            Some(p) => {
                let v = super::clipboard::from_str(p.as_slice());
                self.insert_at_cursor(v);
            },
        }
    }
}


/// The length of what the clipboard holds.
pub open spec fn clip_len(eb: EditBuffer) -> nat {
    match eb.clipboard.x {
        Some(t) => type_view(t).1.len(),
        None => 0,
    }
}

impl EditBuffer {
    /// What `eff_paste` does: the value `s1` and the state `r` it leaves from `s0` with the key `_k`.
    pub open spec fn eff_paste_post(s0: EditBuffer, s1: EditBuffer, _k: Key, r: String) -> bool {
        &&& r@ == INIT@
        &&& s1.wf()
        &&& s1.edit_state is None
        &&& s0.clipboard.x is None ==> s1.rb.message_box.buf@ == "yank not found"@ && s1.rb.buf
            == s0.rb.buf && s1.rb.cursor == s0.rb.cursor && s1.change_log_buffer == s0.change_log_buffer
        &&& s0.clipboard.x is Some && !type_view(s0.clipboard.x->0).0 ==> {
            let t = s0.clipboard.x->0;
            let c = s0.rb.cursor;
            let c2 = Cursor {
                row: c.row,
                col: if c.col < s0.cur_line().len() - 1 { (c.col + 1) as usize } else { c.col },
            };
            let l = LogView { at: c2, deleted: Seq::empty(), inserted: type_view(t).1 };
            &&& s1.rb.lines() == apply_rows(s0.rb.lines(), l)
            &&& s1.rb.cursor == c2
            &&& s1.change_log_buffer.buf.undo_queue@.len() > 0
            &&& s1.change_log_buffer.buf.undo_queue@.last()@ == l
            &&& s1.change_log_buffer.buf.redo_stack@.len() == 0
            &&& s0.change_log_buffer.next_stamp < u64::MAX ==> s1.spec_dirty()
            &&& s1.clipboard == s0.clipboard
        }
        &&& s0.clipboard.x is Some && type_view(s0.clipboard.x->0).0 ==> {
            let t = s0.clipboard.x->0;
            let line = s0.cur_line();
            let range = at_range(Cursor { row: s0.rb.cursor.row, col: (line.len() - 1) as usize });
            let ins = seq![BufElem::Eol] + spec_trim_right(type_view(t).1);
            &&& committed_rows(s0, s1, range, ins, Seq::empty())
            &&& s1.rb.cursor == (Cursor {
                row: cursor_after(range, flatten(del_region(s0.rb.lines(), range)).take(range.start.col as int) + ins).row,
                col: 0,
            })
        }
    }

    /// Pastes the clipboard: part of a line after the cursor, whole lines
    /// below the cursor's row (with the cursor at the head of the first). An
    /// empty clipboard is reported.
    pub fn eff_paste(&mut self, _k: Key) -> (r: String)
        requires
            old(self).edit_ready(clip_len(*old(self)) + 1),
        ensures
            Self::eff_paste_post(*old(self), *final(self), _k, r),
    {
        let pasted = self.clipboard.paste();
        match pasted {
            None => {
                self.rb.message_box.send("yank not found");
                INIT.to_owned()
            },
            Some(Type::Range(v)) => {
                self.rb.cursor_right();
                proof {
                    assert(self.rb.lines() == old(self).rb.lines());
                }
                self.insert_at_cursor(v);
                INIT.to_owned()
            },
            Some(Type::Line(v)) => {
                let row = self.rb.cursor.row;
                let n = self.rb.buf[row].len();
                let delete_range = CursorRange { start: Cursor { row, col: n - 1 }, end: Cursor { row, col: n - 1 } };
                let mut v = trim_right(v);
                let mut vv: Vec<BufElem> = Vec::new();
                vv.push(BufElem::Eol);
                vv.append(&mut v);
                assert(self.rb.lines()[row as int] == self.cur_line());
                self.edit_and_commit(&delete_range, vv, Vec::new());
                self.rb.jump_line_head();
                INIT.to_owned()
            },
        }
    }

    /// What `eff_paste_above` does: the value `s1` and the state `r` it leaves from `s0` with the key `_k`.
    pub open spec fn eff_paste_above_post(s0: EditBuffer, s1: EditBuffer, _k: Key, r: String) -> bool {
        &&& r@ == INIT@
        &&& s0.clipboard.x is None ==> s1 == s0
        &&& s0.clipboard.x is Some && type_view(s0.clipboard.x->0).0 ==> {
            let t = s0.clipboard.x->0;
            let range = at_range(Cursor { row: s0.rb.cursor.row, col: 0 });
            let ins = spec_trim_right(type_view(t).1).push(BufElem::Eol);
            let after = cursor_after(range, flatten(del_region(s0.rb.lines(), range)).take(0) + ins);
            &&& committed_rows(s0, s1, range, ins, Seq::empty())
            &&& s1.rb.cursor == (Cursor { row: if after.row > 0 { (after.row - 1) as usize } else { 0 }, col: 0 })
        }
        &&& s0.clipboard.x is Some && !type_view(s0.clipboard.x->0).0 ==> {
            let t = s0.clipboard.x->0;
            let range = at_range(Cursor { row: s0.rb.cursor.row, col: blank_prefix(s0.cur_line()) as usize });
            committed_edit(s0, s1, range, type_view(t).1, Seq::empty())
        }
    }

    /// Pastes the clipboard above: whole lines above the cursor's row (with
    /// the cursor at the head of the first), part of a line before the first
    /// non-blank element of the row. An empty clipboard does nothing.
    pub fn eff_paste_above(&mut self, _k: Key) -> (r: String)
        requires
            old(self).edit_ready(clip_len(*old(self)) + 1),
        ensures
            Self::eff_paste_above_post(*old(self), *final(self), _k, r),
    {
        let pasted = self.clipboard.paste();
        match pasted {
            None => INIT.to_owned(),
            Some(Type::Line(v)) => {
                let mut v = trim_right(v);
                v.push(BufElem::Eol);
                let row = self.rb.cursor.row;
                let delete_range = CursorRange { start: Cursor { row, col: 0 }, end: Cursor { row, col: 0 } };
                assert(self.rb.lines()[row as int] == self.cur_line());
                self.edit_and_commit(&delete_range, v, Vec::new());
                self.rb.cursor_up();
                self.rb.jump_line_head();
                INIT.to_owned()
            },
            Some(Type::Range(v)) => {
                let row = self.rb.cursor.row;
                let line = self.rb.line(row);
                proof {
                    assert(line@[line@.len() - 1] == BufElem::Eol) by {
                        assert(self.rb.lines()[row as int] == self.cur_line());
                        assert(line_wf(self.rb.lines()[row as int]));
                        assert(line@ == self.cur_line());
                    }
                    assert(!crate::read_buffer::is_blank(line@[line@.len() - 1]));
                }
                let col = line.first_non_space_index();
                proof {
                    super::indent::lemma_indent_len(line@, col as int);
                }
                let delete_range = CursorRange { start: Cursor { row, col }, end: Cursor { row, col } };
                assert(self.rb.lines()[row as int] == self.cur_line());
                self.edit_and_commit(&delete_range, v, Vec::new());
                INIT.to_owned()
            },
        }
    }
}


/// The length of the common start of two sequences.
pub open spec fn common_len(a: Seq<BufElem>, b: Seq<BufElem>) -> nat
    decreases a.len(),
{
    if a.len() == 0 || b.len() == 0 || a[0] != b[0] {
        0
    } else {
        1 + common_len(a.drop_first(), b.drop_first())
    }
}

pub proof fn lemma_common_len(a: Seq<BufElem>, b: Seq<BufElem>, k: int)
    requires
        0 <= k <= a.len(),
        k <= b.len(),
        forall|i: int| 0 <= i < k ==> a[i] == b[i],
        k == a.len() || k == b.len() || a[k] != b[k],
    ensures
        common_len(a, b) == k,
    decreases a.len(),
{
    if k > 0 {
        assert(a[0] == b[0]);
        let a2 = a.drop_first();
        let b2 = b.drop_first();
        assert forall|i: int| 0 <= i < k - 1 implies a2[i] == b2[i] by {
            assert(a2[i] == a[i + 1] && b2[i] == b[i + 1]);
        }
        if k < a.len() && k < b.len() {
            assert(a2[k - 1] == a[k] && b2[k - 1] == b[k]);
        }
        lemma_common_len(a2, b2, k - 1);
    }
}

pub proof fn lemma_common_len_le(a: Seq<BufElem>, b: Seq<BufElem>)
    ensures
        common_len(a, b) <= a.len(),
    decreases a.len(),
{
    if !(a.len() == 0 || b.len() == 0 || a[0] != b[0]) {
        lemma_common_len_le(a.drop_first(), b.drop_first());
    }
}

/// An edit within a row, not touching its line end, changes only that row.
pub proof fn lemma_apply_in_row(ls: Seq<Seq<BufElem>>, r: int, a: int, b: int, ins: Seq<BufElem>)
    requires
        rows_wf(ls),
        0 <= r < ls.len(),
        0 <= a <= b < ls[r].len(),
        forall|i: int| 0 <= i < ins.len() ==> ins[i] != BufElem::Eol,
        r <= usize::MAX && a <= usize::MAX,
    ensures
        apply_rows(
            ls,
            LogView { at: Cursor { row: r as usize, col: a as usize }, deleted: ls[r].subrange(a, b), inserted: ins },
        ) == ls.update(r, ls[r].take(a) + ins + ls[r].skip(b)),
{
    let p = ls.take(r);
    let s = ls.skip(r + 1);
    let row = ls[r];
    assert(ls == p + seq![row] + s);
    super::text::lemma_flatten_concat(p + seq![row], s);
    super::text::lemma_flatten_concat(p, seq![row]);
    assert(seq![row].drop_last() == Seq::<Seq<BufElem>>::empty());
    assert(flatten(Seq::<Seq<BufElem>>::empty()) == Seq::<BufElem>::empty());
    assert(flatten(seq![row]) == Seq::<BufElem>::empty() + row);
    assert(Seq::<BufElem>::empty() + row == row);
    let t = flatten(ls);
    assert(t == flatten(p) + row + flatten(s));
    let o = flatten(p).len() + a;
    assert(super::text::offset(ls, Cursor { row: r as usize, col: a as usize }) == o);
    let row2 = row.take(a) + ins + row.skip(b);
    assert(line_wf(row));
    assert(line_wf(row2)) by {
        assert(row2.last() == row.last());
        assert forall|i: int| 0 <= i < row2.len() - 1 implies row2[i] != BufElem::Eol by {
            if i < a {
                assert(row2[i] == row[i]);
            } else if i < a + ins.len() {
                assert(row2[i] == ins[i - a]);
            } else {
                assert(row2[i] == row[i - a - ins.len() + b]);
            }
        }
    }
    let t2 = super::text::replace(t, o, b - a, ins);
    assert(t2 == flatten(p) + row2 + flatten(s));
    assert(all_lines_wf(p)) by {
        assert forall|i: int| 0 <= i < p.len() implies #[trigger] line_wf(p[i]) by {
            assert(p[i] == ls[i]);
        }
    }
    assert(all_lines_wf(s)) by {
        assert forall|i: int| 0 <= i < s.len() implies #[trigger] line_wf(s[i]) by {
            assert(s[i] == ls[i + r + 1]);
        }
    }
    super::text::lemma_materialize_sandwich(p, row2, s);
    super::text::lemma_lines_of_line(row2);
    assert(super::text::materialize(row2) == seq![row2]);
    assert(p + seq![row2] + s == ls.update(r, row2));
}

/// What a range within a row, not touching its line end, deletes.
pub proof fn lemma_deleted_in_row(ls: Seq<Seq<BufElem>>, r: usize, a: usize, b: usize)
    requires
        all_lines_wf(ls),
        r < ls.len(),
        a <= b < ls[r as int].len(),
    ensures
        deleted_text(ls, CursorRange { start: Cursor { row: r, col: a }, end: Cursor { row: r, col: b } }) == ls[r as int].subrange(
            a as int,
            b as int,
        ),
        deletable(ls, CursorRange { start: Cursor { row: r, col: a }, end: Cursor { row: r, col: b } }),
{
    let rg = CursorRange { start: Cursor { row: r, col: a }, end: Cursor { row: r, col: b } };
    let region = del_region(ls, rg);
    assert(region == seq![ls[r as int]]);
    assert(region.drop_last() == Seq::<Seq<BufElem>>::empty());
    assert(flatten(Seq::<Seq<BufElem>>::empty()) == Seq::<BufElem>::empty());
    assert(flatten(region) == Seq::<BufElem>::empty() + ls[r as int]);
    assert(Seq::<BufElem>::empty() + ls[r as int] == ls[r as int]);
    assert(region.take(0) == Seq::<Seq<BufElem>>::empty());
    assert(prefix_len(region, 0) == 0);
}

/// The rows with the rows from `lo` to `hi` without their common start with
/// `ind`.
pub open spec fn unindented(ls: Seq<Seq<BufElem>>, lo: int, hi: int, ind: Seq<BufElem>) -> Seq<Seq<BufElem>> {
    Seq::new(ls.len(), |i: int| if lo <= i < hi { ls[i].skip(common_len(ls[i], ind) as int) } else { ls[i] })
}

/// The rows with the rows from `lo` to `hi` indented by `ind`.
pub open spec fn indented(ls: Seq<Seq<BufElem>>, lo: int, hi: int, ind: Seq<BufElem>) -> Seq<Seq<BufElem>> {
    Seq::new(ls.len(), |i: int| if lo <= i < hi { ind + ls[i] } else { ls[i] })
}

impl EditBuffer {
    /// Deletes, as a recorded edit, what the row starts with of `indent`.
    pub fn indent_back_line(&mut self, row: usize, indent: &[BufElem])
        requires
            old(self).wf(),
            old(self).edit_state is None,
            old(self).text().len() + 1 <= max_size(),
            row < old(self).rb.buf@.len(),
            forall|i: int| 0 <= i < indent@.len() ==> indent@[i] != BufElem::Eol,
        ensures
            final(self).wf(),
            final(self).edit_state is None,
            final(self).rb.lines() == old(self).rb.lines().update(
                row as int,
                old(self).rb.lines()[row as int].skip(common_len(old(self).rb.lines()[row as int], indent@) as int),
            ),
            final(self).visual_cursor is None,
            final(self).config == old(self).config,
            final(self).clipboard == old(self).clipboard,
            final(self).snippet_repo == old(self).snippet_repo,
            final(self).request == old(self).request,
            final(self).rb.state == old(self).rb.state,
            final(self).rb.window == old(self).rb.window,
    {
        let ghost ls = self.rb.lines();
        let ghost line = ls[row as int];
        assert(line == self.rb.buf@[row as int]@);
        assert(line_wf(line));
        let mut cnt: usize = 0;
        let mut i: usize = 0;
        while i < indent.len()
            invariant
                i <= indent@.len(),
                cnt == i,
                row < self.rb.buf@.len(),
                line == self.rb.buf@[row as int]@,
                line_wf(line),
                forall|j: int| 0 <= j < indent@.len() ==> indent@[j] != BufElem::Eol,
                forall|j: int| 0 <= j < i ==> line[j] == indent@[j],
                i < line.len(),
            ensures
                cnt == i,
                i <= indent@.len(),
                i < line.len(),
                forall|j: int| 0 <= j < i ==> line[j] == indent@[j],
                i == indent@.len() || line[i as int] != indent@[i as int],
            decreases indent@.len() - i,
        {
            if self.rb.buf[row][i] != indent[i] {
                break;
            }
            cnt = cnt + 1;
            i = i + 1;
            proof {
                if i >= line.len() {
                    assert(line[i - 1] == BufElem::Eol);
                }
                if i == line.len() - 1 {
                    assert(line[i - 1] != BufElem::Eol);
                }
            }
        }
        proof {
            lemma_common_len(line, indent@, cnt as int);
            if cnt == line.len() - 1 {
                assert(line[cnt as int] == BufElem::Eol);
            }
            lemma_deleted_in_row(ls, row, 0, cnt);
            lemma_apply_in_row(ls, row as int, 0, cnt as int, Seq::empty());
            assert(line.take(0) + Seq::<BufElem>::empty() + line.skip(cnt as int) == line.skip(cnt as int));
            assert(Seq::<BufElem>::empty() + Seq::<BufElem>::empty() == Seq::<BufElem>::empty());
        }
        self.delete_range(
            CursorRange { start: Cursor { row, col: 0 }, end: Cursor { row, col: cnt } },
        );
    }

    /// Unindents the rows from `lo` to `hi`, each by one level.
    pub fn indent_back_range(&mut self, lo: usize, hi: usize)
        requires
            old(self).wf(),
            old(self).edit_state is None,
            old(self).text().len() + 1 <= max_size(),
            lo <= hi <= old(self).rb.buf@.len(),
        ensures
            final(self).wf(),
            final(self).edit_state is None,
            final(self).rb.lines() == unindented(
                old(self).rb.lines(),
                lo as int,
                hi as int,
                super::indent::indent_elems(old(self).config.indent_type),
            ),
            final(self).visual_cursor is None || final(self).visual_cursor == old(self).visual_cursor,
            final(self).config == old(self).config,
            final(self).clipboard == old(self).clipboard,
            final(self).snippet_repo == old(self).snippet_repo,
            final(self).request == old(self).request,
            final(self).rb.state == old(self).rb.state,
            final(self).rb.window == old(self).rb.window,
    {
        let ghost ls = self.rb.lines();
        let ind = super::indent::into_bufelems(self.config.indent_type);
        let mut row = lo;
        assert(unindented(ls, lo as int, lo as int, ind@) == ls);
        while row < hi
            invariant
                lo <= row <= hi <= ls.len(),
                self.wf(),
                self.edit_state is None,
                self.rb.lines() == unindented(ls, lo as int, row as int, ind@),
                ind@ == super::indent::indent_elems(old(self).config.indent_type),
                self.text().len() + 1 <= max_size(),
                self.visual_cursor is None || self.visual_cursor == old(self).visual_cursor,
                self.config == old(self).config,
                self.clipboard == old(self).clipboard,
                self.snippet_repo == old(self).snippet_repo,
                self.request == old(self).request,
                self.rb.state == old(self).rb.state,
                self.rb.window == old(self).rb.window,
            decreases hi - row,
        {
            assert(self.rb.lines().len() == self.rb.buf@.len());
            let ghost before = self.rb.lines();
            self.indent_back_line(row, ind.as_slice());
            assert(self.rb.lines() == unindented(ls, lo as int, row + 1, ind@));
            proof {
                lemma_text_update_len(before, row as int, before[row as int].skip(
                    common_len(before[row as int], ind@) as int,
                ));
                lemma_common_len_le(before[row as int], ind@);
            }
            row = row + 1;
        }
    }

    /// What `eff_indent_back` does: the value `s1` and the state `r` it leaves from `s0` with the key `_k`.
    pub open spec fn eff_indent_back_post(s0: EditBuffer, s1: EditBuffer, _k: Key, r: String) -> bool {
        &&& r@ == INIT@
        &&& s1.wf()
        &&& s1.edit_state is None
        &&& s1.visual_cursor is None
        &&& ({
            let (lo, hi) = match spec_visual_range(s0) {
                None => (s0.rb.cursor.row as int, s0.rb.cursor.row + 1),
                Some(vr) => (vr.start.row as int, vr.end.row + 1),
            };
            s1.rb.lines() == unindented(
                s0.rb.lines(),
                lo,
                hi,
                super::indent::indent_elems(s0.config.indent_type),
            )
        })
    }

    /// Unindents the cursor's row, or the rows of the selection, by one level.
    pub fn eff_indent_back(&mut self, _k: Key) -> (r: String)
        requires
            old(self).edit_ready(0),
            visual_ok(*old(self)),
        ensures
            Self::eff_indent_back_post(*old(self), *final(self), _k, r),
    {
        proof {
            self.lemma_cols_bounded();
        }
        match self.visual_range() {
            None => {
                self.indent_back_range(self.rb.cursor.row, self.rb.cursor.row + 1);
                INIT.to_owned()
            },
            Some(vr) => {
                self.indent_back_range(vr.start.row, vr.end.row + 1);
                self.visual_cursor = None;
                INIT.to_owned()
            },
        }
    }

    /// Indents the row by one level, as a recorded edit.
    pub fn indent_forward(&mut self, row: usize)
        requires
            old(self).wf(),
            old(self).edit_state is None,
            row < old(self).rb.buf@.len(),
            old(self).text().len() + super::indent::indent_elems(old(self).config.indent_type).len() + 1 <= max_size(),
        ensures
            final(self).wf(),
            final(self).edit_state is None,
            final(self).rb.lines() == old(self).rb.lines().update(
                row as int,
                super::indent::indent_elems(old(self).config.indent_type) + old(self).rb.lines()[row as int],
            ),
            final(self).config == old(self).config,
            final(self).clipboard == old(self).clipboard,
            final(self).snippet_repo == old(self).snippet_repo,
            final(self).request == old(self).request,
            final(self).rb.state == old(self).rb.state,
            final(self).rb.window == old(self).rb.window,
    {
        let ghost ls = self.rb.lines();
        let delete_range = CursorRange { start: Cursor { row, col: 0 }, end: Cursor { row, col: 0 } };
        let v = super::indent::into_bufelems(self.config.indent_type);
        proof {
            assert(line_wf(ls[row as int]));
            lemma_deleted_in_row(ls, row, 0, 0);
            lemma_apply_in_row(ls, row as int, 0, 0, v@);
            assert(ls[row as int].take(0) + v@ + ls[row as int].skip(0) == v@ + ls[row as int]);
            assert(v@ + Seq::<BufElem>::empty() == v@);
        }
        self.edit_and_commit(&delete_range, v, Vec::new());
    }

    /// What `eff_indent_forward` does: the value `s1` and the state `r` it leaves from `s0` with the key `_k`.
    pub open spec fn eff_indent_forward_post(s0: EditBuffer, s1: EditBuffer, _k: Key, r: String) -> bool {
        &&& r@ == INIT@
        &&& s1.wf()
        &&& s1.edit_state is None
        &&& ({
            let (lo, hi) = match spec_visual_range(s0) {
                None => (s0.rb.cursor.row as int, s0.rb.cursor.row + 1),
                Some(vr) => (vr.start.row as int, vr.end.row + 1),
            };
            s1.rb.lines() == indented(
                s0.rb.lines(),
                lo,
                hi,
                super::indent::indent_elems(s0.config.indent_type),
            )
        })
    }

    /// Indents the cursor's row, or the rows of the selection, by one level.
    pub fn eff_indent_forward(&mut self, _k: Key) -> (r: String)
        requires
            old(self).edit_ready(0),
            visual_ok(*old(self)),
            old(self).text().len() + (old(self).rb.buf@.len() + 1) * super::indent::indent_elems(
                old(self).config.indent_type,
            ).len() + 1 <= max_size(),
        ensures
            Self::eff_indent_forward_post(*old(self), *final(self), _k, r),
    {
        let ghost ls = self.rb.lines();
        let ghost ind = super::indent::indent_elems(self.config.indent_type);
        proof {
            self.lemma_cols_bounded();
        }
        let (lo, hi) = match self.visual_range() {
            None => (self.rb.cursor.row, self.rb.cursor.row + 1),
            Some(vr) => (vr.start.row, vr.end.row + 1),
        };
        assert(indented(ls, lo as int, lo as int, ind) == ls);
        let mut row = lo;
        while row < hi
            invariant
                lo <= row <= hi <= ls.len(),
                self.wf(),
                self.edit_state is None,
                self.rb.lines() == indented(ls, lo as int, row as int, ind),
                ind == super::indent::indent_elems(self.config.indent_type),
                flatten(ls).len() + (ls.len() + 1) * ind.len() + 1 <= max_size(),
                self.text().len() == flatten(ls).len() + (row - lo) * ind.len(),
            decreases hi - row,
        {
            assert(self.rb.lines().len() == self.rb.buf@.len());
            proof {
                let k = (row - lo) as int;
                let n = ls.len() as int;
                let w = ind.len() as int;
                assert((k + 1) * w <= (n + 1) * w) by (nonlinear_arith)
                    requires
                        0 <= k + 1 <= n + 1,
                        0 <= w,
                ;
                assert(k * w + w == (k + 1) * w) by (nonlinear_arith);
            }
            let ghost before = self.rb.lines();
            let ghost tb = self.text();
            self.indent_forward(row);
            proof {
                assert(self.rb.lines() == indented(ls, lo as int, row + 1, ind));
                lemma_text_update_len(before, row as int, ind + before[row as int]);
                let k = (row - lo) as int;
                let w = ind.len() as int;
                assert(k * w + w == (k + 1) * w) by (nonlinear_arith);
            }
            row = row + 1;
        }
        INIT.to_owned()
    }
}

/// Replacing a row changes the text's length by the difference.
pub proof fn lemma_text_update_len(ls: Seq<Seq<BufElem>>, r: int, row: Seq<BufElem>)
    requires
        0 <= r < ls.len(),
    ensures
        flatten(ls.update(r, row)).len() == flatten(ls).len() - ls[r].len() + row.len(),
{
    let p = ls.take(r);
    let s = ls.skip(r + 1);
    assert(ls == p + seq![ls[r]] + s);
    assert(ls.update(r, row) == p + seq![row] + s);
    super::text::lemma_flatten_concat(p + seq![ls[r]], s);
    super::text::lemma_flatten_concat(p, seq![ls[r]]);
    super::text::lemma_flatten_concat(p + seq![row], s);
    super::text::lemma_flatten_concat(p, seq![row]);
    assert(seq![row].drop_last() == Seq::<Seq<BufElem>>::empty());
    assert(seq![ls[r]].drop_last() == Seq::<Seq<BufElem>>::empty());
}


/// The largest buffer, line and window that the editor handles.
pub const MAX_SIZE: usize = usize::MAX / 8;

/// Typing `k` into the edit in progress leaves a buffer that fits.
pub open spec fn input_fits(eb: EditBuffer, k: Key) -> bool {
    eb.edit_state matches Some(es) && {
        let nv2 = super::diff_tree::input_effect(es.diff_buffer.diff_buf_raw, k).0;
        es.base_text().len() + es.diff_buffer.diff_buf_pre@.len() + super::diff_tree::flat(nv2, 0).len()
            + es.diff_buffer.diff_buf_post@.len() + 1 <= max_size()
    }
}

impl EditBuffer {
    /// The length of the text before the edit in progress started.
    pub(crate) fn base_len(&self) -> (r: usize)
        requires
            self.wf(),
            self.edit_state is Some,
        ensures
            r == self.edit_state->0.base_text().len(),
    {
        let es = match &self.edit_state {
            Some(es) => es,
            None => {
                return 0;
            },
        };
        let ghost kept = es.kept();
        let ghost a = es.at.row as int;
        proof {
            super::lemma_edit_bounds(*es);
            super::text::lemma_flatten_concat(kept.take(a), kept.skip(a));
            assert(kept.take(kept.len() as int) == kept);
        }
        let mut n: usize = 0;
        let mut i: usize = 0;
        while i < es.orig_buf.len()
            invariant
                i <= es.orig_buf@.len(),
                kept == crate::read_buffer::rows(es.orig_buf@),
                kept.take(kept.len() as int) == kept,
                flatten(kept).len() <= es.base_text().len(),
                es.base_text().len() <= max_size(),
                n == prefix_len(kept, i as int),
            decreases es.orig_buf@.len() - i,
        {
            proof {
                lemma_prefix_step(kept, i as int);
                lemma_prefix_mono(kept, i + 1, kept.len() as int);
                assert(kept[i as int] == es.orig_buf@[i as int]@);
            }
            n = n + es.orig_buf[i].len();
            i = i + 1;
        }
        n + es.diff_buffer.pre_buf_raw.len() + es.removed.len() + es.diff_buffer.post_buf_raw.len()
    }

    /// Whether typing `k` into the edit in progress leaves a buffer that fits.
    pub fn input_fits(&self, k: Key) -> (r: bool)
        requires
            self.wf(),
            self.edit_state is Some,
        ensures
            r == input_fits(*self, k),
    {
        let base = self.base_len();
        let es = match &self.edit_state {
            Some(es) => es,
            None => {
                return false;
            },
        };
        proof {
            super::lemma_edit_bounds(*es);
        }
        let mut t = es.diff_buffer.diff_buf_raw.copy();
        assert(t.text() == es.diff_buffer.diff_buf_raw.text());
        let ghost t0 = t;
        t.input(k);
        proof {
            assert(t0.typed_views() == es.diff_buffer.diff_buf_raw.typed_views());
            assert(super::diff_tree::input_effect(t0, k) == super::diff_tree::input_effect(es.diff_buffer.diff_buf_raw, k));
        }
        let tl = t.text_len_capped(MAX_SIZE);
        let pre = es.diff_buffer.diff_buf_pre.len();
        let post = es.diff_buffer.diff_buf_post.len();
        if tl >= MAX_SIZE || pre >= MAX_SIZE || post >= MAX_SIZE {
            return false;
        }
        base + pre + tl + post + 1 <= MAX_SIZE
    }

    /// What `eff_edit_mode_input` does: the value `s1` and the state `r` it leaves from `s0` with the key `k`.
    pub open spec fn eff_edit_mode_input_post(s0: EditBuffer, s1: EditBuffer, k: Key, r: String) -> bool {
        &&& r@ == INSERT@
        &&& s1.wf()
        &&& s1.edit_state matches Some(es) && {
            let es0 = s0.edit_state->0;
            &&& es.at == es0.at
            &&& es.removed == es0.removed
            &&& es.orig_buf == es0.orig_buf
            &&& es.diff_buffer.pre_buf_raw == es0.diff_buffer.pre_buf_raw
            &&& es.diff_buffer.diff_buf_pre == es0.diff_buffer.diff_buf_pre
            &&& es.diff_buffer.diff_buf_post == es0.diff_buffer.diff_buf_post
            &&& es.diff_buffer.post_buf_raw == es0.diff_buffer.post_buf_raw
            &&& es.diff_buffer.diff_buf_raw.node_views() == super::diff_tree::input_effect(
                es0.diff_buffer.diff_buf_raw,
                k,
            ).0
            &&& es.diff_buffer.diff_buf_raw.stack@ == super::diff_tree::input_effect(es0.diff_buffer.diff_buf_raw, k).1
            &&& s1.rb.lines() == es.shown()
            &&& s1.rb.cursor == es.shown_cursor()
            &&& super::snippet::searched(
                s0.snippet_repo,
                s1.snippet_repo,
                es.diff_buffer.diff_buf_raw.spec_current_word(),
            )
        }
        &&& s1.change_log_buffer == s0.change_log_buffer
        &&& s1.clipboard == s0.clipboard
        &&& s1.config == s0.config
    }

    /// Types a key into the edit in progress and shows the result.
    pub fn eff_edit_mode_input(&mut self, k: Key) -> (r: String)
        requires
            old(self).wf(),
            old(self).edit_state is Some,
            input_fits(*old(self), k),
        ensures
            Self::eff_edit_mode_input_post(*old(self), *final(self), k, r),
    {
        let ghost es0 = self.edit_state->0;
        proof {
            super::lemma_edit_bounds(es0);
            super::lemma_es_log(es0);
        }
        self.restore_buf_before_writeback();
        let mut es = self.edit_state.take().unwrap();
        es.diff_buffer.input(k);
        let w = es.diff_buffer.diff_buf_raw.current_word();
        self.snippet_repo.set_searcher(w);
        self.edit_state = Some(es);
        proof {
            let es1 = self.edit_state->0;
            assert(es1.kept() == es0.kept());
            assert(es1.base_text() == es0.base_text());
            assert(es1.ok());
        }
        self.writeback_edit_state();
        proof {
            let es1 = self.edit_state->0;
            super::lemma_edit_bounds(es1);
            let a = es1.at.row as int;
            super::text::lemma_materialize_sandwich(es1.kept().take(a), es1.text(), es1.kept().skip(a));
            super::text::lemma_materialize_wf(es1.text());
            assert(es1.base() == es0.base());
        }
        INSERT.to_owned()
    }
}

/// Deleting the element under the cursor and then undoing gives back the rows
/// and the cursor; redoing after that deletes it again.
pub proof fn law_delete_char_then_undo(
    s0: EditBuffer,
    s1: EditBuffer,
    s2: EditBuffer,
    s3: EditBuffer,
    k1: Key,
    k2: Key,
    k3: Key,
    r1: String,
    r2: String,
    r3: String,
)
    requires
        s0.wf(),
        s0.edit_state is None,
        spec_visual_range(s0) is None,
        s0.rb.cursor.row < s0.rb.lines().len(),
        s0.rb.cursor.col + 1 < s0.rb.lines()[s0.rb.cursor.row as int].len(),
        EditBuffer::eff_delete_char_post(s0, s1, k1, r1),
        EditBuffer::eff_undo_post(s1, s2, k2, r2),
        EditBuffer::eff_redo_post(s2, s3, k3, r3),
    ensures
        s2.rb.lines() == s0.rb.lines(),
        s2.rb.cursor == s0.rb.cursor,
        s3.rb.lines() == s1.rb.lines(),
{
    let ls = s0.rb.lines();
    let c = s0.rb.cursor;
    let range = CursorRange { start: c, end: spec_range_end(c) };
    let l = edit_log(ls, range, Seq::empty() + Seq::empty());
    assert(del_region(ls, range) =~= seq![ls[c.row as int]]);
    assert(prefix_len(del_region(ls, range), 0) == 0) by {
        assert(del_region(ls, range).take(0) =~= Seq::<Seq<BufElem>>::empty());
        crate::edit_buffer::text::lemma_prefix_step(del_region(ls, range), 0);
    }
    assert(del_local_end(ls, range) == c.col + 1);
    assert(l.deleted.len() == 1) by {
        crate::edit_buffer::text::lemma_prefix_step(del_region(ls, range), 0);
        assert(del_region(ls, range).take(1) =~= del_region(ls, range));
    }
    assert(s1.change_log_buffer.buf.undo_queue@.last()@ == l);
    super::history::law_undo_redo(ls, l);
}

/// Undoing the latest change and then redoing it gives back the rows.
pub proof fn law_undo_then_redo_rows(s0: EditBuffer, s1: EditBuffer, s2: EditBuffer, k1: Key, k2: Key, r1: String, r2: String)
    requires
        s0.wf(),
        s0.edit_state is None,
        s0.change_log_buffer.buf.undo_queue@.len() > 0,
        EditBuffer::eff_undo_post(s0, s1, k1, r1),
        EditBuffer::eff_redo_post(s1, s2, k2, r2),
    ensures
        s2.rb.lines() == s0.rb.lines(),
{
    let u = s0.change_log_buffer.buf.undo_queue@.last()@;
    super::history::law_undo_then_redo(s0.rb.lines(), u);
}

/// Redoing the latest undone change and then undoing it gives back the rows.
pub proof fn law_redo_then_undo_rows(s0: EditBuffer, s1: EditBuffer, s2: EditBuffer, k1: Key, k2: Key, r1: String, r2: String)
    requires
        s0.wf(),
        s0.edit_state is None,
        s0.change_log_buffer.buf.redo_stack@.len() > 0,
        EditBuffer::eff_redo_post(s0, s1, k1, r1),
        EditBuffer::eff_undo_post(s1, s2, k2, r2),
    ensures
        s2.rb.lines() == s0.rb.lines(),
{
    let t = s0.change_log_buffer.buf.redo_stack@.last()@;
    super::history::law_undo_redo(s0.rb.lines(), t);
}

/// Dropping a final line end, and putting one back, gives back the elements:
/// `trim_right` of a line is its characters, and it keeps elements that do
/// not end with a line end.
pub proof fn law_trim_right(x: Seq<BufElem>)
    ensures
        spec_trim_right(x.push(BufElem::Eol)) == x,
        !(x.len() > 0 && x.last() == BufElem::Eol) ==> spec_trim_right(x) == x,
        x.len() > 0 && x.last() == BufElem::Eol ==> spec_trim_right(x).push(BufElem::Eol) == x,
{
    assert(x.push(BufElem::Eol).drop_last() == x);
}

/// Inserting a line end and then the lines `v` without their last line end
/// just before the line end of row `row` puts the lines of `v` after that row.
proof fn lemma_insert_lines_after(ls: Seq<Seq<BufElem>>, at: Cursor, v: Seq<BufElem>)
    requires
        all_lines_wf(ls),
        at.row < ls.len(),
        at.col + 1 == ls[at.row as int].len(),
        crate::edit_buffer::text::ends_eol(v),
    ensures
        apply_rows(ls, LogView { at, deleted: Seq::empty(), inserted: seq![BufElem::Eol] + v.drop_last() }) == ls.take(
            at.row + 1,
        ) + crate::edit_buffer::text::materialize(v) + ls.skip(at.row + 1),
{
    let row = at.row as int;
    let l = ls[row];
    assert(line_wf(l));
    let n = l.len() as int;
    let p = ls.take(row);
    let q = ls.take(row + 1);
    let sfx = ls.skip(row + 1);
    lemma_prefix_step(ls, row);
    assert(ls == q + sfx);
    crate::edit_buffer::text::lemma_flatten_concat(q, sfx);
    let tt = flatten(ls);
    let o = prefix_len(ls, row) + n - 1;
    assert(tt == flatten(p) + l + flatten(sfx));
    assert(tt.take(o) =~= flatten(p) + l.drop_last());
    assert(tt.skip(o) =~= seq![BufElem::Eol] + flatten(sfx));
    assert(v.drop_last().push(BufElem::Eol) == v);
    assert(crate::edit_buffer::text::offset(ls, at) == o);
    let nt = crate::edit_buffer::text::replace(tt, o, 0, seq![BufElem::Eol] + v.drop_last());
    assert(tt.skip(o + 0) == tt.skip(o));
    assert(nt =~= flatten(q) + v + flatten(sfx));
    assert(all_lines_wf(q)) by {
        assert forall|i: int| 0 <= i < q.len() implies #[trigger] line_wf(q[i]) by {
            assert(q[i] == ls[i]);
        }
    }
    assert(all_lines_wf(sfx)) by {
        assert forall|i: int| 0 <= i < sfx.len() implies #[trigger] line_wf(sfx[i]) by {
            assert(sfx[i] == ls[row + 1 + i]);
        }
    }
    crate::edit_buffer::text::lemma_materialize_sandwich(q, v, sfx);
}

/// Pasting yanked lines below the cursor's row (`p`) puts those lines right
/// after the row and keeps every other row; one yanked line adds exactly one
/// row, equal to it.
pub proof fn law_paste_lines_below(s0: EditBuffer, s1: EditBuffer, k: Key, r: String)
    requires
        s0.wf(),
        s0.rb.cursor.row < s0.rb.buf@.len(),
        s0.clipboard.x matches Some(t) && type_view(t).0 && crate::edit_buffer::text::ends_eol(type_view(t).1),
        EditBuffer::eff_paste_post(s0, s1, k, r),
    ensures
        ({
            let ls = s0.rb.lines();
            let row = s0.rb.cursor.row as int;
            let v = type_view(s0.clipboard.x->0).1;
            &&& s1.rb.lines() == ls.take(row + 1) + crate::edit_buffer::text::materialize(v) + ls.skip(row + 1)
            &&& line_wf(v) ==> s1.rb.lines() == ls.take(row + 1).push(v) + ls.skip(row + 1)
            &&& line_wf(v) ==> s1.rb.lines().len() == ls.len() + 1
        }),
{
    let ls = s0.rb.lines();
    let row = s0.rb.cursor.row as int;
    let v = type_view(s0.clipboard.x->0).1;
    let l = ls[row];
    assert(ls[row] == s0.rb.buf@[row]@);
    assert(all_lines_wf(ls));
    assert(line_wf(l));
    let n = l.len() as int;
    let c = Cursor { row: row as usize, col: (n - 1) as usize };
    assert(s0.cur_line() == l);
    let range = at_range(c);
    let ins = seq![BufElem::Eol] + spec_trim_right(v);
    assert(s1.rb.lines() == apply_rows(ls, edit_log(ls, range, ins + Seq::<BufElem>::empty())));
    assert(ins + Seq::<BufElem>::empty() == ins);
    assert(del_region(ls, range) =~= seq![l]);
    assert(prefix_len(del_region(ls, range), 0) == 0) by {
        assert(del_region(ls, range).take(0) =~= Seq::<Seq<BufElem>>::empty());
    }
    assert(del_local_end(ls, range) == n - 1);
    assert(deleted_text(ls, range) =~= Seq::<BufElem>::empty());
    assert(spec_trim_right(v) == v.drop_last());
    assert(edit_log(ls, range, ins) == LogView { at: c, deleted: Seq::empty(), inserted: seq![BufElem::Eol] + v.drop_last() });
    lemma_insert_lines_after(ls, c, v);
    let q = ls.take(row + 1);
    if line_wf(v) {
        crate::edit_buffer::text::lemma_lines_of_line(v);
        assert(crate::edit_buffer::text::materialize(v) =~= seq![v]);
        assert(q + seq![v] == q.push(v));
    }
}

/// Inserting the lines `v` at the head of row `at.row` puts them before that row.
proof fn lemma_insert_lines_before(ls: Seq<Seq<BufElem>>, at: Cursor, v: Seq<BufElem>)
    requires
        all_lines_wf(ls),
        at.row < ls.len(),
        at.col == 0,
        crate::edit_buffer::text::ends_eol(v),
    ensures
        apply_rows(ls, LogView { at, deleted: Seq::empty(), inserted: v }) == ls.take(at.row as int)
            + crate::edit_buffer::text::materialize(v) + ls.skip(at.row as int),
{
    let row = at.row as int;
    let p = ls.take(row);
    let sfx = ls.skip(row);
    assert(ls == p + sfx);
    crate::edit_buffer::text::lemma_flatten_concat(p, sfx);
    let tt = flatten(ls);
    let o = prefix_len(ls, row);
    assert(crate::edit_buffer::text::offset(ls, at) == o);
    assert(tt.take(o) =~= flatten(p));
    assert(tt.skip(o + 0) =~= flatten(sfx));
    let nt = crate::edit_buffer::text::replace(tt, o, 0, v);
    assert(nt =~= flatten(p) + v + flatten(sfx));
    assert(all_lines_wf(p)) by {
        assert forall|i: int| 0 <= i < p.len() implies #[trigger] line_wf(p[i]) by {
            assert(p[i] == ls[i]);
        }
    }
    assert(all_lines_wf(sfx)) by {
        assert forall|i: int| 0 <= i < sfx.len() implies #[trigger] line_wf(sfx[i]) by {
            assert(sfx[i] == ls[row + i]);
        }
    }
    crate::edit_buffer::text::lemma_materialize_sandwich(p, v, sfx);
}

/// Pasting yanked lines above the cursor's row (`P`) puts those lines right
/// before the row and keeps every other row; one yanked line adds exactly
/// one row, equal to it.
pub proof fn law_paste_lines_above(s0: EditBuffer, s1: EditBuffer, k: Key, r: String)
    requires
        s0.wf(),
        s0.rb.cursor.row < s0.rb.buf@.len(),
        s0.clipboard.x matches Some(t) && type_view(t).0 && crate::edit_buffer::text::ends_eol(type_view(t).1),
        EditBuffer::eff_paste_above_post(s0, s1, k, r),
    ensures
        ({
            let ls = s0.rb.lines();
            let row = s0.rb.cursor.row as int;
            let v = type_view(s0.clipboard.x->0).1;
            &&& s1.rb.lines() == ls.take(row) + crate::edit_buffer::text::materialize(v) + ls.skip(row)
            &&& line_wf(v) ==> s1.rb.lines() == ls.take(row).push(v) + ls.skip(row)
            &&& line_wf(v) ==> s1.rb.lines().len() == ls.len() + 1
        }),
{
    let ls = s0.rb.lines();
    let row = s0.rb.cursor.row as int;
    let v = type_view(s0.clipboard.x->0).1;
    let l = ls[row];
    assert(ls[row] == s0.rb.buf@[row]@);
    assert(all_lines_wf(ls));
    assert(line_wf(l));
    let c = Cursor { row: row as usize, col: 0 };
    let range = at_range(c);
    let ins = spec_trim_right(v).push(BufElem::Eol);
    assert(s1.rb.lines() == apply_rows(ls, edit_log(ls, range, ins + Seq::<BufElem>::empty())));
    assert(ins + Seq::<BufElem>::empty() == ins);
    assert(del_region(ls, range) =~= seq![l]);
    assert(prefix_len(del_region(ls, range), 0) == 0) by {
        assert(del_region(ls, range).take(0) =~= Seq::<Seq<BufElem>>::empty());
    }
    assert(del_local_end(ls, range) == 0);
    assert(deleted_text(ls, range) =~= Seq::<BufElem>::empty());
    assert(ins == v);
    assert(edit_log(ls, range, ins) == LogView { at: c, deleted: Seq::empty(), inserted: v });
    lemma_insert_lines_before(ls, c, v);
    let p = ls.take(row);
    if line_wf(v) {
        crate::edit_buffer::text::lemma_lines_of_line(v);
        assert(crate::edit_buffer::text::materialize(v) =~= seq![v]);
        assert(p + seq![v] == p.push(v));
    }
}

} // verus!
