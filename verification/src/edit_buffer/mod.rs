use vstd::prelude::*;
use crate::read_buffer::{BufElem, Cursor, CursorRange, ReadBuffer, rows, flatten, buf_wf, max_size};
use crate::read_buffer::search::{CacheLine, line_wf};
use self::change_log::{ChangeLog, ChangeLogBuffer, LogView, swapped};
use self::diff_buffer::DiffBuffer;
use self::clipboard::Clipboard;
use self::history::{applicable, apply_rows, rows_wf, undo_chain, redo_chain, lemma_apply_rows, lemma_undo_chain_suffix};
use self::config::Config;
use self::snippet::SnippetRepo;
use self::text::{lines_of, ends_eol, materialize, all_lines_wf, lemma_lines_of, lemma_materialize_wf, lemma_materialize_flatten, lemma_first_line, lemma_materialize_concat, lemma_materialize_sandwich, lemma_lines_of_concat, lemma_flatten_concat, prefix_len, lemma_prefix_step, lemma_prefix_mono, lemma_flatten_index, offset, replace, lemma_replace_back};

pub mod undo_buffer;
pub mod change_log;
pub mod indent;
pub mod invalidate_lines;
pub mod config;
pub mod text;
pub mod history;
pub mod diff_tree;
pub mod diff_buffer;
pub mod clipboard;
pub mod effects;
pub mod snippet;
pub mod snippet_parser;
pub mod snippet_effects;
pub mod actions;
pub mod view_gen;
pub mod highlight;

verus! {

/// A search cache that holds nothing yet, valid for any line.
pub open spec fn fresh(c: CacheLine) -> bool {
    c.search_word@.len() == 0 && c.results@.len() == 0
}

/// An edit in progress: where it started, what it took out, and the rows as
/// they were without the rows it touches.
pub struct EditState {
    pub diff_buffer: DiffBuffer,
    pub at: Cursor,
    pub removed: Vec<BufElem>,
    pub orig_buf: Vec<Vec<BufElem>>,
}

impl EditState {
    /// The rows untouched by the edit.
    pub open spec fn kept(&self) -> Seq<Seq<BufElem>> {
        rows(self.orig_buf@)
    }

    /// The text of the rows under edit, as the buffer shows it.
    pub open spec fn text(&self) -> Seq<BufElem> {
        self.diff_buffer.spec_text()
    }

    /// The rows that the buffer shows.
    pub open spec fn shown(&self) -> Seq<Seq<BufElem>> {
        self.kept().take(self.at.row as int) + materialize(self.text()) + self.kept().skip(self.at.row as int)
    }

    /// The text before the edit started.
    pub open spec fn base_text(&self) -> Seq<BufElem> {
        flatten(self.kept().take(self.at.row as int)) + self.diff_buffer.pre_buf_raw@ + self.removed@
            + self.diff_buffer.post_buf_raw@ + flatten(self.kept().skip(self.at.row as int))
    }

    /// The rows before the edit started.
    pub open spec fn base(&self) -> Seq<Seq<BufElem>> {
        materialize(self.base_text())
    }

    /// Where the cursor stands once the edit is shown: after what was typed
    /// before the typing cursor.
    pub open spec fn shown_cursor(&self) -> Cursor {
        let x = self.diff_buffer.pre_buf_raw@ + self.diff_buffer.diff_buf_pre@ + self.diff_buffer.diff_buf_raw.text().take(
            self.diff_buffer.diff_buf_raw.cursor(),
        );
        Cursor { row: (self.at.row + lines_of(x).len() - 1) as usize, col: lines_of(x).last().len() as usize }
    }

    /// The edit as a change log.
    pub open spec fn log(&self) -> LogView {
        LogView { at: self.at, deleted: self.removed@, inserted: self.diff_buffer.spec_inserted() }
    }

    /// The edit is consistent: it starts on a row at the column where the
    /// surviving text before it ends, that text has no line end, the text
    /// after it ends one, and everything fits.
    pub open spec fn ok(&self) -> bool {
        &&& self.diff_buffer.inv()
        &&& all_lines_wf(self.kept())
        &&& self.at.row <= self.kept().len()
        &&& self.diff_buffer.pre_buf_raw@.len() == self.at.col
        &&& forall|i: int| 0 <= i < self.at.col ==> self.diff_buffer.pre_buf_raw@[i] != BufElem::Eol
        &&& ends_eol(self.diff_buffer.post_buf_raw@)
        &&& self.base_text().len() + self.diff_buffer.spec_inserted().len() + 1 <= max_size()
    }
}

/// Work that an effect leaves to the application around the editor.
#[derive(Debug, Clone, Copy, PartialEq, Eq, Structural)]
pub enum Request {
    /// Write the buffer to its file, then call `mark_saved`.
    Save,
    /// Close the buffer's page.
    Close,
    /// Read the system clipboard, then call `paste_system`.
    PasteSystem,
}

/// A buffer that can be edited, with its history.
pub struct EditBuffer {
    pub rb: ReadBuffer,
    pub config: Config,
    pub visual_cursor: Option<Cursor>,
    pub change_log_buffer: ChangeLogBuffer,
    pub edit_state: Option<EditState>,
    pub path: String,
    pub sync_clock: Option<u64>,
    pub clipboard: Clipboard,
    pub request: Option<Request>,
    pub snippet_repo: SnippetRepo,
}

impl EditBuffer {
    /// A buffer of the rows `init_buf` of the file at `path`, with the cursor
    /// at the top, no history, and the snippets of its language.
    pub fn open(init_buf: Vec<Vec<BufElem>>, path: String, config: Config, snippets: Vec<super::edit_buffer::snippet::Snippet>) -> (r: EditBuffer)
        requires
            buf_wf(rows(init_buf@)),
            flatten(rows(init_buf@)).len() <= max_size(),
            snippets@.len() < max_size(),
            forall|i: int|
                0 <= i < snippets@.len() ==> (#[trigger] snippets@[i]).prefix@.len() + snippets@[i].description@.len() + 4
                    <= max_size(),
        ensures
            r.wf(),
            r.rb.buf == init_buf,
            r.rb.cursor == (Cursor { row: 0, col: 0 }),
            r.rb.state@ == crate::read_buffer::INIT@,
            r.edit_state is None,
            r.visual_cursor is None,
            r.change_log_buffer.buf.undo_queue@.len() == 0,
            r.change_log_buffer.buf.redo_stack@.len() == 0,
            r.config == config,
            r.path == path,
            r.sync_clock is None,
            r.clipboard.x is None,
            r.request is None,
            r.snippet_repo.snippets == snippets,
            r.snippet_repo.current_matches@.len() == 0,
    {
        let rb = ReadBuffer::new(init_buf, crate::message_box::MessageBox::new());
        let snippet_repo = SnippetRepo::new(snippets, crate::message_box::MessageBox::new());
        let r = EditBuffer {
            rb,
            config,
            visual_cursor: None,
            change_log_buffer: ChangeLogBuffer::new(),
            edit_state: None,
            path,
            sync_clock: None,
            clipboard: Clipboard::new(),
            request: None,
            snippet_repo,
        };
        r
    }
}

impl EditBuffer {
    /// The text of the buffer.
    pub open spec fn text(&self) -> Seq<BufElem> {
        flatten(self.rb.lines())
    }

    /// Everything but the rows and their search caches is as in `other`.
    pub open spec fn same_but_rows(&self, other: &EditBuffer) -> bool {
        &&& self.rb.state == other.rb.state
        &&& self.rb.cursor == other.rb.cursor
        &&& self.rb.num_buffer == other.rb.num_buffer
        &&& self.rb.window == other.rb.window
        &&& self.rb.search.cur_word == other.rb.search.cur_word
        &&& self.rb.search.show == other.rb.search.show
        &&& self.rb.message_box == other.rb.message_box
        &&& self.config == other.config
        &&& self.visual_cursor == other.visual_cursor
        &&& self.change_log_buffer == other.change_log_buffer
        &&& self.edit_state == other.edit_state
        &&& self.path == other.path
        &&& self.sync_clock == other.sync_clock
        &&& self.clipboard == other.clipboard
        &&& self.snippet_repo == other.snippet_repo
        &&& self.request == other.request
    }

    /// Each row's search cache is valid for the row.
    pub open spec fn caches_ok(&self) -> bool {
        &&& self.rb.search.cache@.len() == self.rb.buf@.len()
        &&& forall|r: int| 0 <= r < self.rb.buf@.len() ==> (#[trigger] self.rb.search.cache@[r]).valid_for(
            self.rb.buf@[r]@,
        )
    }

    /// Inserts an empty row, with a fresh cache, before row `row`.
    fn insert_new_line(&mut self, row: usize)
        requires
            row <= old(self).rb.buf@.len(),
            old(self).rb.search.cache@.len() == old(self).rb.buf@.len(),
        ensures
            final(self).same_but_rows(old(self)),
            final(self).rb.lines() == old(self).rb.lines().insert(row as int, Seq::empty()),
            final(self).rb.search.cache@.len() == final(self).rb.buf@.len(),
            forall|i: int| 0 <= i < row ==> final(self).rb.search.cache@[i] == old(self).rb.search.cache@[i],
            fresh(final(self).rb.search.cache@[row as int]),
            forall|i: int|
                row < i < final(self).rb.search.cache@.len() ==> #[trigger] final(self).rb.search.cache@[i]
                    == old(self).rb.search.cache@[i - 1],
    {
        self.rb.buf.insert(row, Vec::new());
        self.rb.cache_insert_new_line(row);
        proof {
            assert(self.rb.lines() == old(self).rb.lines().insert(row as int, Seq::empty()));
        }
    }

    /// Removes row `row` and its cache.
    fn remove_line(&mut self, row: usize)
        requires
            row < old(self).rb.buf@.len(),
            old(self).rb.search.cache@.len() == old(self).rb.buf@.len(),
        ensures
            final(self).same_but_rows(old(self)),
            final(self).rb.lines() == old(self).rb.lines().remove(row as int),
            final(self).rb.search.cache@ == old(self).rb.search.cache@.remove(row as int),
    {
        self.rb.buf.remove(row);
        self.rb.cache_remove_line(row);
        proof {
            assert(self.rb.lines() == old(self).rb.lines().remove(row as int));
        }
    }

    /// Writes `buf` from `at` on, as the continuation of the text `t` that
    /// fills the rows after `p` and before `s`, and returns where it ended. A
    /// line end starts a new row, which is made when the next element comes
    /// (`should_insert_newline` says that one is owed).
    fn insert(
        &mut self,
        at: Cursor,
        buf: &[BufElem],
        should_insert_newline: &mut bool,
        Ghost(p): Ghost<Seq<Seq<BufElem>>>,
        Ghost(t): Ghost<Seq<BufElem>>,
        Ghost(s): Ghost<Seq<Seq<BufElem>>>,
    ) -> (r: Cursor)
        requires
            old(self).rb.lines() == p + materialize(t) + s,
            old(self).rb.search.cache@.len() == old(self).rb.buf@.len(),
            forall|i: int| p.len() <= i < p.len() + materialize(t).len() ==> #[trigger] fresh(
                old(self).rb.search.cache@[i],
            ),
            at.row == p.len() + lines_of(t).len() - 1,
            at.col == lines_of(t).last().len(),
            *old(should_insert_newline) == ends_eol(t),
            p.len() + s.len() + t.len() + buf@.len() + 1 <= max_size(),
        ensures
            final(self).same_but_rows(old(self)),
            final(self).rb.lines() == p + materialize(t + buf@) + s,
            final(self).rb.search.cache@.len() == final(self).rb.buf@.len(),
            final(self).rb.search.cache@.take(p.len() as int) == old(self).rb.search.cache@.take(p.len() as int),
            forall|i: int| p.len() <= i < p.len() + materialize(t + buf@).len() ==> #[trigger] fresh(
                final(self).rb.search.cache@[i],
            ),
            final(self).rb.search.cache@.skip(p.len() + materialize(t + buf@).len() as int)
                == old(self).rb.search.cache@.skip(p.len() + materialize(t).len() as int),
            r.row == p.len() + lines_of(t + buf@).len() - 1,
            r.col == lines_of(t + buf@).last().len(),
            *final(should_insert_newline) == ends_eol(t + buf@),
    {
        let mut row = at.row;
        let mut col = at.col;
        let mut i: usize = 0;
        proof {
            lemma_lines_of(t);
            assert(t + buf@.take(0) == t);
        }
        while i < buf.len()
            invariant
                0 <= i <= buf@.len(),
                self.same_but_rows(old(self)),
                self.rb.lines() == p + materialize(t + buf@.take(i as int)) + s,
                self.rb.search.cache@.len() == self.rb.buf@.len(),
                self.rb.search.cache@.take(p.len() as int) == old(self).rb.search.cache@.take(p.len() as int),
                forall|j: int|
                    p.len() <= j < p.len() + materialize(t + buf@.take(i as int)).len() ==> #[trigger] fresh(
                        self.rb.search.cache@[j],
                    ),
                self.rb.search.cache@.skip(p.len() + materialize(t + buf@.take(i as int)).len() as int)
                    == old(self).rb.search.cache@.skip(p.len() + materialize(t).len() as int),
                row == p.len() + lines_of(t + buf@.take(i as int)).len() - 1,
                col == lines_of(t + buf@.take(i as int)).last().len(),
                *should_insert_newline == ends_eol(t + buf@.take(i as int)),
                p.len() + s.len() + t.len() + buf@.len() + 1 <= max_size(),
            decreases buf@.len() - i,
        {
            let ghost ti = t + buf@.take(i as int);
            let ghost l = lines_of(ti);
            let ghost k = l.len() - 1;
            proof {
                lemma_lines_of(ti);
                assert(t + buf@.take(i + 1) == ti.push(buf@[i as int]));
                assert(ti.len() == t.len() + i);
            }
            let e = buf[i];
            assert(self.rb.lines().len() == self.rb.buf@.len());
            if *should_insert_newline {
                assert(materialize(ti) == l.drop_last());
                self.insert_new_line(row);
                *should_insert_newline = false;
                proof {
                    assert(l.drop_last().push(Seq::<BufElem>::empty()) == l);
                    assert(self.rb.lines() == p + l + s);
                    assert(self.rb.search.cache@.skip(p.len() + l.len() as int) =~= self.rb.search.cache@.skip(
                        p.len() + l.len() - 1).skip(1));
                }
            }
            assert(self.rb.lines() == p + l + s);
            assert(self.rb.lines().len() == self.rb.buf@.len());
            assert(self.rb.lines()[row as int] == l[k]);
            assert(self.rb.buf@[row as int]@ == l[k]);
            let ghost before = self.rb.lines();
            self.rb.buf[row].insert(col, e);
            proof {
                assert(l[k].insert(col as int, e) == l[k].push(e));
                assert(self.rb.buf@[row as int]@ == l[k].push(e));
                assert(self.rb.lines() == before.update(row as int, l[k].push(e)));
                assert(self.rb.lines() == p + l.update(k, l[k].push(e)) + s);
            }
            match e {
                BufElem::Eol => {
                    *should_insert_newline = true;
                    row = row + 1;
                    col = 0;
                },
                BufElem::Char(_) => {
                    col = col + 1;
                },
            }
            i = i + 1;
            proof {
                let tn = t + buf@.take(i as int);
                assert(tn == ti.push(e));
                assert(tn.drop_last() == ti);
                assert(tn.last() == e);
                assert(lines_of(tn) == if e == BufElem::Eol {
                    l.update(k, l[k].push(BufElem::Eol)).push(Seq::empty())
                } else {
                    l.update(k, l[k].push(e))
                });
            }
        }
        assert(buf@.take(buf@.len() as int) == buf@);
        Cursor { row, col }
    }
}


/// `a` comes before `b` in the buffer.
pub open spec fn cursor_before(a: Cursor, b: Cursor) -> bool {
    a.row < b.row || (a.row == b.row && a.col < b.col)
}

/// Whether `a` comes before `b` in the buffer.
pub fn cursor_lt(a: Cursor, b: Cursor) -> (r: bool)
    ensures
        r == cursor_before(a, b),
{
    a.row < b.row || (a.row == b.row && a.col < b.col)
}

/// The end of a deletion: the final line end of the buffer is never deleted.
pub open spec fn del_end(ls: Seq<Seq<BufElem>>, r: CursorRange) -> Cursor {
    if r.end.col == ls[r.end.row as int].len() && r.end.row == ls.len() - 1 {
        Cursor { row: r.end.row, col: (r.end.col - 1) as usize }
    } else {
        r.end
    }
}

/// The last row that a deletion touches: the row after the end when the end
/// takes the line end, so that the two rows join.
pub open spec fn del_last(ls: Seq<Seq<BufElem>>, r: CursorRange) -> int {
    let e = del_end(ls, r);
    if e.col == ls[e.row as int].len() && e.row != ls.len() - 1 {
        e.row + 1
    } else {
        e.row as int
    }
}

/// The rows that a deletion touches.
pub open spec fn del_region(ls: Seq<Seq<BufElem>>, r: CursorRange) -> Seq<Seq<BufElem>> {
    ls.subrange(r.start.row as int, del_last(ls, r) + 1)
}

/// Where the deletion ends in the text of the rows it touches.
pub open spec fn del_local_end(ls: Seq<Seq<BufElem>>, r: CursorRange) -> int {
    prefix_len(del_region(ls, r), del_end(ls, r).row - r.start.row) + del_end(ls, r).col
}

/// A range that can be deleted from the rows: it starts on an element and
/// ends within a row, after its start.
pub open spec fn deletable(ls: Seq<Seq<BufElem>>, r: CursorRange) -> bool {
    &&& r.start.row <= r.end.row < ls.len()
    &&& r.start.row == r.end.row ==> r.start.col <= r.end.col
    &&& r.start.col < ls[r.start.row as int].len()
    &&& r.end.col <= ls[r.end.row as int].len()
}

/// The columns of row `k` of the region that a deletion takes.
pub open spec fn region_cols(ls: Seq<Seq<BufElem>>, r: CursorRange, k: int) -> (int, int) {
    let e = del_end(ls, r);
    let row = r.start.row + k;
    if row > e.row {
        (0, 0)
    } else {
        (
            if k == 0 { r.start.col as int } else { 0 },
            if row == e.row { e.col as int } else { ls[row].len() as int },
        )
    }
}

impl EditBuffer {
    /// The cursor `len` elements after `cursor`: on the same row as far as it
    /// goes, at a row's end rather than the next row's start.
    fn find_cursor_pair(&self, cursor: Cursor, len: usize) -> (r: Cursor)
        requires
            cursor.row < self.rb.buf@.len(),
            cursor.col <= self.rb.buf@[cursor.row as int]@.len(),
            offset(self.rb.lines(), cursor) + len <= self.text().len(),
        ensures
            offset(self.rb.lines(), r) == offset(self.rb.lines(), cursor) + len,
            r.row < self.rb.buf@.len(),
            r.col <= self.rb.buf@[r.row as int]@.len(),
            len == 0 ==> r == cursor,
            len > 0 ==> r.col > 0,
    {
        let ghost ls = self.rb.lines();
        proof {
            assert(ls.take(ls.len() as int) == ls);
        }
        let n_rows = self.rb.buf.len();
        let mut row = cursor.row;
        let mut col = cursor.col;
        let mut remaining = len;
        while remaining > 0
            invariant
                ls == self.rb.lines(),
                ls.len() == self.rb.buf@.len(),
                n_rows == self.rb.buf@.len(),
                ls.take(ls.len() as int) == ls,
                row < self.rb.buf@.len(),
                col <= self.rb.buf@[row as int]@.len(),
                offset(ls, Cursor { row, col }) + remaining == offset(ls, cursor) + len,
                offset(ls, cursor) + len <= flatten(ls).len(),
                remaining <= len,
                len == 0 ==> row == cursor.row && col == cursor.col,
                remaining == 0 && len > 0 ==> col > 0,
            decreases remaining, self.rb.buf@.len() - row,
        {
            assert(ls[row as int] == self.rb.buf@[row as int]@);
            let rest = self.rb.buf[row].len() - col;
            let n = if remaining < rest { remaining } else { rest };
            remaining = remaining - n;
            if remaining > 0 {
                proof {
                    lemma_prefix_step(ls, row as int);
                    assert(n == rest);
                    assert(prefix_len(ls, row + 1) + remaining == offset(ls, cursor) + len);
                    if row + 1 >= ls.len() {
                        assert(prefix_len(ls, row + 1) == flatten(ls).len());
                    }
                    assert(row + 1 < ls.len());
                }
                col = 0;
                row = row + 1;
            } else {
                col = col + n;
            }
        }
        Cursor { row, col }
    }

    /// The columns that a range takes, row by row.
    fn expand_range(&self, r: &CursorRange) -> (res: Vec<(usize, core::ops::Range<usize>)>)
        requires
            r.start.row <= r.end.row < self.rb.buf@.len(),
        ensures
            res@.len() == r.end.row - r.start.row + 1,
            forall|k: int| 0 <= k < res@.len() ==> (#[trigger] res@[k]).0 == r.start.row + k,
            forall|k: int| 0 <= k < res@.len() ==> (#[trigger] res@[k]).1.start == (if k == 0 {
                r.start.col as int
            } else {
                0
            }),
            forall|k: int| 0 <= k < res@.len() ==> (#[trigger] res@[k]).1.end == (if r.start.row + k == r.end.row {
                r.end.col as int
            } else {
                self.rb.buf@[r.start.row + k]@.len() as int
            }),
    {
        let mut res: Vec<(usize, core::ops::Range<usize>)> = Vec::new();
        let n_rows = self.rb.buf.len();
        let mut row = r.start.row;
        while row < r.end.row + 1
            invariant
                r.start.row <= row <= r.end.row + 1,
                r.end.row < self.rb.buf@.len(),
                n_rows == self.rb.buf@.len(),
                res@.len() == row - r.start.row,
                forall|k: int| 0 <= k < res@.len() ==> (#[trigger] res@[k]).0 == r.start.row + k,
                forall|k: int| 0 <= k < res@.len() ==> (#[trigger] res@[k]).1.start == (if k == 0 {
                    r.start.col as int
                } else {
                    0
                }),
                forall|k: int| 0 <= k < res@.len() ==> (#[trigger] res@[k]).1.end == (if r.start.row + k
                    == r.end.row {
                    r.end.col as int
                } else {
                    self.rb.buf@[r.start.row + k]@.len() as int
                }),
            decreases r.end.row + 1 - row,
        {
            let col_start = if row == r.start.row { r.start.col } else { 0 };
            let col_end = if row == r.end.row { r.end.col } else { self.rb.buf[row].len() };
            res.push((row, col_start..col_end));
            row = row + 1;
        }
        res
    }
}


/// Where element `col` of row `k` of a deletion's region stands in the text of
/// the region, and which part of the split it falls in.
pub proof fn lemma_classify(ls: Seq<Seq<BufElem>>, r: CursorRange, k: int, row: usize, col: usize)
    requires
        all_lines_wf(ls),
        deletable(ls, r),
        0 <= k <= del_last(ls, r) - r.start.row,
        row == r.start.row + k,
        0 <= col < ls[r.start.row + k].len(),
    ensures
        ({
            let reg = flatten(del_region(ls, r));
            let q = prefix_len(del_region(ls, r), k) + col;
            let s = r.start.col as int;
            let le = del_local_end(ls, r);
            &&& q < reg.len()
            &&& reg[q] == ls[r.start.row + k][col as int]
            &&& (region_cols(ls, r, k).0 <= col < region_cols(ls, r, k).1) == (s <= q < le)
            &&& cursor_before(Cursor { row, col }, r.start) == (q < s)
        }),
{
    let region = del_region(ls, r);
    let a = r.start.row as int;
    let e = del_end(ls, r);
    let m = e.row - a;
    let last = del_last(ls, r);
    assert(region.len() == last + 1 - a);
    assert forall|j: int| 0 <= j < region.len() implies region[j] == ls[a + j] by {}
    assert(line_wf(ls[e.row as int]));
    lemma_flatten_index(region, k, col as int);
    lemma_prefix_step(region, k);
    lemma_prefix_step(region, m);
    lemma_prefix_step(region, 0);
    assert(region.take(0).len() == 0);
    assert(flatten(region.take(0)) == Seq::<BufElem>::empty());
    if k >= 1 {
        lemma_prefix_mono(region, 1, k);
    }
    if m >= 1 {
        lemma_prefix_mono(region, 1, m);
    }
    if k < m {
        lemma_prefix_mono(region, k + 1, m);
    }
    if k > m {
        assert(k == m + 1);
    }
}

/// The split of a deletion's region is in order and within the region.
pub proof fn lemma_local_end(ls: Seq<Seq<BufElem>>, r: CursorRange)
    requires
        all_lines_wf(ls),
        deletable(ls, r),
    ensures
        r.start.col <= del_local_end(ls, r) <= flatten(del_region(ls, r)).len(),
{
    let region = del_region(ls, r);
    let a = r.start.row as int;
    let e = del_end(ls, r);
    let m = e.row - a;
    assert forall|j: int| 0 <= j < region.len() implies region[j] == ls[a + j] by {}
    assert(line_wf(ls[e.row as int]));
    lemma_prefix_step(region, m);
    lemma_prefix_step(region, 0);
    assert(flatten(region.take(0)) == Seq::<BufElem>::empty());
    if m >= 1 {
        lemma_prefix_mono(region, 1, m);
    }
    lemma_prefix_mono(region, m + 1, region.len() as int);
    assert(region.take(region.len() as int) == region);
}

impl EditBuffer {
    /// Splits the rows that a deletion touches into what comes before the
    /// range, the range, and what comes after it.
    fn split_region(&self, r: &CursorRange, target_region: &Vec<(usize, core::ops::Range<usize>)>) -> (res: (
        Vec<BufElem>,
        Vec<BufElem>,
        Vec<BufElem>,
    ))
        requires
            all_lines_wf(self.rb.lines()),
            deletable(self.rb.lines(), *r),
            target_region@.len() == del_last(self.rb.lines(), *r) - r.start.row + 1,
            forall|k: int| 0 <= k < target_region@.len() ==> (#[trigger] target_region@[k]).0 == r.start.row + k,
            forall|k: int|
                0 <= k < target_region@.len() ==> (#[trigger] target_region@[k]).1.start == region_cols(
                    self.rb.lines(),
                    *r,
                    k,
                ).0 && target_region@[k].1.end == region_cols(self.rb.lines(), *r, k).1,
        ensures
            ({
                let ls = self.rb.lines();
                let reg = flatten(del_region(ls, *r));
                let s = r.start.col as int;
                let le = del_local_end(ls, *r);
                &&& res.0@ == reg.take(s)
                &&& res.1@ == reg.subrange(s, le)
                &&& res.2@ == reg.skip(le)
            }),
    {
        let ghost ls = self.rb.lines();
        let ghost region = del_region(ls, *r);
        let ghost reg = flatten(region);
        let ghost s = r.start.col as int;
        let ghost le = del_local_end(ls, *r);
        proof {
            lemma_local_end(ls, *r);
            assert(region.take(0).len() == 0);
            assert(flatten(region.take(0)) == Seq::<BufElem>::empty());
        }
        let mut pre: Vec<BufElem> = Vec::new();
        let mut removed: Vec<BufElem> = Vec::new();
        let mut post: Vec<BufElem> = Vec::new();
        let mut k: usize = 0;
        while k < target_region.len()
            invariant
                0 <= k <= target_region@.len(),
                target_region@.len() == region.len(),
                ls == self.rb.lines(),
                all_lines_wf(ls),
                deletable(ls, *r),
                region == del_region(ls, *r),
                reg == flatten(region),
                s == r.start.col,
                le == del_local_end(ls, *r),
                s <= le <= reg.len(),
                forall|j: int| 0 <= j < target_region@.len() ==> (#[trigger] target_region@[j]).0 == r.start.row + j,
                forall|j: int|
                    0 <= j < target_region@.len() ==> (#[trigger] target_region@[j]).1.start == region_cols(ls, *r, j).0
                        && target_region@[j].1.end == region_cols(ls, *r, j).1,
                pre@ == reg.take(vstd::math::min(prefix_len(region, k as int), s)),
                removed@ == reg.subrange(s, vstd::math::min(vstd::math::max(prefix_len(region, k as int), s), le)),
                post@ == reg.subrange(le, vstd::math::max(prefix_len(region, k as int), le)),
            decreases target_region@.len() - k,
        {
            let row = target_region[k].0;
            let cs = target_region[k].1.start;
            let ce = target_region[k].1.end;
            assert(region[k as int] == ls[row as int]);
            assert(ls[row as int] == self.rb.buf@[row as int]@);
            proof {
                lemma_prefix_step(region, k as int);
            }
            let mut col: usize = 0;
            while col < self.rb.buf[row].len()
                invariant
                    0 <= k < target_region@.len(),
                    target_region@.len() == region.len(),
                    row == r.start.row + k,
                    row < self.rb.buf@.len(),
                    ls == self.rb.lines(),
                    all_lines_wf(ls),
                    deletable(ls, *r),
                    region == del_region(ls, *r),
                    region[k as int] == self.rb.buf@[row as int]@,
                    reg == flatten(region),
                    s == r.start.col,
                    le == del_local_end(ls, *r),
                    cs == region_cols(ls, *r, k as int).0,
                    ce == region_cols(ls, *r, k as int).1,
                    0 <= col <= self.rb.buf@[row as int]@.len(),
                    prefix_len(region, k + 1) == prefix_len(region, k as int) + region[k as int].len(),
                    pre@ == reg.take(vstd::math::min(prefix_len(region, k as int) + col, s)),
                    removed@ == reg.subrange(
                        s,
                        vstd::math::min(vstd::math::max(prefix_len(region, k as int) + col, s), le),
                    ),
                    post@ == reg.subrange(le, vstd::math::max(prefix_len(region, k as int) + col, le)),
                    s <= le <= reg.len(),
                decreases self.rb.buf@[row as int]@.len() - col,
            {
                let e = self.rb.buf[row][col];
                proof {
                    lemma_classify(ls, *r, k as int, row, col);
                    assert(self.rb.buf@[row as int]@ == ls[r.start.row + k]);
                }
                let ghost q = prefix_len(region, k as int) + col;
                if cs <= col && col < ce {
                    removed.push(e);
                    assert(removed@ == reg.subrange(s, q + 1));
                } else if cursor_lt(Cursor { row, col }, r.start) {
                    pre.push(e);
                    assert(pre@ == reg.take(q + 1));
                } else {
                    post.push(e);
                    assert(post@ == reg.subrange(le, q + 1));
                }
                col = col + 1;
            }
            k = k + 1;
        }
        proof {
            lemma_prefix_mono(region, region.len() as int, region.len() as int);
            assert(region.take(region.len() as int) == region);
            assert(reg.subrange(le, reg.len() as int) == reg.skip(le));
        }
        (pre, removed, post)
    }
}


impl EditBuffer {
    /// Takes the range out of the buffer together with the rest of the rows it
    /// touches, and returns what of them comes before the range, the range,
    /// and what comes after it. The buffer's final line end is never taken:
    /// a range that ends after it stops before it.
    /// How many elements a deletion of the range takes.
    pub fn deleted_len(&self, r: &CursorRange) -> (res: usize)
        requires
            all_lines_wf(self.rb.lines()),
            deletable(self.rb.lines(), *r),
        ensures
            res == deleted_text(self.rb.lines(), *r).len(),
    {
        let ghost ls = self.rb.lines();
        let n = self.rb.buf.len();
        assert(self.rb.buf@[r.end.row as int]@ == ls[r.end.row as int]);
        assert(line_wf(ls[r.end.row as int]));
        let back_tail: bool = r.end.col == self.rb.buf[r.end.row].len() && r.end.row == n - 1;
        let range = if back_tail {
            CursorRange { start: r.start, end: Cursor { row: r.end.row, col: r.end.col - 1 } }
        } else {
            *r
        };
        assert(range.end == del_end(ls, *r));
        assert(self.rb.buf@[range.end.row as int]@ == ls[range.end.row as int]);
        let target_region = if range.end.col == self.rb.buf[range.end.row].len() && range.end.row != n - 1 {
            let mut res = self.expand_range(&range);
            res.push((range.end.row + 1, 0..0));
            res
        } else {
            self.expand_range(&range)
        };
        assert forall|k: int| 0 <= k < target_region@.len() implies (#[trigger] target_region@[k]).1.start
            == region_cols(ls, *r, k).0 && target_region@[k].1.end == region_cols(ls, *r, k).1 by {
            if k < range.end.row - range.start.row + 1 {
                assert(self.rb.buf@[r.start.row + k]@ == ls[r.start.row + k]);
            }
        }
        let (_pre, removed, _post) = self.split_region(r, &target_region);
        removed.len()
    }

    fn prepare_delete(&mut self, r: &CursorRange) -> (res: (Vec<BufElem>, Vec<BufElem>, Vec<BufElem>))
        requires
            old(self).caches_ok(),
            all_lines_wf(old(self).rb.lines()),
            deletable(old(self).rb.lines(), *r),
        ensures
            final(self).same_but_rows(old(self)),
            ({
                let ls = old(self).rb.lines();
                let reg = flatten(del_region(ls, *r));
                let s = r.start.col as int;
                let le = del_local_end(ls, *r);
                let last = del_last(ls, *r);
                &&& res.0@ == reg.take(s)
                &&& res.1@ == reg.subrange(s, le)
                &&& res.2@ == reg.skip(le)
                &&& final(self).rb.lines() == ls.take(r.start.row as int) + ls.skip(last + 1)
                &&& final(self).rb.search.cache@ == old(self).rb.search.cache@.take(r.start.row as int)
                    + old(self).rb.search.cache@.skip(last + 1)
            }),
    {
        let ghost ls = self.rb.lines();
        let n = self.rb.buf.len();
        assert(self.rb.buf@[r.end.row as int]@ == ls[r.end.row as int]);
        assert(line_wf(ls[r.end.row as int]));
        let back_tail: bool = r.end.col == self.rb.buf[r.end.row].len() && r.end.row == n - 1;
        let range = if back_tail {
            CursorRange { start: r.start, end: Cursor { row: r.end.row, col: r.end.col - 1 } }
        } else {
            *r
        };
        assert(range.end == del_end(ls, *r));
        assert(self.rb.buf@[range.end.row as int]@ == ls[range.end.row as int]);
        let target_region = if range.end.col == self.rb.buf[range.end.row].len() && range.end.row != n - 1 {
            let mut res = self.expand_range(&range);
            res.push((range.end.row + 1, 0..0));
            res
        } else {
            self.expand_range(&range)
        };
        assert forall|k: int| 0 <= k < target_region@.len() implies (#[trigger] target_region@[k]).1.start
            == region_cols(ls, *r, k).0 && target_region@[k].1.end == region_cols(ls, *r, k).1 by {
            if k < range.end.row - range.start.row + 1 {
                assert(self.rb.buf@[r.start.row + k]@ == ls[r.start.row + k]);
            }
        }
        let (pre_survivors, removed, post_survivors) = self.split_region(r, &target_region);
        let ghost last = del_last(ls, *r);
        let ghost cache0 = self.rb.search.cache@;
        let mut k = target_region.len();
        while k > 0
            invariant
                0 <= k <= target_region@.len(),
                target_region@.len() == last - r.start.row + 1,
                last < ls.len(),
                forall|j: int| 0 <= j < target_region@.len() ==> (#[trigger] target_region@[j]).0 == r.start.row + j,
                self.same_but_rows(old(self)),
                self.rb.lines() == ls.take(r.start.row + k) + ls.skip(last + 1),
                self.rb.search.cache@ == cache0.take(r.start.row + k) + cache0.skip(last + 1),
                self.rb.search.cache@.len() == self.rb.buf@.len(),
                cache0.len() == ls.len(),
            decreases k,
        {
            k = k - 1;
            let row = target_region[k].0;
            assert(self.rb.lines().len() == self.rb.buf@.len());
            self.remove_line(row);
            proof {
                assert(ls.take(r.start.row + k + 1) + ls.skip(last + 1) == (ls.take(r.start.row + k) + ls.skip(
                    last + 1,
                )).insert(row as int, ls[row as int]));
                assert((ls.take(r.start.row + k + 1) + ls.skip(last + 1)).remove(row as int) == ls.take(
                    r.start.row + k,
                ) + ls.skip(last + 1));
                assert((cache0.take(r.start.row + k + 1) + cache0.skip(last + 1)).remove(row as int)
                    == cache0.take(r.start.row + k) + cache0.skip(last + 1));
            }
        }
        (pre_survivors, removed, post_survivors)
    }
}


/// A deletion's region splits the text: what comes before its rows, its rows,
/// and what comes after them.
pub proof fn lemma_split_text(ls: Seq<Seq<BufElem>>, r: CursorRange)
    requires
        all_lines_wf(ls),
        deletable(ls, r),
    ensures
        ({
            let a = r.start.row as int;
            let last = del_last(ls, r);
            let reg = flatten(del_region(ls, r));
            &&& flatten(ls) == flatten(ls.take(a)) + reg + flatten(ls.skip(last + 1))
            &&& prefix_len(ls, a) + del_local_end(ls, r) == offset(ls, del_end(ls, r))
            &&& reg.len() > 0
            &&& reg.last() == BufElem::Eol
            &&& all_lines_wf(ls.take(a) + ls.skip(last + 1))
            &&& last < ls.len()
        }),
{
    let a = r.start.row as int;
    let last = del_last(ls, r);
    let region = del_region(ls, r);
    let e = del_end(ls, r);
    assert(ls == ls.take(a) + region + ls.skip(last + 1));
    lemma_flatten_concat(ls.take(a) + region, ls.skip(last + 1));
    lemma_flatten_concat(ls.take(a), region);
    assert(ls.take(e.row as int) == ls.take(a) + region.take(e.row - a));
    lemma_flatten_concat(ls.take(a), region.take(e.row - a));
    assert(line_wf(ls[last]));
    assert(region.drop_last().push(region.last()) == region);
    crate::read_buffer::lemma_flatten_push(region.drop_last(), region.last());
    let rest = ls.take(a) + ls.skip(last + 1);
    assert forall|i: int| 0 <= i < rest.len() implies #[trigger] line_wf(rest[i]) by {
        if i < a {
            assert(rest[i] == ls[i]);
        } else {
            assert(rest[i] == ls[i - a + last + 1]);
        }
    }
}

/// A range that does not end after the buffer's final line end leaves some of
/// its region after it.
pub proof fn lemma_local_end_strict(ls: Seq<Seq<BufElem>>, r: CursorRange)
    requires
        all_lines_wf(ls),
        deletable(ls, r),
        !(r.end.row == ls.len() - 1 && r.end.col == ls[r.end.row as int].len()),
    ensures
        del_end(ls, r) == r.end,
        del_local_end(ls, r) < flatten(del_region(ls, r)).len(),
{
    let region = del_region(ls, r);
    let a = r.start.row as int;
    let e = r.end;
    let m = e.row - a;
    assert forall|j: int| 0 <= j < region.len() implies region[j] == ls[a + j] by {}
    lemma_prefix_step(region, m);
    if e.col == ls[e.row as int].len() {
        assert(line_wf(ls[e.row + 1]));
        lemma_prefix_step(region, m + 1);
    }
    lemma_prefix_mono(region, region.len() as int, region.len() as int);
    assert(region.take(region.len() as int) == region);
}

/// Cursors on earlier rows have smaller offsets.
pub proof fn lemma_offset_rows(ls: Seq<Seq<BufElem>>, c: Cursor, d: Cursor)
    requires
        c.row < d.row < ls.len(),
        c.col <= ls[c.row as int].len(),
    ensures
        offset(ls, c) <= offset(ls, d),
{
    lemma_prefix_step(ls, c.row as int);
    lemma_prefix_mono(ls, c.row + 1, d.row as int);
}

impl EditBuffer {
    /// A well-formed buffer with valid caches.
    pub open spec fn text_wf(&self) -> bool {
        &&& self.rb.wf()
        &&& self.change_log_buffer.inv()
        &&& self.snippet_repo.inv()
        &&& self.sync_clock matches Some(s) ==> change_log::stamp_given(s, self.change_log_buffer.next_stamp)
    }

    /// The editor's invariant: a well-formed buffer of bounded size with valid
    /// caches, and a history whose edits can be undone and redone in turn.
    pub open spec fn wf(&self) -> bool {
        &&& self.text_wf()
        &&& rows_wf(self.rb.lines())
        &&& match self.edit_state {
            None => {
                &&& undo_chain(self.rb.lines(), self.change_log_buffer.buf.undo_queue@)
                &&& redo_chain(self.rb.lines(), self.change_log_buffer.buf.redo_stack@)
            },
            Some(es) => {
                &&& es.ok()
                &&& self.rb.lines() == es.shown()
                &&& rows_wf(es.base())
                &&& undo_chain(es.base(), self.change_log_buffer.buf.undo_queue@)
                &&& redo_chain(es.base(), self.change_log_buffer.buf.redo_stack@)
            },
        }
    }

    /// Applies an edit: at `log.at`, the next `log.deleted.len()` elements give
    /// way to `log.inserted`.
    #[verifier::rlimit(100)]
    fn apply_log(&mut self, log: &ChangeLog)
        requires
            old(self).text_wf(),
            log.at.row < old(self).rb.buf@.len(),
            log.at.col < old(self).rb.buf@[log.at.row as int]@.len(),
            offset(old(self).rb.lines(), log.at) + log.deleted@.len() < old(self).text().len(),
            old(self).text().len() + log.inserted@.len() + 1 <= max_size(),
        ensures
            final(self).text_wf(),
            final(self).same_but_rows(old(self)),
            final(self).text() == replace(
                old(self).text(),
                offset(old(self).rb.lines(), log.at),
                log.deleted@.len() as int,
                log.inserted@,
            ),
            final(self).rb.lines().take(log.at.row as int) == old(self).rb.lines().take(log.at.row as int),
    {
        let ghost ls = self.rb.lines();
        let ghost b = self.text();
        let ghost o = offset(ls, log.at);
        let ghost d = log.deleted@.len() as int;
        let ghost cache0 = self.rb.search.cache@;
        assert(ls[log.at.row as int] == self.rb.buf@[log.at.row as int]@);
        let end = self.find_cursor_pair(log.at, log.deleted.len());
        let delete_range = CursorRange { start: log.at, end };
        proof {
            assert(ls[end.row as int] == self.rb.buf@[end.row as int]@);
            if end.row < log.at.row {
                lemma_offset_rows(ls, end, log.at);
            }
            assert(deletable(ls, delete_range));
            if end.row == ls.len() - 1 && end.col == ls[end.row as int].len() {
                lemma_prefix_step(ls, ls.len() - 1);
                assert(ls.take(ls.len() as int) == ls);
            }
            lemma_local_end_strict(ls, delete_range);
            lemma_split_text(ls, delete_range);
            lemma_local_end(ls, delete_range);
            assert(ls.take(log.at.row as int).len() == log.at.row);
        }
        let ghost a = log.at.row as int;
        let ghost last = del_last(ls, delete_range);
        let ghost reg = flatten(del_region(ls, delete_range));
        let ghost le = del_local_end(ls, delete_range);
        let ghost pa = prefix_len(ls, a);
        let (mut pre_survivors, _removed, mut post_survivors) = self.prepare_delete(&delete_range);
        let mut inserted = change_log::copy_elems(&log.inserted);
        pre_survivors.append(&mut inserted);
        pre_survivors.append(&mut post_survivors);
        let ghost t = pre_survivors@;
        let ghost p = ls.take(a);
        let ghost s = ls.skip(last + 1);
        proof {
            assert(t == reg.take(log.at.col as int) + log.inserted@ + reg.skip(le));
            assert(b == flatten(p) + reg + flatten(s));
            assert(pa == flatten(p).len());
            assert(reg.skip(le).len() > 0);
            assert(t.last() == reg.last());
            assert(ends_eol(t));
            lemma_lines_of(Seq::<BufElem>::empty());
            assert(lines_of(Seq::<BufElem>::empty()) == seq![Seq::<BufElem>::empty()]);
            assert(materialize(Seq::<BufElem>::empty()) == seq![Seq::<BufElem>::empty()]);
            assert(all_lines_wf(p)) by {
                assert forall|i: int| 0 <= i < p.len() implies #[trigger] line_wf(p[i]) by {
                    assert(p[i] == ls[i]);
                }
            }
            assert(all_lines_wf(s)) by {
                assert forall|i: int| 0 <= i < s.len() implies #[trigger] line_wf(s[i]) by {
                    assert(s[i] == ls[i + last + 1]);
                }
            }
            lemma_materialize_wf_len(p);
            lemma_materialize_wf_len(s);
            assert(t.len() <= reg.len() + log.inserted@.len());
            assert(p.len() + s.len() + t.len() + 1 <= max_size());
            assert(self.rb.lines().len() == self.rb.buf@.len());
            assert(self.rb.lines().len() >= a);
        }
        let ghost cache1 = self.rb.search.cache@;
        let ghost len1 = self.rb.buf@.len();
        assert(cache1.len() == len1);
        self.insert_new_line(log.at.row);
        let ghost cache2 = self.rb.search.cache@;
        proof {
            assert(self.rb.lines().len() == len1 + 1);
            assert(cache2.len() == len1 + 1);
            assert(cache2.take(a) =~= cache1.take(a));
            assert(cache1.take(a) == cache0.take(a));
            assert(cache2.skip(a + 1) =~= cache1.skip(a));
            assert(cache1.skip(a) == cache0.skip(last + 1));
            assert(self.rb.lines() == p + materialize(Seq::<BufElem>::empty()) + s);
            assert(Seq::<BufElem>::empty() + t == t);
        }
        let mut nl = false;
        let _ = self.insert(
            Cursor { row: log.at.row, col: 0 },
            &pre_survivors,
            &mut nl,
            Ghost(p),
            Ghost(Seq::empty()),
            Ghost(s),
        );
        proof {
            let lines = self.rb.lines();
            assert(lines == p + materialize(t) + s);
            lemma_materialize_wf(t);
            lemma_flatten_concat(p + materialize(t), s);
            lemma_flatten_concat(p, materialize(t));
            assert(self.text() == flatten(p) + t + flatten(s));
            assert(b.take(o) == flatten(p) + reg.take(log.at.col as int));
            assert(b.skip(o + d) == reg.skip(le) + flatten(s));
            assert(self.text() == replace(b, o, d, log.inserted@));
            assert(lines.take(a) == p);
            assert(all_lines_wf(lines)) by {
                assert forall|i: int| 0 <= i < lines.len() implies #[trigger] line_wf(lines[i]) by {
                    if i < a {
                        assert(lines[i] == ls[i]);
                    } else if i < a + materialize(t).len() {
                        assert(lines[i] == materialize(t)[i - a]);
                    } else {
                        assert(lines[i] == ls[i - a - materialize(t).len() + last + 1]);
                    }
                }
            }
            assert(self.rb.wf()) by {
                let c = self.rb.search.cache@;
                assert forall|i: int| 0 <= i < lines.len() implies (#[trigger] c[i]).valid_for(lines[i]) by {
                    if i < a {
                        assert(c[i] == c.take(a)[i]);
                        assert(c.take(a) == cache2.take(a));
                        assert(c[i] == cache0.take(a)[i]);
                        assert(lines[i] == ls[i]);
                    } else if i < a + materialize(t).len() {
                        assert(fresh(c[i]));
                    } else {
                        let j = i - a - materialize(t).len();
                        assert(c[i] == c.skip(a + materialize(t).len())[j]);
                        assert(c.skip(a + materialize(t).len()) == cache2.skip(a + 1));
                        assert(lines[i] == ls[j + last + 1]);
                        assert(c[i] == cache0.skip(last + 1)[j]);
                    }
                }
                assert forall|i: int| 0 <= i < lines.len() implies (#[trigger] lines[i]).len() <= max_size() by {
                    if i < a {
                        assert(lines[i] == ls[i]);
                    } else if i < a + materialize(t).len() {
                        assert(lines[i] == materialize(t)[i - a]);
                    } else {
                        assert(lines[i] == ls[i - a - materialize(t).len() + last + 1]);
                    }
                }
            }
        }
    }
}

/// Well-formed rows hold at least one element each.
pub proof fn lemma_materialize_wf_len(ls: Seq<Seq<BufElem>>)
    requires
        all_lines_wf(ls),
    ensures
        flatten(ls).len() >= ls.len(),
    decreases ls.len(),
{
    if ls.len() > 0 {
        let p = ls.drop_last();
        assert(all_lines_wf(p)) by {
            assert forall|i: int| 0 <= i < p.len() implies #[trigger] line_wf(p[i]) by {
                assert(p[i] == ls[i]);
            }
        }
        lemma_materialize_wf_len(p);
        assert(line_wf(ls[ls.len() - 1]));
    }
}


impl EditBuffer {
    /// Forgets the time of the last save when the history has gone back past it.
    fn rollback_sync_clock(&mut self)
        ensures
            final(self).rb == old(self).rb,
            final(self).change_log_buffer == old(self).change_log_buffer,
            final(self).edit_state == old(self).edit_state,
            final(self).config == old(self).config,
            final(self).visual_cursor == old(self).visual_cursor,
            final(self).path == old(self).path,
            final(self).clipboard == old(self).clipboard,
            final(self).snippet_repo == old(self).snippet_repo,
            final(self).request == old(self).request,
            final(self).snippet_repo == old(self).snippet_repo,
            final(self).sync_clock == (match (old(self).sync_clock, old(self).change_log_buffer.clock_spec()) {
                (Some(a), Some(b)) => if a > b { None } else { Some(a) },
                (Some(_), None) => None,
                (None, _) => None,
            }),
    {
        match (self.sync_clock, self.change_log_buffer.clock()) {
            (Some(a), Some(b)) => {
                if a > b {
                    self.sync_clock = None;
                }
            },
            (Some(_), None) => {
                self.sync_clock = None;
            },
            (None, _) => {},
        }
    }

    /// The buffer has changed since it was last saved: an edit was recorded
    /// and none was when it was saved, or a later one was.
    pub open spec fn spec_dirty(&self) -> bool {
        match (self.sync_clock, self.change_log_buffer.clock_spec()) {
            (_, None) => false,
            (None, Some(_)) => true,
            (Some(x), Some(y)) => x < y,
        }
    }

    /// The buffer has changed since it was last saved.
    pub fn is_dirty(&self) -> (r: bool)
        ensures
            r == self.spec_dirty(),
    {
        match (self.sync_clock, self.change_log_buffer.clock()) {
            (_, None) => false,
            (None, Some(_)) => true,
            (Some(x), Some(y)) => x < y,
        }
    }

    /// Takes back the latest edit, and puts the cursor where it was made.
    /// Returns whether there was one.
    pub fn undo(&mut self) -> (r: bool)
        requires
            old(self).wf(),
            old(self).edit_state is None,
        ensures
            final(self).wf(),
            final(self).edit_state is None,
            final(self).visual_cursor == old(self).visual_cursor,
            final(self).clipboard == old(self).clipboard,
            final(self).snippet_repo == old(self).snippet_repo,
            final(self).request == old(self).request,
            final(self).config == old(self).config,
            final(self).path == old(self).path,
            final(self).rb.state == old(self).rb.state,
            final(self).rb.window == old(self).rb.window,
            final(self).rb.message_box == old(self).rb.message_box,
            final(self).rb.search.cur_word == old(self).rb.search.cur_word,
            final(self).rb.search.show == old(self).rb.search.show,
            final(self).rb.num_buffer == old(self).rb.num_buffer,
            r == (old(self).change_log_buffer.buf.undo_queue@.len() > 0),
            !r ==> final(self).rb == old(self).rb,
            r ==> final(self).rb.lines() == apply_rows(
                old(self).rb.lines(),
                swapped(old(self).change_log_buffer.buf.undo_queue@.last()@),
            ),
            r ==> final(self).rb.cursor == old(self).change_log_buffer.buf.undo_queue@.last().at,
            r ==> final(self).change_log_buffer.buf.undo_queue@ == old(self).change_log_buffer.buf.undo_queue@.drop_last(),
            r ==> final(self).change_log_buffer.buf.redo_stack@.last()@ == old(self).change_log_buffer.buf.undo_queue@.last()@,
            r ==> final(self).change_log_buffer.buf.redo_stack@.len() == old(self).change_log_buffer.buf.redo_stack@.len() + 1,
            r ==> final(self).change_log_buffer.buf.redo_stack@.drop_last() == old(self).change_log_buffer.buf.redo_stack@,
    {
        let ghost ls = self.rb.lines();
        let ghost q = self.change_log_buffer.buf.undo_queue@;
        let ghost rs = self.change_log_buffer.buf.redo_stack@;
        let log = self.change_log_buffer.pop_undo();
        if log.is_none() {
            return false;
        }
        self.rollback_sync_clock();
        let log = log.unwrap().swap();
        proof {
            assert(log@ == swapped(q.last()@));
            lemma_apply_rows(ls, log@);
            assert(ls[log.at.row as int] == self.rb.buf@[log.at.row as int]@);
        }
        self.apply_log(&log);
        self.rb.cursor = log.at;
        proof {
            let ls2 = self.rb.lines();
            lemma_materialize_flatten(ls2);
            assert(ls2 == apply_rows(ls, log@));
            let top = q.last();
            assert(swapped(log@) == top@);
            let r2 = self.change_log_buffer.buf.redo_stack@;
            assert(r2 == rs.push(r2.last()));
            assert(r2.last()@ == top@);
            assert(r2.drop_last() == rs);
            assert(redo_chain(ls2, r2));
        }
        true
    }

    /// Makes again the latest undone edit, and puts the cursor after what it
    /// inserted. Returns whether there was one.
    pub fn redo(&mut self) -> (r: bool)
        requires
            old(self).wf(),
            old(self).edit_state is None,
        ensures
            final(self).wf(),
            final(self).edit_state is None,
            final(self).visual_cursor == old(self).visual_cursor,
            final(self).clipboard == old(self).clipboard,
            final(self).snippet_repo == old(self).snippet_repo,
            final(self).request == old(self).request,
            final(self).config == old(self).config,
            final(self).path == old(self).path,
            final(self).rb.state == old(self).rb.state,
            final(self).rb.window == old(self).rb.window,
            final(self).rb.message_box == old(self).rb.message_box,
            final(self).rb.search.cur_word == old(self).rb.search.cur_word,
            final(self).rb.search.show == old(self).rb.search.show,
            final(self).rb.num_buffer == old(self).rb.num_buffer,
            r == (old(self).change_log_buffer.buf.redo_stack@.len() > 0),
            !r ==> final(self).rb == old(self).rb,
            r ==> final(self).rb.lines() == apply_rows(
                old(self).rb.lines(),
                old(self).change_log_buffer.buf.redo_stack@.last()@,
            ),
            r ==> offset(final(self).rb.lines(), final(self).rb.cursor) == offset(
                old(self).rb.lines(),
                old(self).change_log_buffer.buf.redo_stack@.last().at,
            ) + old(self).change_log_buffer.buf.redo_stack@.last().inserted@.len(),
            r ==> final(self).change_log_buffer.buf.redo_stack@ == old(self).change_log_buffer.buf.redo_stack@.drop_last(),
            r ==> final(self).change_log_buffer.buf.undo_queue@.last()@ == old(self).change_log_buffer.buf.redo_stack@.last()@,
            r ==> final(self).change_log_buffer.buf.undo_queue@.len() == old(self).change_log_buffer.buf.undo_queue@.len() + 1,
            r ==> final(self).change_log_buffer.buf.undo_queue@.drop_last() == old(self).change_log_buffer.buf.undo_queue@,
    {
        let ghost ls = self.rb.lines();
        let ghost q = self.change_log_buffer.buf.undo_queue@;
        let ghost rs = self.change_log_buffer.buf.redo_stack@;
        let log = self.change_log_buffer.pop_redo();
        if log.is_none() {
            return false;
        }
        let log = log.unwrap();
        let n_inserted = log.inserted.len();
        proof {
            lemma_apply_rows(ls, log@);
            assert(ls[log.at.row as int] == self.rb.buf@[log.at.row as int]@);
        }
        self.apply_log(&log);
        proof {
            let ls2 = self.rb.lines();
            lemma_materialize_flatten(ls2);
            assert(ls2 == apply_rows(ls, log@));
            assert(ls2[log.at.row as int] == self.rb.buf@[log.at.row as int]@);
        }
        self.rb.cursor = self.find_cursor_pair(log.at, n_inserted);
        proof {
            let ls2 = self.rb.lines();
            let q2 = self.change_log_buffer.buf.undo_queue@;
            assert(q2 == q.push(q2.last()));
            assert(q2.drop_last() == q);
            assert(undo_chain(ls2, q2));
            assert(redo_chain(ls2, self.change_log_buffer.buf.redo_stack@));
        }
        true
    }
}


/// A deletion leaves some of its region after it.
pub proof fn lemma_local_end_lt(ls: Seq<Seq<BufElem>>, r: CursorRange)
    requires
        all_lines_wf(ls),
        deletable(ls, r),
    ensures
        del_local_end(ls, r) < flatten(del_region(ls, r)).len(),
{
    if r.end.row == ls.len() - 1 && r.end.col == ls[r.end.row as int].len() {
        let region = del_region(ls, r);
        let a = r.start.row as int;
        let e = del_end(ls, r);
        let m = e.row - a;
        assert forall|j: int| 0 <= j < region.len() implies region[j] == ls[a + j] by {}
        assert(line_wf(ls[e.row as int]));
        assert(region.len() == m + 1);
        lemma_prefix_step(region, m);
        assert(region.take(region.len() as int) == region);
    } else {
        lemma_local_end_strict(ls, r);
    }
}

/// A copy of the rows.
pub fn copy_rows(v: &Vec<Vec<BufElem>>) -> (r: Vec<Vec<BufElem>>)
    ensures
        rows(r@) == rows(v@),
{
    let mut r: Vec<Vec<BufElem>> = Vec::new();
    let mut i: usize = 0;
    while i < v.len()
        invariant
            i <= v@.len(),
            r@.len() == i,
            forall|j: int| 0 <= j < i ==> (#[trigger] r@[j])@ == v@[j]@,
        decreases v@.len() - i,
    {
        r.push(change_log::copy_elems(&v[i]));
        i = i + 1;
    }
    assert(rows(r@) =~= rows(v@));
    r
}


impl EditBuffer {
    /// Shows the edit in progress: the rows it touches are written again from
    /// its text, and the cursor is put after what was typed before the typing
    /// cursor.
    #[verifier::rlimit(60)]
    fn writeback_edit_state(&mut self)
        requires
            old(self).edit_state matches Some(es) && es.ok() && old(self).rb.lines() == es.kept(),
            old(self).rb.search.inv_for(old(self).rb.lines()),
            forall|r: int| 0 <= r < old(self).rb.lines().len() ==> (#[trigger] old(self).rb.lines()[r]).len() <= max_size(),
            old(self).rb.window.inv(),
            old(self).rb.window.spec_width() <= max_size(),
            old(self).rb.window.spec_height() <= max_size(),
            old(self).rb.window.col_high <= 2 * max_size(),
            old(self).rb.window.row_high <= 2 * max_size(),
            old(self).change_log_buffer.inv(),
            old(self).snippet_repo.inv(),
            old(self).sync_clock matches Some(s) ==> change_log::stamp_given(s, old(self).change_log_buffer.next_stamp),
        ensures
            final(self).text_wf(),
            final(self).rb.lines() == old(self).edit_state->0.shown(),
            final(self).rb.cursor == old(self).edit_state->0.shown_cursor(),
            final(self).edit_state == old(self).edit_state,
            final(self).rb.state == old(self).rb.state,
            final(self).rb.num_buffer == old(self).rb.num_buffer,
            final(self).rb.window == old(self).rb.window,
            final(self).rb.search.cur_word == old(self).rb.search.cur_word,
            final(self).rb.search.show == old(self).rb.search.show,
            final(self).rb.message_box == old(self).rb.message_box,
            final(self).config == old(self).config,
            final(self).visual_cursor == old(self).visual_cursor,
            final(self).change_log_buffer == old(self).change_log_buffer,
            final(self).path == old(self).path,
            final(self).sync_clock == old(self).sync_clock,
            final(self).clipboard == old(self).clipboard,
            final(self).snippet_repo == old(self).snippet_repo,
            final(self).request == old(self).request,
    {
        let ghost es = self.edit_state->0;
        let ghost kept = es.kept();
        let ghost a = es.at.row as int;
        let ghost p = kept.take(a);
        let ghost s = kept.skip(a);
        let ghost db = es.diff_buffer;
        let ghost cache0 = self.rb.search.cache@;
        let (at, orig, pre, d0, d1, post) = match &self.edit_state {
            Some(es) => {
                proof {
                    lemma_edit_bounds(*es);
                }
                let pre = es.diff_buffer.pre_buf();
                let (mut d0, off) = es.diff_buffer.diff_buf_raw.flatten();
                let d1 = d0.split_off(off);
                let post = es.diff_buffer.post_buf();
                (es.at, copy_rows(&es.orig_buf), pre, d0, d1, post)
            },
            None => {
                return;
            },
        };
        let ghost tt = db.diff_buf_raw.text();
        assert(d0@ + d1@ == tt);
        let ghost t_all = pre@ + d0@ + d1@ + post@;
        assert(t_all == es.text());
        self.rb.buf = orig;
        proof {
            assert(self.rb.lines() == p + s);
            assert(self.rb.lines().len() == self.rb.buf@.len());
            lemma_edit_bounds(es);
            lemma_lines_of(Seq::<BufElem>::empty());
            assert(materialize(Seq::<BufElem>::empty()) == seq![Seq::<BufElem>::empty()]);
        }
        let ghost cache1 = self.rb.search.cache@;
        self.insert_new_line(at.row);
        proof {
            assert(self.rb.lines() == p + materialize(Seq::<BufElem>::empty()) + s);
            assert(self.rb.search.cache@.take(a) =~= cache1.take(a));
            assert(self.rb.search.cache@.skip(a + 1) =~= cache1.skip(a));
            assert(Seq::<BufElem>::empty() + pre@ == pre@);
        }
        let ghost cache2 = self.rb.search.cache@;
        let mut b = false;
        let after_pre_inserted = self.insert(
            Cursor { row: at.row, col: 0 },
            &pre,
            &mut b,
            Ghost(p),
            Ghost(Seq::empty()),
            Ghost(s),
        );
        let after_diff0_inserted = self.insert(after_pre_inserted, &d0, &mut b, Ghost(p), Ghost(pre@), Ghost(s));
        let after_diff1_inserted = self.insert(
            after_diff0_inserted,
            &d1,
            &mut b,
            Ghost(p),
            Ghost(pre@ + d0@),
            Ghost(s),
        );
        let _ = self.insert(after_diff1_inserted, &post, &mut b, Ghost(p), Ghost(pre@ + d0@ + d1@), Ghost(s));
        self.rb.cursor = after_diff0_inserted;
        proof {
            let lines = self.rb.lines();
            let t = es.text();
            assert(lines == p + materialize(t) + s);
            assert(lines == es.shown());
            lemma_materialize_wf(t);
            let c = self.rb.search.cache@;
            let m = materialize(t).len();
            assert(c.take(a) == cache0.take(a));
            assert(c.skip(a + m) == cache0.skip(a));
            assert(all_lines_wf(lines)) by {
                assert forall|i: int| 0 <= i < lines.len() implies #[trigger] line_wf(lines[i]) by {
                    if i < a {
                        assert(lines[i] == kept[i]);
                    } else if i < a + m {
                        assert(lines[i] == materialize(t)[i - a]);
                    } else {
                        assert(lines[i] == kept[i - m]);
                    }
                }
            }
            assert forall|i: int| 0 <= i < lines.len() implies (#[trigger] c[i]).valid_for(lines[i]) by {
                if i < a {
                    assert(c[i] == c.take(a)[i]);
                    assert(c[i] == cache0.take(a)[i]);
                    assert(lines[i] == kept[i]);
                } else if i < a + m {
                    assert(fresh(c[i]));
                } else {
                    assert(c[i] == c.skip(a + m)[i - a - m]);
                    assert(c[i] == cache0.skip(a)[i - a - m]);
                    assert(lines[i] == kept[i - m]);
                }
            }
            assert forall|i: int| 0 <= i < lines.len() implies (#[trigger] lines[i]).len() <= max_size() by {
                if i < a {
                    assert(lines[i] == kept[i]);
                    assert(kept[i] == old(self).rb.lines()[i]);
                } else if i < a + m {
                    assert(lines[i] == materialize(t)[i - a]);
                } else {
                    assert(lines[i] == kept[i - m]);
                    assert(kept[i - m] == old(self).rb.lines()[i - m]);
                }
            }
        }
    }
}

/// The sizes of an edit in progress are bounded.
pub proof fn lemma_edit_bounds(es: EditState)
    requires
        es.ok(),
    ensures
        ({
            let kept = es.kept();
            let a = es.at.row as int;
            let p = kept.take(a);
            let s = kept.skip(a);
            &&& all_lines_wf(p)
            &&& all_lines_wf(s)
            &&& p.len() + s.len() + es.text().len() + 1 <= max_size()
            &&& flatten(p).len() + es.text().len() + flatten(s).len() <= es.base_text().len() + es.diff_buffer.spec_inserted().len()
            &&& es.diff_buffer.diff_buf_raw.text().len() <= usize::MAX
            &&& es.diff_buffer.diff_buf_raw.pre_buffer@.len() + es.diff_buffer.diff_buf_raw.text().len() <= max_size()
            &&& ends_eol(es.text())
            &&& p.len() + s.len() == kept.len()
            &&& kept == p + s
        }),
{
    let kept = es.kept();
    let a = es.at.row as int;
    let p = kept.take(a);
    let s = kept.skip(a);
    assert(kept == p + s);
    assert(all_lines_wf(p)) by {
        assert forall|i: int| 0 <= i < p.len() implies #[trigger] line_wf(p[i]) by {
            assert(p[i] == kept[i]);
        }
    }
    assert(all_lines_wf(s)) by {
        assert forall|i: int| 0 <= i < s.len() implies #[trigger] line_wf(s[i]) by {
            assert(s[i] == kept[i + a]);
        }
    }
    lemma_materialize_wf_len(p);
    lemma_materialize_wf_len(s);
    assert(es.text().last() == es.diff_buffer.post_buf_raw@.last());
}


/// What a deletion of `r` takes out of the rows.
pub open spec fn deleted_text(ls: Seq<Seq<BufElem>>, r: CursorRange) -> Seq<BufElem> {
    flatten(del_region(ls, r)).subrange(r.start.col as int, del_local_end(ls, r))
}

/// The edit that replaces the range by `ins`.
pub open spec fn edit_log(ls: Seq<Seq<BufElem>>, r: CursorRange, ins: Seq<BufElem>) -> LogView {
    LogView { at: r.start, deleted: deleted_text(ls, r), inserted: ins }
}

/// Where the cursor stands after `x` is written from the start of the range's
/// row: `x` is what survives of the row before the range, and what is put
/// before the cursor.
pub open spec fn cursor_after(r: CursorRange, x: Seq<BufElem>) -> Cursor {
    Cursor { row: (r.start.row + lines_of(x).len() - 1) as usize, col: lines_of(x).last().len() as usize }
}

/// `n` is `o` with an edit of the range started: `pre` and `post` are put
/// around where typing goes, and the cursor is between them.
pub open spec fn started_edit(
    o: EditBuffer,
    n: EditBuffer,
    r: CursorRange,
    pre: Seq<BufElem>,
    post: Seq<BufElem>,
) -> bool {
    let ls = o.rb.lines();
    let reg = flatten(del_region(ls, r));
    &&& n.edit_state matches Some(es) && {
        &&& es.at == r.start
        &&& es.removed@ == deleted_text(ls, r)
        &&& es.diff_buffer.pre_buf_raw@ == reg.take(r.start.col as int)
        &&& es.diff_buffer.post_buf_raw@ == reg.skip(del_local_end(ls, r))
        &&& es.diff_buffer.diff_buf_pre@ == pre
        &&& es.diff_buffer.diff_buf_post@ == post
        &&& es.diff_buffer.diff_buf_raw.text().len() == 0
        &&& es.diff_buffer.diff_buf_raw.cursor() == 0
        &&& es.diff_buffer.indent_type == o.config.indent_type
        &&& es.base() == ls
        &&& es.log() == edit_log(ls, r, pre + post)
        &&& n.rb.lines() == apply_rows(ls, edit_log(ls, r, pre + post))
    }
    &&& n.rb.cursor == cursor_after(r, reg.take(r.start.col as int) + pre)
    &&& n.visual_cursor is None
    &&& n.rb.state == o.rb.state
    &&& n.rb.num_buffer == o.rb.num_buffer
    &&& n.rb.window == o.rb.window
    &&& n.rb.search.cur_word == o.rb.search.cur_word
    &&& n.rb.search.show == o.rb.search.show
    &&& n.rb.message_box == o.rb.message_box
    &&& n.config == o.config
    &&& n.change_log_buffer == o.change_log_buffer
    &&& n.path == o.path
    &&& n.sync_clock == o.sync_clock
    &&& n.clipboard == o.clipboard
    &&& n.snippet_repo == o.snippet_repo
    &&& n.request == o.request
}

impl EditBuffer {
    /// Starts an edit: the range is taken out, `init_pre` and `init_post` are
    /// put in its place around where typing goes, and the edit is shown.
    #[verifier::rlimit(80)]
    fn create_edit_state(&mut self, r: &CursorRange, init_pre: Vec<BufElem>, init_post: Vec<BufElem>)
        requires
            old(self).wf(),
            old(self).edit_state is None,
            deletable(old(self).rb.lines(), *r),
            old(self).text().len() + init_pre@.len() + init_post@.len() + 1 <= max_size(),
        ensures
            final(self).wf(),
            started_edit(*old(self), *final(self), *r, init_pre@, init_post@),
    {
        let ghost ls = self.rb.lines();
        let ghost cache0 = self.rb.search.cache@;
        let ghost a = r.start.row as int;
        proof {
            lemma_split_text(ls, *r);
            lemma_local_end(ls, *r);
            lemma_local_end_lt(ls, *r);
        }
        let ghost last = del_last(ls, *r);
        let ghost reg = flatten(del_region(ls, *r));
        let ghost le = del_local_end(ls, *r);
        let (pre_survivors, removed, post_survivors) = self.prepare_delete(r);
        let orig_buf = copy_rows(&self.rb.buf);
        let ghost kept = rows(orig_buf@);
        proof {
            assert(kept == ls.take(a) + ls.skip(last + 1));
            assert(kept.take(a) == ls.take(a));
            assert(kept.skip(a) == ls.skip(last + 1));
            let region = del_region(ls, *r);
            assert(region[0] == ls[a]);
            assert(line_wf(ls[a]));
            assert forall|i: int| 0 <= i < r.start.col implies pre_survivors@[i] != BufElem::Eol by {
                lemma_flatten_index(region, 0, i);
                assert(region.take(0) == Seq::<Seq<BufElem>>::empty());
                assert(flatten(region.take(0)) == Seq::<BufElem>::empty());
                assert(pre_survivors@[i] == reg[i]);
            }
            assert(post_survivors@.last() == reg.last());
            assert(reg == pre_survivors@ + removed@ + post_survivors@);
        }
        let diff_buffer = DiffBuffer::new(
            pre_survivors,
            init_pre,
            init_post,
            post_survivors,
            self.config.indent_type,
        );
        self.edit_state = Some(EditState { diff_buffer, at: r.start, removed, orig_buf });
        proof {
            let es = self.edit_state->0;
            assert(es.kept() == kept);
            assert(es.base_text() == flatten(ls)) by {
                assert(es.base_text() == flatten(ls.take(a)) + (reg.take(r.start.col as int) + reg.subrange(
                    r.start.col as int,
                    le,
                ) + reg.skip(le)) + flatten(ls.skip(last + 1)));
                assert(reg.take(r.start.col as int) + reg.subrange(r.start.col as int, le) + reg.skip(le) == reg);
            }
            lemma_materialize_flatten(ls);
            assert(es.base() == ls);
            assert(es.diff_buffer.spec_inserted() == init_pre@ + es.diff_buffer.diff_buf_raw.text() + init_post@);
            assert(es.ok());
            let c = self.rb.search.cache@;
            let lines = self.rb.lines();
            assert forall|i: int| 0 <= i < lines.len() implies (#[trigger] c[i]).valid_for(lines[i]) && line_wf(
                lines[i],
            ) && lines[i].len() <= max_size() by {
                if i < a {
                    assert(c[i] == cache0[i]);
                    assert(lines[i] == ls[i]);
                } else {
                    assert(c[i] == cache0[i - a + last + 1]);
                    assert(lines[i] == ls[i - a + last + 1]);
                }
            }
        }
        self.writeback_edit_state();
        self.visual_cursor = None;
        proof {
            let es = self.edit_state->0;
            lemma_es_log(es);
            assert(es.diff_buffer.spec_inserted() == init_pre@ + init_post@);
            assert(es.log() == edit_log(ls, *r, init_pre@ + init_post@));
            lemma_edit_bounds(es);
            lemma_materialize_sandwich(es.kept().take(a), es.text(), es.kept().skip(a));
            lemma_materialize_wf(es.text());
            assert(self.rb.lines().len() >= 1);
        }
    }
}


/// The edit in progress is the change from the rows before it to the rows
/// shown.
pub proof fn lemma_es_log(es: EditState)
    requires
        es.ok(),
    ensures
        rows_wf(es.base()),
        flatten(es.base()) == es.base_text(),
        applicable(es.base(), es.log()),
        apply_rows(es.base(), es.log()) == es.shown(),
{
    lemma_edit_bounds(es);
    let kept = es.kept();
    let a = es.at.row as int;
    let p = kept.take(a);
    let s = kept.skip(a);
    let db = es.diff_buffer;
    let t0 = db.pre_buf_raw@ + es.removed@ + db.post_buf_raw@;
    assert(t0.last() == db.post_buf_raw@.last());
    assert(es.base_text() == flatten(p) + t0 + flatten(s));
    lemma_materialize_sandwich(p, t0, s);
    lemma_materialize_wf(t0);
    let base = es.base();
    assert(base == p + materialize(t0) + s);
    assert(base.take(a) == p);
    assert forall|i: int| 0 <= i < es.at.col implies t0[i] != BufElem::Eol by {
        assert(t0[i] == db.pre_buf_raw@[i]);
    }
    lemma_first_line(t0, es.at.col as int);
    assert(base[a] == materialize(t0)[0]);
    assert(offset(base, es.at) == flatten(p).len() + es.at.col);
    let o = offset(base, es.at);
    assert(es.base_text().subrange(o, o + es.removed@.len()) == es.removed@);
    assert(replace(es.base_text(), o, es.removed@.len() as int, db.spec_inserted()) == flatten(p) + es.text() + flatten(
        s,
    ));
    lemma_materialize_sandwich(p, es.text(), s);
    assert(all_lines_wf(base)) by {
        assert forall|i: int| 0 <= i < base.len() implies #[trigger] line_wf(base[i]) by {
            if i < a {
                assert(base[i] == p[i]);
            } else if i < a + materialize(t0).len() {
                assert(base[i] == materialize(t0)[i - a]);
            } else {
                assert(base[i] == s[i - a - materialize(t0).len()]);
            }
        }
    }
}

impl EditBuffer {
    /// Takes the rows of the edit in progress out again.
    fn restore_buf_before_writeback(&mut self)
        requires
            old(self).wf(),
            old(self).edit_state is Some,
        ensures
            final(self).rb.lines() == old(self).edit_state->0.kept(),
            final(self).rb.search.inv_for(final(self).rb.lines()),
            forall|r: int| 0 <= r < final(self).rb.lines().len() ==> (#[trigger] final(self).rb.lines()[r]).len() <= max_size(),
            final(self).same_but_rows(old(self)),
    {
        let ghost es = self.edit_state->0;
        let ghost a = es.at.row as int;
        let ghost kept = es.kept();
        let ghost ls = self.rb.lines();
        let ghost cache0 = self.rb.search.cache@;
        let ghost t = es.text();
        proof {
            lemma_edit_bounds(es);
            lemma_materialize_wf(t);
        }
        let ghost m = materialize(t).len() as int;
        let (n, mm, at) = match &self.edit_state {
            Some(es) => (self.rb.buf.len(), es.orig_buf.len(), es.at),
            None => {
                return;
            },
        };
        assert(ls.len() == n);
        assert(kept.len() == mm);
        let rows_to_remove = n - mm;
        let mut i = rows_to_remove;
        while i > 0
            invariant
                i <= rows_to_remove,
                rows_to_remove == m,
                at == es.at,
                a == at.row,
                a + m <= ls.len(),
                n == ls.len(),
                ls == kept.take(a) + materialize(t) + kept.skip(a),
                self.same_but_rows(old(self)),
                self.rb.lines() == ls.take(a + i) + ls.skip(a + m),
                self.rb.search.cache@ == cache0.take(a + i) + cache0.skip(a + m),
                self.rb.search.cache@.len() == self.rb.buf@.len(),
                cache0.len() == ls.len(),
            decreases i,
        {
            i = i - 1;
            let row = at.row + i;
            assert(self.rb.lines().len() == self.rb.buf@.len());
            self.remove_line(row);
            proof {
                assert((ls.take(a + i + 1) + ls.skip(a + m)).remove(row as int) == ls.take(a + i) + ls.skip(a + m));
                assert((cache0.take(a + i + 1) + cache0.skip(a + m)).remove(row as int) == cache0.take(a + i)
                    + cache0.skip(a + m));
            }
        }
        proof {
            let lines = self.rb.lines();
            assert(ls.take(a) == kept.take(a));
            assert(ls.skip(a + m) == kept.skip(a));
            assert(lines == kept);
            let c = self.rb.search.cache@;
            assert forall|r: int| 0 <= r < lines.len() implies (#[trigger] c[r]).valid_for(lines[r]) && line_wf(lines[r])
                && lines[r].len() <= max_size() by {
                if r < a {
                    assert(c[r] == cache0[r]);
                    assert(lines[r] == ls[r]);
                } else {
                    assert(c[r] == cache0[r + m]);
                    assert(lines[r] == ls[r + m]);
                }
            }
        }
    }

    /// Ends the edit in progress: it is recorded in the history, unless it
    /// changed nothing. Returns what it took out.
    fn commit_edit_state(&mut self) -> (r: Vec<BufElem>)
        requires
            old(self).wf(),
            old(self).edit_state is Some,
        ensures
            final(self).wf(),
            final(self).edit_state is None,
            r@ == old(self).edit_state->0.removed@,
            final(self).rb == old(self).rb,
            final(self).rb.lines() == apply_rows(old(self).edit_state->0.base(), old(self).edit_state->0.log()),
            applicable(old(self).edit_state->0.base(), old(self).edit_state->0.log()),
            ({
                let l = old(self).edit_state->0.log();
                if l.deleted.len() > 0 || l.inserted.len() > 0 {
                    &&& final(self).change_log_buffer.buf.undo_queue@.len() > 0
                    &&& final(self).change_log_buffer.buf.undo_queue@.last()@ == l
                    &&& final(self).change_log_buffer.buf.redo_stack@.len() == 0
                    &&& old(self).change_log_buffer.next_stamp < u64::MAX ==> final(self).spec_dirty()
                } else {
                    final(self).change_log_buffer == old(self).change_log_buffer
                }
            }),
            final(self).config == old(self).config,
            final(self).visual_cursor == old(self).visual_cursor,
            final(self).path == old(self).path,
            final(self).sync_clock == old(self).sync_clock,
            final(self).clipboard == old(self).clipboard,
            final(self).snippet_repo == old(self).snippet_repo,
            final(self).request == old(self).request,
    {
        let ghost es0 = self.edit_state->0;
        proof {
            lemma_es_log(es0);
            lemma_edit_bounds(es0);
            lemma_apply_rows(es0.base(), es0.log());
        }
        let edit_state = self.edit_state.take().unwrap();
        let change_log = ChangeLog::new(
            edit_state.at,
            change_log::copy_elems(&edit_state.removed),
            edit_state.diff_buffer.inserted(),
        );
        if change_log.deleted.len() > 0 || change_log.inserted.len() > 0 {
            let ghost q = self.change_log_buffer.buf.undo_queue@;
            self.change_log_buffer.push(change_log);
            proof {
                let ls = self.rb.lines();
                let q2 = q.push(self.change_log_buffer.buf.undo_queue@.last());
                assert(undo_chain(ls, q2)) by {
                    assert(q2.last()@ == es0.log());
                    assert(q2.drop_last() == q);
                }
                if q2.len() > change_log::CHANGE_LOG_CAPACITY {
                    lemma_undo_chain_suffix(ls, q2, q2.len() - change_log::CHANGE_LOG_CAPACITY);
                    assert(q2.skip(q2.len() - change_log::CHANGE_LOG_CAPACITY) == q2.subrange(
                        q2.len() - change_log::CHANGE_LOG_CAPACITY,
                        q2.len() as int,
                    ));
                }
                assert(q.push(change_log) == q2);
            }
        } else {
            proof {
                assert(es0.log().inserted.len() == 0 && es0.log().deleted.len() == 0);
                lemma_replace_empty(es0.base_text(), offset(es0.base(), es0.at));
                lemma_materialize_flatten(es0.base());
            }
        }
        edit_state.removed
    }
}

/// Replacing nothing with nothing changes nothing.
pub proof fn lemma_replace_empty(t: Seq<BufElem>, o: int)
    requires
        0 <= o <= t.len(),
    ensures
        replace(t, o, 0, Seq::empty()) == t,
{
    assert(t.take(o) + Seq::<BufElem>::empty() + t.skip(o) == t);
}

} // verus!
