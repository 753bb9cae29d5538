use vstd::prelude::*;
use crate::Key;
use crate::controller::{Effect, ControllerFSM, Graph, with_edges, table_view};
use crate::read_buffer::{ReadAction, FromReadAction, max_size, INIT, read_graph, add_edges};
use super::{EditBuffer, deleted_text};
use super::effects::{COMMAND, REPLACE_ONCE, WILL_DELETE, WILL_YANK, WILL_CHANGE, INSERT, SNIPPET, visual_ok, spec_visual_range, row_range, clip_len, input_fits, MAX_SIZE};
use super::snippet_effects::snippet_ready;
use super::indent::{IndentType, indent_elems};
use super::clipboard::Type;

verus! {

/// The actions that keys trigger on an `EditBuffer`: those of its read buffer,
/// and the editing ones.
#[derive(Debug, Clone, Copy, PartialEq, Eq, Structural)]
pub enum EditAction {
    Read(ReadAction),
    Undo,
    Redo,
    JoinNextLine,
    EnterInsertNewline,
    EnterInsertNewlineAbove,
    EnterInsertMode,
    EnterInsertModeLineLast,
    EnterAppendMode,
    ChangeLineTail,
    ChangeRange,
    ChangeWord,
    EditModeInput,
    LeaveEditMode,
    DeleteLineTail,
    DeleteLine,
    DeleteRange,
    DeleteWord,
    DeleteChar,
    CancelWillMode,
    Paste,
    PasteAbove,
    PasteSystem,
    YankRange,
    YankLine,
    IndentBack,
    IndentForward,
    EnterVisualMode,
    Reset,
    EnterReplaceOnceMode,
    CancelReplaceOnceMode,
    CommitReplaceOnce,
    EnterCommandMode,
    CancelCommandMode,
    ExecuteCommand,
    EnterSnippetMode,
    InsertSnippet,
    LeaveSnippetMode,
    CursorUpSnippetMode,
    CursorDownSnippetMode,
}

impl FromReadAction for EditAction {
    open spec fn spec_from_read(a: ReadAction) -> Self {
        EditAction::Read(a)
    }

    fn from_read(a: ReadAction) -> (r: Self) {
        EditAction::Read(a)
    }
}

/// The width of one level of indentation.
fn indent_width(x: IndentType) -> (r: usize)
    ensures
        r == indent_elems(x).len(),
{
    match x {
        IndentType::Spaces(n) => n,
        IndentType::Tab => 1,
    }
}

impl EditBuffer {
    /// On which values and keys each action can run.
    pub open spec fn can_run_edit(&self, a: EditAction, k: Key) -> bool {
        &&& self.wf()
        &&& match a {
            EditAction::Read(r) => self.rb.can_run_read(r, k),
            EditAction::Undo | EditAction::Redo => self.edit_state is None,
            EditAction::JoinNextLine | EditAction::EnterInsertMode | EditAction::EnterInsertModeLineLast
            | EditAction::EnterAppendMode | EditAction::ChangeLineTail | EditAction::ChangeWord
            | EditAction::DeleteLineTail | EditAction::DeleteLine | EditAction::DeleteWord => self.edit_ready(0),
            EditAction::EnterInsertNewline => self.edit_ready(
                1 + self.cur_line().len() + indent_elems(self.config.indent_type).len(),
            ),
            EditAction::EnterInsertNewlineAbove => self.edit_ready(1 + self.cur_line().len()),
            EditAction::ChangeRange | EditAction::DeleteRange | EditAction::DeleteChar | EditAction::IndentBack => {
                self.edit_ready(0) && visual_ok(*self)
            },
            EditAction::EditModeInput => input_fits(*self, k),
            EditAction::LeaveEditMode => self.edit_state is Some,
            EditAction::Paste | EditAction::PasteAbove => self.edit_ready(clip_len(*self) + 1),
            EditAction::YankRange => {
                &&& self.edit_ready(0)
                &&& visual_ok(*self)
                &&& self.visual_cursor is Some ==> deleted_text(self.rb.lines(), spec_visual_range(*self)->0).len() > 0
            },
            EditAction::YankLine => {
                &&& self.edit_ready(0)
                &&& deleted_text(self.rb.lines(), row_range(self.rb.cursor.row, self.cur_line().len() as int)).len() > 0
            },
            EditAction::IndentForward => {
                &&& self.edit_ready(0)
                &&& visual_ok(*self)
                &&& self.text().len() + (self.rb.buf@.len() + 1) * indent_elems(self.config.indent_type).len() + 1
                    <= max_size()
            },
            EditAction::CommitReplaceOnce => self.edit_ready(1),
            EditAction::InsertSnippet => snippet_ready(*self),
            EditAction::CursorUpSnippetMode | EditAction::CursorDownSnippetMode => true,
            _ => true,
        }
    }

    /// Whether an edit can start at the cursor with `added` elements put in.
    pub fn edit_ready_exec(&self, added: usize) -> (r: bool)
        requires
            self.wf(),
        ensures
            r == self.edit_ready(added as nat),
    {
        if self.edit_state.is_some() {
            return false;
        }
        let row = self.rb.cursor.row;
        if row >= self.rb.buf.len() || self.rb.cursor.col >= self.rb.buf[row].len() {
            return false;
        }
        if added >= MAX_SIZE {
            return false;
        }
        let t = self.text_len();
        t + added < MAX_SIZE
    }

    /// Whether the selection is on elements of the buffer.
    pub fn visual_ok_exec(&self) -> (r: bool)
        ensures
            r == visual_ok(*self),
    {
        match self.visual_cursor {
            None => true,
            Some(vc) => vc.row < self.rb.buf.len() && vc.col < self.rb.buf[vc.row].len(),
        }
    }

    /// How many elements the clipboard holds.
    pub fn clip_len_exec(&self) -> (r: usize)
        ensures
            r == clip_len(*self),
    {
        match &self.clipboard.x {
            None => 0,
            Some(Type::Range(v)) => v.len(),
            Some(Type::Line(v)) => v.len(),
        }
    }

    /// Whether the action can run with the key.
    pub fn ready_edit(&self, a: EditAction, k: Key) -> (r: bool)
        requires
            self.wf(),
        ensures
            r == self.can_run_edit(a, k),
    {
        match a {
            EditAction::Read(ra) => self.rb.ready_read(ra, k),
            EditAction::Undo | EditAction::Redo => self.edit_state.is_none(),
            EditAction::JoinNextLine | EditAction::EnterInsertMode | EditAction::EnterInsertModeLineLast
            | EditAction::EnterAppendMode | EditAction::ChangeLineTail | EditAction::ChangeWord
            | EditAction::DeleteLineTail | EditAction::DeleteLine | EditAction::DeleteWord => self.edit_ready_exec(0),
            EditAction::EnterInsertNewline | EditAction::EnterInsertNewlineAbove => {
                let row = self.rb.cursor.row;
                if self.edit_state.is_some() || row >= self.rb.buf.len() || self.rb.cursor.col
                    >= self.rb.buf[row].len() {
                    return false;
                }
                let n = self.rb.buf[row].len();
                assert(self.rb.lines()[row as int] == self.rb.buf@[row as int]@);
                let ind = match a {
                    EditAction::EnterInsertNewline => indent_width(self.config.indent_type),
                    _ => 0,
                };
                if ind >= MAX_SIZE {
                    return false;
                }
                self.edit_ready_exec(1 + n + ind)
            },
            EditAction::ChangeRange | EditAction::DeleteRange | EditAction::DeleteChar | EditAction::IndentBack => {
                self.edit_ready_exec(0) && self.visual_ok_exec()
            },
            EditAction::EditModeInput => {
                if self.edit_state.is_none() {
                    return false;
                }
                self.input_fits(k)
            },
            EditAction::LeaveEditMode => self.edit_state.is_some(),
            EditAction::Paste | EditAction::PasteAbove => {
                let c = self.clip_len_exec();
                if c >= MAX_SIZE {
                    return false;
                }
                self.edit_ready_exec(c + 1)
            },
            EditAction::YankRange => {
                if !self.edit_ready_exec(0) || !self.visual_ok_exec() {
                    return false;
                }
                proof {
                    let c = self.rb.cursor;
                    assert(self.rb.lines()[c.row as int] == self.rb.buf@[c.row as int]@);
                    if self.visual_cursor is Some {
                        let vc = self.visual_cursor->0;
                        assert(self.rb.lines()[vc.row as int] == self.rb.buf@[vc.row as int]@);
                    }
                }
                match self.visual_range() {
                    None => true,
                    Some(vr) => {
                        proof {
                            self.lemma_visual_deletable();
                        }
                        self.deleted_len(&vr) > 0
                    },
                }
            },
            EditAction::YankLine => {
                if !self.edit_ready_exec(0) {
                    return false;
                }
                let row = self.rb.cursor.row;
                let n = self.rb.buf[row].len();
                let r = crate::read_buffer::CursorRange {
                    start: crate::read_buffer::Cursor { row, col: 0 },
                    end: crate::read_buffer::Cursor { row, col: n },
                };
                assert(self.rb.lines()[row as int] == self.cur_line());
                self.deleted_len(&r) > 0
            },
            EditAction::IndentForward => {
                if !self.edit_ready_exec(0) || !self.visual_ok_exec() {
                    return false;
                }
                let t = self.text_len();
                let n = self.rb.buf.len();
                let ind = indent_width(self.config.indent_type);
                match (n + 1).checked_mul(ind) {
                    None => false,
                    Some(p) => {
                        if p >= MAX_SIZE {
                            false
                        } else {
                            t + p < MAX_SIZE
                        }
                    },
                }
            },
            EditAction::CommitReplaceOnce => self.edit_ready_exec(1),
            EditAction::InsertSnippet => {
                if self.edit_state.is_none() || self.snippet_repo.rb.cursor.row >= self.snippet_repo.current_matches().len() {
                    return false;
                }
                self.snippet_fits()
            },
            _ => true,
        }
    }

    /// The effect bound to the action `a`: what its `eff_*` function (or the
    /// read buffer's, for a read action) does with the key `k`, leaving `s1`
    /// from `s0` and the state `r`.
    pub open spec fn edit_post(a: EditAction, s0: EditBuffer, s1: EditBuffer, k: Key, r: String) -> bool {
        match a {
            EditAction::Read(ra) => crate::read_buffer::ReadBuffer::read_leads_to(s0.rb, ra, k, s1.rb, r) && s1 == (
            EditBuffer { rb: s1.rb, ..s0 }),
            EditAction::Undo => EditBuffer::eff_undo_post(s0, s1, k, r),
            EditAction::Redo => EditBuffer::eff_redo_post(s0, s1, k, r),
            EditAction::JoinNextLine => EditBuffer::eff_join_next_line_post(s0, s1, k, r),
            EditAction::EnterInsertNewline => EditBuffer::eff_enter_insert_newline_post(s0, s1, k, r),
            EditAction::EnterInsertNewlineAbove => EditBuffer::eff_enter_insert_newline_above_post(s0, s1, k, r),
            EditAction::EnterInsertMode => EditBuffer::eff_enter_insert_mode_post(s0, s1, k, r),
            EditAction::EnterInsertModeLineLast => EditBuffer::eff_enter_insert_mode_line_last_post(s0, s1, k, r),
            EditAction::EnterAppendMode => EditBuffer::eff_enter_append_mode_post(s0, s1, k, r),
            EditAction::ChangeLineTail => EditBuffer::eff_change_line_tail_post(s0, s1, k, r),
            EditAction::ChangeRange => EditBuffer::eff_change_range_post(s0, s1, k, r),
            EditAction::ChangeWord => EditBuffer::eff_change_word_post(s0, s1, k, r),
            EditAction::EditModeInput => EditBuffer::eff_edit_mode_input_post(s0, s1, k, r),
            EditAction::LeaveEditMode => EditBuffer::eff_leave_edit_mode_post(s0, s1, k, r),
            EditAction::DeleteLineTail => EditBuffer::eff_delete_line_tail_post(s0, s1, k, r),
            EditAction::DeleteLine => EditBuffer::eff_delete_line_post(s0, s1, k, r),
            EditAction::DeleteRange => EditBuffer::eff_delete_range_post(s0, s1, k, r),
            EditAction::DeleteWord => EditBuffer::eff_delete_word_post(s0, s1, k, r),
            EditAction::DeleteChar => EditBuffer::eff_delete_char_post(s0, s1, k, r),
            EditAction::CancelWillMode => EditBuffer::eff_cancel_will_mode_post(s0, s1, k, r),
            EditAction::Paste => EditBuffer::eff_paste_post(s0, s1, k, r),
            EditAction::PasteAbove => EditBuffer::eff_paste_above_post(s0, s1, k, r),
            EditAction::PasteSystem => EditBuffer::eff_paste_system_post(s0, s1, k, r),
            EditAction::YankRange => EditBuffer::eff_yank_range_post(s0, s1, k, r),
            EditAction::YankLine => EditBuffer::eff_yank_line_post(s0, s1, k, r),
            EditAction::IndentBack => EditBuffer::eff_indent_back_post(s0, s1, k, r),
            EditAction::IndentForward => EditBuffer::eff_indent_forward_post(s0, s1, k, r),
            EditAction::EnterVisualMode => EditBuffer::eff_enter_visual_mode_post(s0, s1, k, r),
            EditAction::Reset => EditBuffer::eff_reset_post(s0, s1, k, r),
            EditAction::EnterReplaceOnceMode => EditBuffer::eff_enter_replace_once_mode_post(s0, s1, k, r),
            EditAction::CancelReplaceOnceMode => EditBuffer::eff_cancel_replace_once_mode_post(s0, s1, k, r),
            EditAction::CommitReplaceOnce => EditBuffer::eff_commit_replace_once_post(s0, s1, k, r),
            EditAction::EnterCommandMode => EditBuffer::eff_enter_command_mode_post(s0, s1, k, r),
            EditAction::CancelCommandMode => EditBuffer::eff_cancel_command_mode_post(s0, s1, k, r),
            EditAction::ExecuteCommand => EditBuffer::eff_execute_command_post(s0, s1, k, r),
            EditAction::EnterSnippetMode => EditBuffer::eff_enter_snippet_mode_post(s0, s1, k, r),
            EditAction::InsertSnippet => EditBuffer::eff_insert_snippet_post(s0, s1, k, r),
            EditAction::LeaveSnippetMode => EditBuffer::eff_leave_snippet_mode_post(s0, s1, k, r),
            EditAction::CursorUpSnippetMode => EditBuffer::eff_cursor_up_snippet_mode_post(s0, s1, k, r),
            EditAction::CursorDownSnippetMode => EditBuffer::eff_cursor_down_snippet_mode_post(s0, s1, k, r),
        }
    }

    /// Running `a` with `k` on `s0` leaves `s1` in the state `to`: the effect
    /// bound to `a`, then the state recorded in the buffer.
    pub open spec fn edit_leads_to(s0: EditBuffer, a: EditAction, k: Key, s1: EditBuffer, to: String) -> bool {
        &&& s1.rb.state@ == to@
        &&& exists|m: EditBuffer|
            #[trigger] EditBuffer::edit_post(a, s0, m, k, to) && s1 == (EditBuffer {
                rb: crate::read_buffer::ReadBuffer { state: s1.rb.state, ..m.rb },
                ..m
            })
    }

    /// Records the state that the last action moved to.
    fn set_state(&mut self, s: &String)
        requires
            old(self).wf(),
        ensures
            final(self).wf(),
            final(self).rb.state@ == s@,
            *final(self) == (EditBuffer {
                rb: crate::read_buffer::ReadBuffer { state: final(self).rb.state, ..old(self).rb },
                ..*old(self)
            }),
    {
        self.rb.state = s.clone();
    }

    /// Runs the action and returns the state it moves to, which the buffer
    /// also records.
    pub fn run_edit(&mut self, a: EditAction, k: Key) -> (r: String)
        requires
            old(self).can_run_edit(a, k),
        ensures
            final(self).wf(),
            final(self).rb.state@ == r@,
            EditBuffer::edit_leads_to(*old(self), a, k, *final(self), r),
    {
        let r = match a {
            EditAction::Read(ra) => self.rb.run_read(ra, k),
            EditAction::Undo => self.eff_undo(k),
            EditAction::Redo => self.eff_redo(k),
            EditAction::JoinNextLine => self.eff_join_next_line(k),
            EditAction::EnterInsertNewline => self.eff_enter_insert_newline(k),
            EditAction::EnterInsertNewlineAbove => self.eff_enter_insert_newline_above(k),
            EditAction::EnterInsertMode => self.eff_enter_insert_mode(k),
            EditAction::EnterInsertModeLineLast => self.eff_enter_insert_mode_line_last(k),
            EditAction::EnterAppendMode => self.eff_enter_append_mode(k),
            EditAction::ChangeLineTail => self.eff_change_line_tail(k),
            EditAction::ChangeRange => self.eff_change_range(k),
            EditAction::ChangeWord => self.eff_change_word(k),
            EditAction::EditModeInput => self.eff_edit_mode_input(k),
            EditAction::LeaveEditMode => self.eff_leave_edit_mode(k),
            EditAction::DeleteLineTail => self.eff_delete_line_tail(k),
            EditAction::DeleteLine => self.eff_delete_line(k),
            EditAction::DeleteRange => self.eff_delete_range(k),
            EditAction::DeleteWord => self.eff_delete_word(k),
            EditAction::DeleteChar => self.eff_delete_char(k),
            EditAction::CancelWillMode => self.eff_cancel_will_mode(k),
            EditAction::Paste => self.eff_paste(k),
            EditAction::PasteAbove => self.eff_paste_above(k),
            EditAction::PasteSystem => self.eff_paste_system(k),
            EditAction::YankRange => self.eff_yank_range(k),
            EditAction::YankLine => self.eff_yank_line(k),
            EditAction::IndentBack => self.eff_indent_back(k),
            EditAction::IndentForward => self.eff_indent_forward(k),
            EditAction::EnterVisualMode => self.eff_enter_visual_mode(k),
            EditAction::Reset => self.eff_reset(k),
            EditAction::EnterReplaceOnceMode => self.eff_enter_replace_once_mode(k),
            EditAction::CancelReplaceOnceMode => self.eff_cancel_replace_once_mode(k),
            EditAction::CommitReplaceOnce => self.eff_commit_replace_once(k),
            EditAction::EnterCommandMode => self.eff_enter_command_mode(k),
            EditAction::CancelCommandMode => self.eff_cancel_command_mode(k),
            EditAction::ExecuteCommand => self.eff_execute_command(k),
            EditAction::EnterSnippetMode => self.eff_enter_snippet_mode(k),
            EditAction::InsertSnippet => self.eff_insert_snippet(k),
            EditAction::LeaveSnippetMode => self.eff_leave_snippet_mode(k),
            EditAction::CursorUpSnippetMode => self.eff_cursor_up_snippet_mode(k),
            EditAction::CursorDownSnippetMode => self.eff_cursor_down_snippet_mode(k),
        };
        let ghost m = *self;
        assert(EditBuffer::edit_post(a, *old(self), m, k, r));
        self.set_state(&r);
        r
    }
}

impl Effect<EditAction> for EditBuffer {
    open spec fn inv(&self) -> bool {
        self.wf()
    }

    open spec fn can_run(&self, a: EditAction, k: Key) -> bool {
        self.can_run_edit(a, k)
    }

    open spec fn leads_to(&self, a: EditAction, k: Key, after: Self, to: String) -> bool {
        EditBuffer::edit_leads_to(*self, a, k, after, to)
    }

    fn ready(&self, a: EditAction, k: Key) -> (r: bool) {
        self.ready_edit(a, k)
    }

    fn run(&mut self, a: EditAction, k: Key) -> (r: String) {
        self.run_edit(a, k)
    }
}

/// The key bindings of an `EditBuffer` beyond those of its read buffer, in
/// the order they are added: state, matcher, action.
pub open spec fn edit_table() -> Seq<(Seq<char>, Key, EditAction)> {
    seq![
        (INIT@, Key::Char('v'), EditAction::EnterVisualMode),
        (INIT@, Key::Char('D'), EditAction::DeleteLineTail),
        (INIT@, Key::Char('d'), EditAction::DeleteRange),
        (INIT@, Key::Char('x'), EditAction::DeleteChar),
        (INIT@, Key::Char('<'), EditAction::IndentBack),
        (INIT@, Key::Char('>'), EditAction::IndentForward),
        (INIT@, Key::Char('J'), EditAction::JoinNextLine),
        (INIT@, Key::Char('o'), EditAction::EnterInsertNewline),
        (INIT@, Key::Char('O'), EditAction::EnterInsertNewlineAbove),
        (INIT@, Key::Char('i'), EditAction::EnterInsertMode),
        (INIT@, Key::Char('A'), EditAction::EnterInsertModeLineLast),
        (INIT@, Key::Char('a'), EditAction::EnterAppendMode),
        (INIT@, Key::Char('C'), EditAction::ChangeLineTail),
        (INIT@, Key::Char('c'), EditAction::ChangeRange),
        (INIT@, Key::Char('p'), EditAction::Paste),
        (INIT@, Key::Char('P'), EditAction::PasteAbove),
        (INIT@, Key::Ctrl('p'), EditAction::PasteSystem),
        (INIT@, Key::Char('y'), EditAction::YankRange),
        (INIT@, Key::Esc, EditAction::Reset),
        (INIT@, Key::Char('r'), EditAction::EnterReplaceOnceMode),
        (REPLACE_ONCE@, Key::Esc, EditAction::CancelReplaceOnceMode),
        (REPLACE_ONCE@, Key::Otherwise, EditAction::CommitReplaceOnce),
        (WILL_YANK@, Key::Char('y'), EditAction::YankLine),
        (WILL_YANK@, Key::Esc, EditAction::CancelWillMode),
        (WILL_DELETE@, Key::Char('d'), EditAction::DeleteLine),
        (WILL_DELETE@, Key::Char('w'), EditAction::DeleteWord),
        (WILL_DELETE@, Key::Esc, EditAction::CancelWillMode),
        (WILL_CHANGE@, Key::Char('w'), EditAction::ChangeWord),
        (WILL_CHANGE@, Key::Esc, EditAction::CancelWillMode),
        (INSERT@, Key::Ctrl('s'), EditAction::EnterSnippetMode),
        (INSERT@, Key::Esc, EditAction::LeaveEditMode),
        (INSERT@, Key::Otherwise, EditAction::EditModeInput),
        (INIT@, Key::Ctrl('r'), EditAction::Redo),
        (INIT@, Key::Char('u'), EditAction::Undo),
        (SNIPPET@, Key::Char('k'), EditAction::CursorUpSnippetMode),
        (SNIPPET@, Key::Char('j'), EditAction::CursorDownSnippetMode),
        (SNIPPET@, Key::Char('\n'), EditAction::InsertSnippet),
        (SNIPPET@, Key::Esc, EditAction::LeaveSnippetMode),
        (INIT@, Key::Char(' '), EditAction::EnterCommandMode),
        (COMMAND@, Key::Esc, EditAction::CancelCommandMode),
        (COMMAND@, Key::Otherwise, EditAction::ExecuteCommand),
    ]
}

/// The controller of an `EditBuffer`: the bindings of its read buffer, then
/// those of `edit_table`, starting in the normal state.
pub fn mk_controller() -> (r: ControllerFSM<EditAction>)
    ensures
        r.g.inv(),
        r.cur@ == INIT@,
        r.g@ == with_edges(read_graph::<EditAction>(), edit_table()),
{
    let mut g: Graph<EditAction> = Graph::new();
    add_edges(&mut g);
    proof {
        reveal_strlit("Normal");
        reveal_strlit("Jump");
        reveal_strlit("Search");
        crate::read_buffer::lemma_modes_distinct();
        assert(g@ =~= read_graph::<EditAction>());
    }
    let mut t: Vec<(&str, Key, EditAction)> = Vec::new();
    t.push((INIT, Key::Char('v'), EditAction::EnterVisualMode));
    t.push((INIT, Key::Char('D'), EditAction::DeleteLineTail));
    t.push((INIT, Key::Char('d'), EditAction::DeleteRange));
    t.push((INIT, Key::Char('x'), EditAction::DeleteChar));
    t.push((INIT, Key::Char('<'), EditAction::IndentBack));
    t.push((INIT, Key::Char('>'), EditAction::IndentForward));
    t.push((INIT, Key::Char('J'), EditAction::JoinNextLine));
    t.push((INIT, Key::Char('o'), EditAction::EnterInsertNewline));
    t.push((INIT, Key::Char('O'), EditAction::EnterInsertNewlineAbove));
    t.push((INIT, Key::Char('i'), EditAction::EnterInsertMode));
    t.push((INIT, Key::Char('A'), EditAction::EnterInsertModeLineLast));
    t.push((INIT, Key::Char('a'), EditAction::EnterAppendMode));
    t.push((INIT, Key::Char('C'), EditAction::ChangeLineTail));
    t.push((INIT, Key::Char('c'), EditAction::ChangeRange));
    t.push((INIT, Key::Char('p'), EditAction::Paste));
    t.push((INIT, Key::Char('P'), EditAction::PasteAbove));
    t.push((INIT, Key::Ctrl('p'), EditAction::PasteSystem));
    t.push((INIT, Key::Char('y'), EditAction::YankRange));
    t.push((INIT, Key::Esc, EditAction::Reset));
    t.push((INIT, Key::Char('r'), EditAction::EnterReplaceOnceMode));
    t.push((REPLACE_ONCE, Key::Esc, EditAction::CancelReplaceOnceMode));
    t.push((REPLACE_ONCE, Key::Otherwise, EditAction::CommitReplaceOnce));
    t.push((WILL_YANK, Key::Char('y'), EditAction::YankLine));
    t.push((WILL_YANK, Key::Esc, EditAction::CancelWillMode));
    t.push((WILL_DELETE, Key::Char('d'), EditAction::DeleteLine));
    t.push((WILL_DELETE, Key::Char('w'), EditAction::DeleteWord));
    t.push((WILL_DELETE, Key::Esc, EditAction::CancelWillMode));
    t.push((WILL_CHANGE, Key::Char('w'), EditAction::ChangeWord));
    t.push((WILL_CHANGE, Key::Esc, EditAction::CancelWillMode));
    t.push((INSERT, Key::Ctrl('s'), EditAction::EnterSnippetMode));
    t.push((INSERT, Key::Esc, EditAction::LeaveEditMode));
    t.push((INSERT, Key::Otherwise, EditAction::EditModeInput));
    t.push((INIT, Key::Ctrl('r'), EditAction::Redo));
    t.push((INIT, Key::Char('u'), EditAction::Undo));
    t.push((SNIPPET, Key::Char('k'), EditAction::CursorUpSnippetMode));
    t.push((SNIPPET, Key::Char('j'), EditAction::CursorDownSnippetMode));
    t.push((SNIPPET, Key::Char('\n'), EditAction::InsertSnippet));
    t.push((SNIPPET, Key::Esc, EditAction::LeaveSnippetMode));
    t.push((INIT, Key::Char(' '), EditAction::EnterCommandMode));
    t.push((COMMAND, Key::Esc, EditAction::CancelCommandMode));
    t.push((COMMAND, Key::Otherwise, EditAction::ExecuteCommand));
    assert(table_view(t@) =~= edit_table());
    g.add_table(&t);
    ControllerFSM::new(INIT, g)
}

/// The layer that marks the selection in blue.
pub struct VisualRangeDiffView {
    range: Option<crate::read_buffer::CursorRange>,
}

impl VisualRangeDiffView {
    pub closed spec fn spec_range(&self) -> Option<crate::read_buffer::CursorRange> {
        self.range
    }

    /// The layer of the selection `range`, if any.
    pub fn new(range: Option<crate::read_buffer::CursorRange>) -> (r: Self)
        ensures
            r.spec_range() == range,
    {
        VisualRangeDiffView { range }
    }
}

/// Whether `(col, row)` lies in the selection.
pub open spec fn in_range(range: Option<crate::read_buffer::CursorRange>, col: usize, row: usize) -> bool {
    match range {
        Some(r) => {
            let c = crate::read_buffer::Cursor { row, col };
            !super::cursor_before(c, r.start) && super::cursor_before(c, r.end)
        },
        None => false,
    }
}

impl crate::view::DiffView for VisualRangeDiffView {
    open spec fn diff_covers(&self, col: usize, row: usize) -> bool {
        true
    }

    open spec fn spec_diff(&self, col: usize, row: usize) -> crate::view::ViewElemDiff {
        if in_range(self.spec_range(), col, row) {
            (None, None, Some(crate::screen::Color::Blue))
        } else {
            (None, None, None)
        }
    }

    fn get(&self, col: usize, row: usize) -> (r: crate::view::ViewElemDiff) {
        let c = crate::read_buffer::Cursor { row, col };
        let inside = match self.range {
            Some(r) => !super::cursor_lt(c, r.start) && super::cursor_lt(c, r.end),
            None => false,
        };
        if inside {
            (None, None, Some(crate::screen::Color::Blue))
        } else {
            (None, None, None)
        }
    }
}

/// Where the list of snippets goes (see `compute_snippet_area`).
pub open spec fn snippet_area_of(area: crate::view::Area, cursor: crate::read_buffer::Cursor, w: usize, h: usize) -> crate::view::Area {
    let a0 = crate::view::Area { col: (cursor.col + 1) as usize, row: (cursor.row - h) as usize, width: w, height: h };
    let a1 = crate::view::Area { col: (cursor.col + 1) as usize, row: (cursor.row + 1) as usize, width: w, height: h };
    let a2 = crate::view::Area { col: (cursor.col - w) as usize, row: (cursor.row - h) as usize, width: w, height: h };
    let a3 = crate::view::Area { col: (cursor.col - w) as usize, row: (cursor.row + 1) as usize, width: w, height: h };
    if cursor.row >= h && area.spec_contains_area(a0) {
        a0
    } else if area.spec_contains_area(a1) {
        a1
    } else if cursor.col >= w && cursor.row >= h && area.spec_contains_area(a2) {
        a2
    } else if cursor.col >= w && area.spec_contains_area(a3) {
        a3
    } else {
        a1
    }
}

/// Where the list of snippets goes, `w` wide and `h` high, next to the
/// cursor inside `area`: above and right of it, else below and right, else
/// above and left, else below and left; below and right when none fits.
pub fn compute_snippet_area(area: &crate::view::Area, cursor: &crate::read_buffer::Cursor, w: usize, h: usize) -> (r: crate::view::Area)
    requires
        w > 0,
        h > 0,
        cursor.col < usize::MAX,
        cursor.row < usize::MAX,
    ensures
        r == snippet_area_of(*area, *cursor, w, h),
{
    if cursor.row >= h {
        let area0 = crate::view::Area { col: cursor.col + 1, row: cursor.row - h, width: w, height: h };
        if area.contains_area(&area0) {
            return area0;
        }
    }
    let area1 = crate::view::Area { col: cursor.col + 1, row: cursor.row + 1, width: w, height: h };
    if area.contains_area(&area1) {
        return area1;
    }
    if cursor.col >= w && cursor.row >= h {
        let area2 = crate::view::Area { col: cursor.col - w, row: cursor.row - h, width: w, height: h };
        if area.contains_area(&area2) {
            return area2;
        }
    }
    if cursor.col >= w {
        let area3 = crate::view::Area { col: cursor.col - w, row: cursor.row + 1, width: w, height: h };
        if area.contains_area(&area3) {
            return area3;
        }
    }
    area1
}

} // verus!
