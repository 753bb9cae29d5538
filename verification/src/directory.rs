use vstd::prelude::*;
use crate::Key;
use crate::controller::{Effect, ControllerFSM, Graph, with_edges, table_view, no_edges};
use crate::read_buffer::{BufElem, ReadBuffer, INIT, rows, buf_wf, max_size};
use crate::read_buffer::search::line_wf;
use crate::message_box::MessageBox;
use crate::screen::Color;
use crate::view::{DiffView, ViewElemDiff};
use crate::edit_buffer::snippet::{char_elems, elem_of};
use crate::edit_buffer::change_log::copy_chars;

verus! {

/// What an entry of a directory is.
#[derive(Debug, Clone, Copy, PartialEq, Eq, Structural)]
pub enum EntryKind {
    Parent,
    File,
    Dir,
}

/// An entry of a directory: what it is, its full path, and its name.
pub struct Entry {
    pub kind: EntryKind,
    pub path: Vec<char>,
    pub name: Vec<char>,
}

/// What the directory asks the application to do.
pub enum DirRequest {
    /// Open the entry as a page in front of the others.
    Open(EntryKind, Vec<char>),
    /// Show the directory at the path in place of this page.
    Replace(Vec<char>),
}

/// How an entry is listed: `..` for the parent, a directory's name with a
/// `/` after it, a file's name.
pub open spec fn entry_line(e: Entry) -> Seq<BufElem> {
    match e.kind {
        EntryKind::Parent => seq![BufElem::Char('.'), BufElem::Char('.'), BufElem::Eol],
        EntryKind::File => char_elems(e.name@).push(BufElem::Eol),
        EntryKind::Dir => char_elems(e.name@).push(BufElem::Char('/')).push(BufElem::Eol),
    }
}

/// A directory page: its path, its entries, and their list.
pub struct Directory {
    pub rb: ReadBuffer,
    pub path: Vec<char>,
    pub entries: Vec<Entry>,
    pub request: Option<DirRequest>,
}

/// The name, as elements.
fn name_elems(name: &Vec<char>) -> (r: Vec<BufElem>)
    ensures
        r@ == char_elems(name@),
{
    let mut v: Vec<BufElem> = Vec::new();
    let mut i: usize = 0;
    while i < name.len()
        invariant
            i <= name@.len(),
            v@ == char_elems(name@.take(i as int)),
        decreases name@.len() - i,
    {
        v.push(BufElem::Char(name[i]));
        i = i + 1;
        assert(char_elems(name@.take(i as int)) == char_elems(name@.take(i - 1)).push(elem_of(name@[i - 1])));
    }
    assert(name@.take(name@.len() as int) == name@);
    v
}

impl Directory {
    pub open spec fn wf(&self) -> bool {
        &&& self.rb.wf()
        &&& self.entries@.len() == self.rb.buf@.len() || (self.entries@.len() == 0 && self.rb.buf@.len() == 1)
    }

    /// The page of the directory at `path` with `entries`.
    pub fn open(path: Vec<char>, entries: Vec<Entry>) -> (r: Self)
        requires
            entries@.len() < max_size(),
            forall|i: int| 0 <= i < entries@.len() ==> (#[trigger] entries@[i]).name@.len() + 2 <= max_size(),
        ensures
            r.wf(),
            r.path == path,
            r.entries == entries,
            r.request is None,
            entries@.len() > 0 ==> r.rb.lines() == Seq::new(entries@.len(), |i: int| entry_line(entries@[i])),
    {
        let mut r = Directory { rb: ReadBuffer::new(Vec::new(), MessageBox::new()), path, entries: Vec::new(), request: None };
        r.refresh(entries);
        r
    }

    /// Lists `entries` afresh (a single empty line when there is none).
    pub fn refresh(&mut self, entries: Vec<Entry>)
        requires
            entries@.len() < max_size(),
            forall|i: int| 0 <= i < entries@.len() ==> (#[trigger] entries@[i]).name@.len() + 2 <= max_size(),
        ensures
            final(self).wf(),
            final(self).entries == entries,
            final(self).path == old(self).path,
            final(self).request == old(self).request,
            final(self).rb.lines() == (if entries@.len() == 0 {
                seq![seq![BufElem::Eol]]
            } else {
                Seq::new(entries@.len(), |i: int| entry_line(entries@[i]))
            }),
    {
        let mut v: Vec<Vec<BufElem>> = Vec::new();
        let mut i: usize = 0;
        while i < entries.len()
            invariant
                i <= entries@.len(),
                rows(v@) == Seq::new(i as nat, |k: int| entry_line(entries@[k])),
            decreases entries@.len() - i,
        {
            let e = &entries[i];
            let mut vv: Vec<BufElem> = Vec::new();
            match e.kind {
                EntryKind::Parent => {
                    vv.push(BufElem::Char('.'));
                    vv.push(BufElem::Char('.'));
                },
                EntryKind::File => {
                    vv = name_elems(&e.name);
                },
                EntryKind::Dir => {
                    vv = name_elems(&e.name);
                    vv.push(BufElem::Char('/'));
                },
            }
            vv.push(BufElem::Eol);
            assert(vv@ == entry_line(*e));
            let ghost prev = rows(v@);
            v.push(vv);
            assert(rows(v@) == prev.push(entry_line(*e)));
            i = i + 1;
            assert(rows(v@) =~= Seq::new(i as nat, |k: int| entry_line(entries@[k])));
        }
        if v.len() == 0 {
            let mut row: Vec<BufElem> = Vec::new();
            row.push(BufElem::Eol);
            v.push(row);
            assert(rows(v@) =~= seq![seq![BufElem::Eol]]);
        }
        proof {
            let rs = rows(v@);
            assert forall|r: int| 0 <= r < rs.len() implies #[trigger] line_wf(rs[r]) && rs[r].len() <= max_size() by {
                if entries@.len() > 0 {
                    let e = entries@[r];
                    let l = entry_line(e);
                    assert(rs[r] == l);
                    assert forall|q: int| 0 <= q < l.len() - 1 implies l[q] != BufElem::Eol by {
                        match e.kind {
                            EntryKind::Parent => {},
                            EntryKind::File => {
                                assert(l[q] == char_elems(e.name@)[q]);
                            },
                            EntryKind::Dir => {
                                if q < e.name@.len() {
                                    assert(l[q] == char_elems(e.name@)[q]);
                                }
                            },
                        }
                    }
                } else {
                    assert(rs[r] == seq![BufElem::Eol]);
                }
            }
        }
        self.rb = ReadBuffer::new(v, MessageBox::new());
        self.entries = entries;
    }

    /// What `eff_cursor_up` does: the value `s1` and the state `r` it leaves from `s0` with the key `k`.
    pub open spec fn eff_cursor_up_post(s0: Directory, s1: Directory, k: Key, r: String) -> bool {
        &&& s1.wf()
        &&& r@ == INIT@
        &&& s1.rb.cursor.row == (if s0.rb.cursor.row > 0 { s0.rb.cursor.row - 1 } else { 0 })
        &&& s1.rb.cursor.col == s0.rb.cursor.col
        &&& crate::read_buffer::same_but_cursor(s0.rb, s1.rb)
        &&& s1.entries == s0.entries
        &&& s1.path == s0.path
        &&& s1.request == s0.request
    }

    pub fn eff_cursor_up(&mut self, k: Key) -> (r: String)
        requires
            old(self).wf(),
        ensures
            Self::eff_cursor_up_post(*old(self), *final(self), k, r),
    {
        self.rb.eff_cursor_up(k)
    }

    /// What `eff_cursor_down` does: the value `s1` and the state `r` it leaves from `s0` with the key `k`.
    pub open spec fn eff_cursor_down_post(s0: Directory, s1: Directory, k: Key, r: String) -> bool {
        &&& s1.wf()
        &&& r@ == INIT@
        &&& s1.rb.cursor.row == (if s0.rb.cursor.row < s0.rb.buf@.len() - 1 {
            s0.rb.cursor.row + 1
        } else {
            s0.rb.cursor.row as int
        })
        &&& s1.rb.cursor.col == s0.rb.cursor.col
        &&& crate::read_buffer::same_but_cursor(s0.rb, s1.rb)
        &&& s1.entries == s0.entries
        &&& s1.path == s0.path
        &&& s1.request == s0.request
    }

    pub fn eff_cursor_down(&mut self, k: Key) -> (r: String)
        requires
            old(self).wf(),
        ensures
            Self::eff_cursor_down_post(*old(self), *final(self), k, r),
    {
        self.rb.eff_cursor_down(k)
    }

    /// What `eff_select` does: the value `s1` and the state `r` it leaves from `s0` with the key `_k`.
    pub open spec fn eff_select_post(s0: Directory, s1: Directory, _k: Key, r: String) -> bool {
        &&& r@ == INIT@
        &&& s1.request matches Some(DirRequest::Open(kind, p)) && ({
            let e = s0.entries@[s0.rb.cursor.row as int];
            kind == e.kind && p@ == e.path@
        })
        &&& s1.rb == s0.rb
        &&& s1.entries == s0.entries
    }

    /// Asks to open the entry on the cursor's row.
    pub fn eff_select(&mut self, _k: Key) -> (r: String)
        requires
            old(self).rb.cursor.row < old(self).entries@.len(),
        ensures
            Self::eff_select_post(*old(self), *final(self), _k, r),
    {
        let e = &self.entries[self.rb.cursor.row];
        self.request = Some(DirRequest::Open(e.kind, copy_chars(e.path.as_slice())));
        INIT.to_owned()
    }

    /// What `eff_go_down` does: the value `s1` and the state `r` it leaves from `s0` with the key `_k`.
    pub open spec fn eff_go_down_post(s0: Directory, s1: Directory, _k: Key, r: String) -> bool {
        &&& r@ == INIT@
        &&& ({
            let e = s0.entries@[s0.rb.cursor.row as int];
            if e.kind == EntryKind::Dir {
                s1.request matches Some(DirRequest::Replace(p)) && p@ == e.path@
            } else {
                s1.request == s0.request
            }
        })
        &&& s1.rb == s0.rb
        &&& s1.entries == s0.entries
    }

    /// Asks to show the directory on the cursor's row in place of this one;
    /// nothing happens on another entry.
    pub fn eff_go_down(&mut self, _k: Key) -> (r: String)
        requires
            old(self).rb.cursor.row < old(self).entries@.len(),
        ensures
            Self::eff_go_down_post(*old(self), *final(self), _k, r),
    {
        let e = &self.entries[self.rb.cursor.row];
        match e.kind {
            EntryKind::Dir => {
                self.request = Some(DirRequest::Replace(copy_chars(e.path.as_slice())));
            },
            _ => {},
        }
        INIT.to_owned()
    }

    /// What `eff_go_up` does: the value `s1` and the state `r` it leaves from `s0` with the key `_k`.
    pub open spec fn eff_go_up_post(s0: Directory, s1: Directory, _k: Key, r: String) -> bool {
        &&& r@ == INIT@
        &&& (exists|i: int| 0 <= i < s0.entries@.len() && (#[trigger] s0.entries@[i]).kind == EntryKind::Parent)
            ==> (s1.request matches Some(DirRequest::Replace(p)) && exists|i: int|
            0 <= i < s0.entries@.len() && (#[trigger] s0.entries@[i]).kind == EntryKind::Parent
                && s0.entries@[i].path@ == p@)
        &&& !(exists|i: int| 0 <= i < s0.entries@.len() && (#[trigger] s0.entries@[i]).kind == EntryKind::Parent)
            ==> s1.request == s0.request
        &&& s1.rb == s0.rb
        &&& s1.entries == s0.entries
    }

    /// Asks to show the parent directory in place of this one, if there is
    /// one.
    pub fn eff_go_up(&mut self, _k: Key) -> (r: String)
        ensures
            Self::eff_go_up_post(*old(self), *final(self), _k, r),
    {
        let mut i: usize = 0;
        let ghost req0 = self.request;
        while i < self.entries.len()
            invariant
                i <= self.entries@.len(),
                self.rb == old(self).rb,
                self.entries == old(self).entries,
                (exists|j: int| 0 <= j < i && (#[trigger] self.entries@[j]).kind == EntryKind::Parent)
                    ==> (self.request matches Some(DirRequest::Replace(p)) && exists|j: int|
                    0 <= j < i && (#[trigger] self.entries@[j]).kind == EntryKind::Parent && self.entries@[j].path@ == p@),
                !(exists|j: int| 0 <= j < i && (#[trigger] self.entries@[j]).kind == EntryKind::Parent)
                    ==> self.request == req0,
                req0 == old(self).request,
            decreases self.entries@.len() - i,
        {
            let e = &self.entries[i];
            match e.kind {
                EntryKind::Parent => {
                    let p = copy_chars(e.path.as_slice());
                    assert(self.entries@[i as int].kind == EntryKind::Parent);
                    self.request = Some(DirRequest::Replace(p));
                },
                _ => {},
            }
            i = i + 1;
        }
        INIT.to_owned()
    }
}

/// The actions that keys trigger on a directory page.
#[derive(Debug, Clone, Copy, PartialEq, Eq, Structural)]
pub enum DirAction {
    CursorUp,
    CursorDown,
    Select,
    GoDown,
    GoUp,
}

impl Effect<DirAction> for Directory {
    open spec fn inv(&self) -> bool {
        self.wf()
    }

    open spec fn can_run(&self, a: DirAction, k: Key) -> bool {
        match a {
            DirAction::Select | DirAction::GoDown => self.rb.cursor.row < self.entries@.len(),
            _ => true,
        }
    }

    /// Running `a` has the effect of the `eff_*` function bound to it.
    open spec fn leads_to(&self, a: DirAction, k: Key, after: Self, to: String) -> bool {
        match a {
            DirAction::CursorUp => Directory::eff_cursor_up_post(*self, after, k, to),
            DirAction::CursorDown => Directory::eff_cursor_down_post(*self, after, k, to),
            DirAction::Select => Directory::eff_select_post(*self, after, k, to),
            DirAction::GoDown => Directory::eff_go_down_post(*self, after, k, to),
            DirAction::GoUp => Directory::eff_go_up_post(*self, after, k, to),
        }
    }

    fn ready(&self, a: DirAction, k: Key) -> (r: bool) {
        match a {
            DirAction::Select | DirAction::GoDown => self.rb.cursor.row < self.entries.len(),
            _ => true,
        }
    }

    fn run(&mut self, a: DirAction, k: Key) -> (r: String) {
        match a {
            DirAction::CursorUp => self.eff_cursor_up(k),
            DirAction::CursorDown => self.eff_cursor_down(k),
            DirAction::Select => self.eff_select(k),
            DirAction::GoDown => self.eff_go_down(k),
            DirAction::GoUp => self.eff_go_up(k),
        }
    }
}

/// The key bindings of a directory page.
pub open spec fn dir_table() -> Seq<(Seq<char>, Key, DirAction)> {
    seq![
        (INIT@, Key::Char('k'), DirAction::CursorUp),
        (INIT@, Key::Char('j'), DirAction::CursorDown),
        (INIT@, Key::Char('\n'), DirAction::Select),
        (INIT@, Key::Char('l'), DirAction::GoDown),
        (INIT@, Key::Char('h'), DirAction::GoUp),
    ]
}

/// The controller of a directory page.
pub fn mk_controller() -> (r: ControllerFSM<DirAction>)
    ensures
        r.g.inv(),
        r.cur@ == INIT@,
        r.g@ == with_edges(no_edges::<DirAction>(), dir_table()),
{
    let mut g: Graph<DirAction> = Graph::new();
    let mut t: Vec<(&str, Key, DirAction)> = Vec::new();
    t.push((INIT, Key::Char('k'), DirAction::CursorUp));
    t.push((INIT, Key::Char('j'), DirAction::CursorDown));
    t.push((INIT, Key::Char('\n'), DirAction::Select));
    t.push((INIT, Key::Char('l'), DirAction::GoDown));
    t.push((INIT, Key::Char('h'), DirAction::GoUp));
    assert(table_view(t@) =~= dir_table());
    g.add_table(&t);
    ControllerFSM::new(INIT, g)
}

/// The layer that shows directories in light red.
pub struct AddColor {
    kinds: Vec<EntryKind>,
}

impl AddColor {
    pub closed spec fn spec_kinds(&self) -> Seq<EntryKind> {
        self.kinds@
    }

    /// The layer for the entries of `x`.
    pub fn new(x: &Directory) -> (r: Self)
        ensures
            r.spec_kinds() == Seq::new(x.entries@.len(), |i: int| x.entries@[i].kind),
    {
        let mut kinds: Vec<EntryKind> = Vec::new();
        let mut i: usize = 0;
        while i < x.entries.len()
            invariant
                i <= x.entries@.len(),
                kinds@ == Seq::new(i as nat, |k: int| x.entries@[k].kind),
            decreases x.entries@.len() - i,
        {
            kinds.push(x.entries[i].kind);
            i = i + 1;
            assert(kinds@ =~= Seq::new(i as nat, |k: int| x.entries@[k].kind));
        }
        AddColor { kinds }
    }
}

impl DiffView for AddColor {
    open spec fn diff_covers(&self, col: usize, row: usize) -> bool {
        self.spec_kinds().len() > 0
    }

    open spec fn spec_diff(&self, col: usize, row: usize) -> ViewElemDiff {
        if row < self.spec_kinds().len() && self.spec_kinds()[row as int] != EntryKind::File {
            (None, Some(Color::LightRed), None)
        } else {
            (None, None, None)
        }
    }

    fn get(&self, col: usize, row: usize) -> (r: ViewElemDiff) {
        if row > self.kinds.len() - 1 {
            return (None, None, None);
        }
        match self.kinds[row] {
            EntryKind::File => (None, None, None),
            EntryKind::Dir => (None, Some(Color::LightRed), None),
            EntryKind::Parent => (None, Some(Color::LightRed), None),
        }
    }
}

} // verus!
