use vstd::prelude::*;
use vstd::view::View as _;
use crate::Key;
use crate::read_buffer::Cursor;
use crate::screen::Color;
use crate::view::{Area, View, ViewElem, CloneView, TranslateView, MergeVertical};
use crate::message_box::MessageBox;
use crate::controller::ControllerFSM;
use crate::directory::{DirAction, Directory};
use crate::edit_buffer::EditBuffer;
use crate::edit_buffer::actions::EditAction;
use crate::edit_buffer::highlight::Highlighter;
use crate::navigator::{PageRef, same_id};

verus! {

/// A status line: black on white, on row 0.
pub struct StatusView {
    pub x: Vec<char>,
}

impl StatusView {
    /// The status line `x`.
    pub fn new(x: &str) -> (r: Self)
        ensures
            r.x@ == x@,
    {
        StatusView { x: crate::read_buffer::chars_of(x) }
    }
}

impl View for StatusView {
    open spec fn covers(&self, col: usize, row: usize) -> bool {
        true
    }

    open spec fn spec_get(&self, col: usize, row: usize) -> ViewElem {
        if row == 0 && col < self.x@.len() {
            (self.x@[col as int], Color::Black, Color::White)
        } else {
            (' ', Color::Black, Color::White)
        }
    }

    open spec fn has_cursor_pos(&self) -> bool {
        true
    }

    open spec fn spec_cursor(&self) -> Option<Cursor> {
        None
    }

    fn get(&self, col: usize, row: usize) -> (r: ViewElem) {
        if row == 0 && col < self.x.len() {
            (self.x[col], Color::Black, Color::White)
        } else {
            (' ', Color::Black, Color::White)
        }
    }

    fn get_cursor_pos(&self) -> (r: Option<Cursor>) {
        None
    }
}

/// An open page: a buffer with its key controller and its colors, or a
/// directory with its key controller.
pub enum Page {
    Buffer { eb: EditBuffer, ctrl: ControllerFSM<EditAction>, hl: Highlighter },
    Dir { dir: Directory, ctrl: ControllerFSM<DirAction> },
}

/// `a` and `b` name the same page: the same kind and the same id.
pub open spec fn same_page(a: PageRef, b: PageRef) -> bool {
    a.kind == b.kind && a.id@ == b.id@
}

/// Where the page that `r` names stands among the open pages: the first one
/// of the same kind and id, `None` when none is open. A page is opened only
/// where this is `None`, so each stands in the list once.
pub fn find_page(pages: &Vec<(PageRef, Page)>, r: &PageRef) -> (res: Option<usize>)
    ensures
        match res {
            Some(i) => i < pages@.len() && same_page(pages@[i as int].0, *r) && forall|j: int|
                0 <= j < i ==> !same_page(#[trigger] pages@[j].0, *r),
            None => forall|j: int| 0 <= j < pages@.len() ==> !same_page(#[trigger] pages@[j].0, *r),
        },
{
    let mut i: usize = 0;
    while i < pages.len()
        invariant
            i <= pages@.len(),
            forall|j: int| 0 <= j < i ==> !same_page(#[trigger] pages@[j].0, *r),
        decreases pages@.len() - i,
    {
        let p = &pages[i].0;
        if p.kind == r.kind && same_id(&p.id, &r.id) {
            return Some(i);
        }
        i = i + 1;
    }
    None
}

/// What the editor does with a key from the terminal.
#[derive(Debug, Clone, Copy, PartialEq, Eq, Structural)]
pub enum Command {
    /// Stop the editor.
    Quit,
    /// Show the navigator.
    ShowNavigator,
    /// Hand the key to the page shown.
    Page(Key),
    /// Do nothing.
    Ignore,
}

/// What the editor does with a key: `Ctrl-z` stops, `Ctrl-w` shows the
/// navigator, `Ctrl-c` is an escape for the page, and the keys that pages
/// understand (escape, backspace, control and character keys) go to the
/// page; other keys are ignored.
pub fn dispatch(k: Option<Key>) -> (r: Command)
    ensures
        r == (match k {
            Some(Key::Ctrl('z')) => Command::Quit,
            Some(Key::Ctrl('w')) => Command::ShowNavigator,
            Some(Key::Ctrl('c')) => Command::Page(Key::Esc),
            Some(Key::Esc) => Command::Page(Key::Esc),
            Some(Key::Backspace) => Command::Page(Key::Backspace),
            Some(Key::Ctrl(c)) => Command::Page(Key::Ctrl(c)),
            Some(Key::Char(c)) => Command::Page(Key::Char(c)),
            _ => Command::Ignore,
        }),
{
    match k {
        Some(Key::Ctrl('z')) => Command::Quit,
        Some(Key::Ctrl('w')) => Command::ShowNavigator,
        Some(Key::Ctrl('c')) => Command::Page(Key::Esc),
        Some(Key::Esc) => Command::Page(Key::Esc),
        Some(Key::Backspace) => Command::Page(Key::Backspace),
        Some(Key::Ctrl(c)) => Command::Page(Key::Ctrl(c)),
        Some(Key::Char(c)) => Command::Page(Key::Char(c)),
        _ => Command::Ignore,
    }
}

/// The screen: the page's view above a status line and a message line.
pub open spec fn screen_cell(page: CloneView, status: Seq<char>, message: MessageBox, bg: Color, area: Area, c: usize, w: usize) -> ViewElem {
    let status_row = area.row + area.height - 2;
    let message_row = area.row + area.height - 1;
    if w < status_row {
        page.spec_get(c, w)
    } else if w < message_row {
        if w == status_row && c - area.col < status.len() {
            (status[c - area.col], Color::Black, Color::White)
        } else {
            (' ', Color::Black, Color::White)
        }
    } else {
        if w == message_row && c - area.col < message.buf@.len() {
            (message.buf@[c - area.col], Color::White, bg)
        } else {
            (' ', Color::White, bg)
        }
    }
}

/// Puts the page's view, drawn in all but the last two rows of `area`, above
/// the status line and the message line. `None` when `area` reaches past
/// the offsets that views are moved by.
pub fn compose_screen(page: CloneView, status: &str, message: &MessageBox, area: Area) -> (r: Option<CloneView>)
    requires
        area.height >= 3,
        area.width >= 1,
        area.col + area.width <= usize::MAX,
        area.row + area.height <= usize::MAX,
        page.spec_area() == (Area { col: area.col, row: area.row, width: area.width, height: (area.height - 2) as usize }),
        page.inv(),
    ensures
        r is None <==> (area.col > 2147483647 || area.width > 2147483647 - area.col || area.row > 2147483647
            || area.height > 2147483647 - area.row),
        r matches Some(v) ==> screen_shows(v, page, status@, *message, area),
{
    if area.col > 2147483647 || area.width > 2147483647 - area.col || area.row > 2147483647 || area.height > 2147483647
        - area.row {
        return None;
    }
    let (page_area, common_area) = area.split_vertical(area.height - 2);
    let (status_area, message_area) = common_area.split_vertical(1);
    let status_view = StatusView::new(status);
    let status_view = TranslateView::new(status_view, status_area.col as i32, status_area.row as i32);
    let view = MergeVertical { top: page, bottom: status_view, row_offset: status_area.row };
    let message_view = crate::message_box::View::new(message);
    let message_view = TranslateView::new(message_view, message_area.col as i32, message_area.row as i32);
    let ghost bg = theme_bg();
    let view = MergeVertical { top: view, bottom: message_view, row_offset: message_area.row };
    proof {
        assert forall|c: usize, w: usize|
            area.col <= c < area.col + area.width && area.row <= w < area.row + area.height implies #[trigger] view.covers(c, w) by {
            if w < page_area.row + page_area.height {
                page.lemma_covers(c, w);
            }
        }
    }
    let r = CloneView::new(view, area);
    proof {
        assert forall|c: usize, w: usize|
            area.col <= c < area.col + area.width && area.row <= w < area.row + area.height implies #[trigger] r.covers(c, w)
                && r.spec_get(c, w) == screen_cell(page, status@, *message, bg, area, c, w) by {
            assert(r.covers(c, w));
            assert(r.spec_get(c, w) == view.spec_get(c, w));
        }
        assert(screen_shows(r, page, status@, *message, area));
    }
    Some(r)
}

/// `v` shows the screen of `screen_cell`.
pub open spec fn screen_shows(v: CloneView, page: CloneView, status: Seq<char>, message: MessageBox, area: Area) -> bool {
    &&& v.inv()
    &&& v.spec_area() == area
    &&& forall|c: usize, w: usize|
        area.col <= c < area.col + area.width && area.row <= w < area.row + area.height ==> #[trigger] v.covers(c, w)
            && v.spec_get(c, w) == screen_cell(page, status, message, theme_bg(), area, c, w)
}

/// The background color of the editor's theme, black where it names none.
pub open spec fn theme_bg() -> Color {
    crate::view::theme_bg()
}

} // verus!
