use vstd::prelude::*;
use vstd::view::View as _;
use crate::read_buffer::Cursor;
use crate::screen::Color;
use crate::view;

verus! {

/// The one-line message that a page shows under its status line.
pub struct MessageBox {
    pub buf: Vec<char>,
}

impl MessageBox {
    pub fn new() -> (r: Self)
        ensures
            r.buf@.len() == 0,
    {
        MessageBox { buf: Vec::new() }
    }

    /// Replaces the message with `x`.
    pub fn send(&mut self, x: &str)
        ensures
            final(self).buf@ == x@,
    {
        self.buf = crate::read_buffer::chars_of(x);
    }

    /// Replaces the message with the characters `x`.
    pub fn send_chars(&mut self, x: &[char])
        ensures
            final(self).buf@ == x@,
    {
        let mut v: Vec<char> = Vec::new();
        let mut i: usize = 0;
        while i < x.len()
            invariant
                i <= x@.len(),
                v@ == x@.take(i as int),
            decreases x.len() - i,
        {
            v.push(x[i]);
            i = i + 1;
            proof {
                assert(x@.take(i as int) == x@.take(i - 1).push(x@[i - 1]));
            }
        }
        assert(x@.take(x@.len() as int) == x@);
        self.buf = v;
    }
}

/// The message as a view: white on the theme's background, on row 0.
pub struct View<'a> {
    pub x: &'a MessageBox,
    pub bg: Color,
}

impl<'a> View<'a> {
    /// The view of `x`.
    pub fn new(x: &'a MessageBox) -> (r: Self)
        ensures
            r.x == x,
            r.bg == view::theme_bg(),
    {
        View { x, bg: view::default_bg() }
    }
}

impl<'a> view::View for View<'a> {
    open spec fn covers(&self, col: usize, row: usize) -> bool {
        true
    }

    open spec fn spec_get(&self, col: usize, row: usize) -> view::ViewElem {
        if row == 0 && col < self.x.buf@.len() {
            (self.x.buf@[col as int], Color::White, self.bg)
        } else {
            (' ', Color::White, self.bg)
        }
    }

    open spec fn has_cursor_pos(&self) -> bool {
        true
    }

    open spec fn spec_cursor(&self) -> Option<Cursor> {
        None
    }

    fn get(&self, col: usize, row: usize) -> (r: view::ViewElem) {
        if row == 0 && col < self.x.buf.len() {
            (self.x.buf[col], Color::White, self.bg)
        } else {
            (' ', Color::White, self.bg)
        }
    }

    fn get_cursor_pos(&self) -> (r: Option<Cursor>) {
        None
    }
}

} // verus!
