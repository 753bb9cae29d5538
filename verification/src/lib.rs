use vstd::prelude::*;

pub mod read_buffer;
pub mod edit_buffer;
pub mod view;
pub mod controller;
pub mod screen;
pub mod message_box;
pub mod automaton;
pub mod navigator;
pub mod directory;
pub mod normalize;
pub mod visibility_filter;
pub mod status;
pub mod editor;
pub mod config;
pub mod page_view;
pub mod util;
pub mod save_load;

verus! {

/// A key stroke as the editor receives it from the terminal.
#[derive(Debug, Clone, Copy, PartialEq, Eq, Structural)]
pub enum Key {
    Left,
    Right,
    Up,
    Down,
    Insert,
    Delete,
    Home,
    End,
    PageUp,
    PageDown,
    Backspace,
    Esc,
    F(u8),
    /// Space arrives as `Char(' ')` and tab as `Char('\t')`.
    Char(char),
    Alt(char),
    Ctrl(char),
    /// Only meaningful as a matcher: the inclusive range of characters.
    CharRange(char, char),
    /// Only meaningful as a matcher: any key.
    Otherwise,
}

} // verus!
