use ijk::edit_buffer::change_log::ChangeLog;
use ijk::read_buffer::Cursor;
use ijk::Key;
use ijk::Key::{Char, Ctrl, Esc};
use ijk::read_buffer::BufElem;
use ijk::read_buffer::BufElem::Eol;
use ijk::edit_buffer::EditBuffer;
use ijk::edit_buffer::config::Config;
use ijk::edit_buffer::indent::IndentType;
use ijk::edit_buffer::actions::{mk_controller, EditAction};
use ijk::controller::ControllerFSM;
use ijk::view::{Area, View, LINE_NUMBER_W};
use ijk::screen::Color;
use ijk::edit_buffer::highlight::{HighlightDiffViewRef, Highlighter};

fn rows(text: &str) -> Vec<Vec<BufElem>> {
    let mut v = vec![];
    for l in text.lines() {
        let mut r: Vec<BufElem> = l.chars().map(BufElem::Char).collect();
        r.push(Eol);
        v.push(r);
    }
    v
}

fn open(text: &str) -> (EditBuffer, ControllerFSM<EditAction>) {
    let config = Config { indent_type: IndentType::Spaces(4), snippet: None };
    let eb = EditBuffer::open(rows(text), "a.txt".to_owned(), config, vec![]);
    (eb, mk_controller())
}

fn keys(c: &mut ControllerFSM<EditAction>, eb: &mut EditBuffer, ks: &[Key]) {
    for k in ks {
        c.receive_key(eb, *k);
    }
}

#[test]
fn insert_then_undo_then_redo() {
    let (mut eb, mut c) = open("ab\n");
    keys(&mut c, &mut eb, &[Char('i'), Char('x'), Esc]);
    assert_eq!(eb.rb.buf, rows("xab\n"));
    keys(&mut c, &mut eb, &[Char('u')]);
    assert_eq!(eb.rb.buf, rows("ab\n"));
    keys(&mut c, &mut eb, &[Ctrl('r')]);
    assert_eq!(eb.rb.buf, rows("xab\n"));
}

#[test]
fn delete_char_and_paste() {
    let (mut eb, mut c) = open("abc\n");
    keys(&mut c, &mut eb, &[Char('x')]);
    assert_eq!(eb.rb.buf, rows("bc\n"));
    keys(&mut c, &mut eb, &[Char('p')]);
    assert_eq!(eb.rb.buf, rows("bac\n"));
}

#[test]
fn open_line_below_with_indent() {
    let (mut eb, mut c) = open("f {\n}\n");
    keys(&mut c, &mut eb, &[Char('o'), Char('y'), Esc]);
    assert_eq!(eb.rb.buf, rows("f {\n    y\n}\n"));
}

#[test]
fn join_lines() {
    let (mut eb, mut c) = open("a\nb\n");
    keys(&mut c, &mut eb, &[Char('J')]);
    assert_eq!(c.cur, "Insert");
    keys(&mut c, &mut eb, &[Esc]);
    assert_eq!(eb.rb.buf, rows("ab\n"));
    keys(&mut c, &mut eb, &[Char('u')]);
    assert_eq!(eb.rb.buf, rows("a\nb\n"));
}

#[test]
fn command_mode_requests() {
    let (mut eb, mut c) = open("a\n");
    keys(&mut c, &mut eb, &[Char(' '), Char('w')]);
    assert!(eb.request == Some(ijk::edit_buffer::Request::Save));
    assert_eq!(c.cur, "Normal");
}

#[test]
fn undo_with_empty_history_changes_nothing() {
    let (mut eb, mut c) = open("abc\n");
    keys(&mut c, &mut eb, &[Char('u'), Ctrl('r')]);
    assert_eq!(eb.rb.buf, rows("abc\n"));
}

#[test]
fn dirty_after_edit() {
    let (mut eb, mut c) = open("abc\n");
    assert!(!eb.is_dirty());
    keys(&mut c, &mut eb, &[Char('x')]);
    assert!(eb.is_dirty());
}

#[test]
fn delete_word_takes_the_whole_word() {
    let (mut eb, mut c) = open("foo bar\n");
    keys(&mut c, &mut eb, &[Char('l'), Char('d'), Char('w')]);
    assert_eq!(eb.rb.buf, rows(" bar\n"));
    assert_eq!(c.cur, "Normal");
}

#[test]
fn change_word_takes_the_whole_word() {
    let (mut eb, mut c) = open("foo bar\n");
    keys(&mut c, &mut eb, &[Char('l'), Char('c'), Char('w'), Char('x'), Esc]);
    assert_eq!(eb.rb.buf, rows("x bar\n"));
    keys(&mut c, &mut eb, &[Char('u')]);
    assert_eq!(eb.rb.buf, rows("foo bar\n"));
}

#[test]
fn replace_and_delete_act_on_the_char_under_the_cursor() {
    let (mut eb, mut c) = open("foo bar\n");
    keys(&mut c, &mut eb, &[Char('l'), Char('r'), Char('z')]);
    assert_eq!(eb.rb.buf, rows("fzo bar\n"));
    keys(&mut c, &mut eb, &[Char('h'), Char('x')]);
    assert_eq!(eb.rb.buf, rows("fo bar\n"));
}

#[test]
fn undo_twice_then_redo_twice() {
    let (mut eb, mut c) = open("abc\n");
    keys(&mut c, &mut eb, &[Char('x'), Char('x')]);
    assert_eq!(eb.rb.buf, rows("c\n"));
    keys(&mut c, &mut eb, &[Char('u'), Char('u')]);
    assert_eq!(eb.rb.buf, rows("abc\n"));
    keys(&mut c, &mut eb, &[Ctrl('r'), Ctrl('r')]);
    assert_eq!(eb.rb.buf, rows("c\n"));
}

#[test]
fn change_log_swap_twice_is_the_same_edit() {
    let l = ChangeLog::new(Cursor { row: 0, col: 1 }, vec![BufElem::Char('a')], vec![BufElem::Char('b'), Eol]);
    let s = l.swap();
    assert_eq!(s.deleted, l.inserted);
    assert_eq!(s.inserted, l.deleted);
    let t = s.swap();
    assert_eq!(t.at, l.at);
    assert_eq!(t.deleted, l.deleted);
    assert_eq!(t.inserted, l.inserted);
}

#[test]
fn the_view_shows_the_hits_of_a_new_search_word() {
    let (mut eb, _) = open("abc\nxBx\nzzz\n");
    eb.rb.enter_search_mode();
    eb.rb.search_mode_input(Char('b'));
    let hl = Highlighter::new(3, Some("txt"));
    let area = Area { col: 0, row: 0, width: 20, height: 3 };
    let v = eb.gen_view(area, HighlightDiffViewRef::new(&hl)).unwrap();
    let w = LINE_NUMBER_W;
    assert_eq!(v.get(w + 1, 0).2, Color::Green);
    assert_eq!(v.get(w + 1, 1).2, Color::Green);
    assert_ne!(v.get(w, 0).2, Color::Green);
    assert_ne!(v.get(w + 1, 2).2, Color::Green);
    assert_eq!(eb.rb.search.cache[0].result(), &[1]);
    assert_eq!(eb.rb.search.cache[1].result(), &[1]);
    assert!(eb.rb.search.cache[2].result().is_empty());
}

#[test]
fn delete_char_then_undo_then_redo() {
    let (mut eb, mut c) = open("abc\ndef\n");
    keys(&mut c, &mut eb, &[Char('j'), Char('l'), Char('x')]);
    assert_eq!(eb.rb.buf, rows("abc\ndf\n"));
    keys(&mut c, &mut eb, &[Char('u')]);
    assert_eq!(eb.rb.buf, rows("abc\ndef\n"));
    assert_eq!(eb.rb.cursor, Cursor { row: 1, col: 1 });
    keys(&mut c, &mut eb, &[Ctrl('r')]);
    assert_eq!(eb.rb.buf, rows("abc\ndf\n"));
}
