use ijk::read_buffer::{BufElem, Line};
use ijk::read_buffer::BufElem::{Char, Eol};
use ijk::read_buffer::search::CacheLine;
use ijk::edit_buffer::undo_buffer::UndoBuffer;

#[test]
fn test_find_word() {
    let v = vec![Char('a'), Char(' '), Char('a'), Char('a'), Char(' '), Char('a'), Eol];
    let line = Line::new(&v);

    assert_eq!(line.find_next_word(None), Some(0));
    assert_eq!(line.find_next_word(Some(0)), Some(2));
    assert_eq!(line.find_next_word(Some(1)), Some(2));
    assert_eq!(line.find_next_word(Some(2)), Some(5));
    assert_eq!(line.find_next_word(Some(3)), Some(5));
    assert_eq!(line.find_next_word(Some(4)), Some(5));
    assert_eq!(line.find_next_word(Some(5)), None);
    assert_eq!(line.find_next_word(Some(6)), None);

    assert_eq!(line.find_prev_word(Some(0)), None);
    assert_eq!(line.find_prev_word(Some(1)), Some(0));
    assert_eq!(line.find_prev_word(Some(2)), Some(0));
    assert_eq!(line.find_prev_word(Some(3)), Some(0));
    assert_eq!(line.find_prev_word(Some(4)), Some(3));
    assert_eq!(line.find_prev_word(Some(5)), Some(3));
    assert_eq!(line.find_prev_word(Some(6)), Some(5));
    assert_eq!(line.find_prev_word(None), Some(5));
}

#[test]
fn test_line_word_range() {
    let v = vec![Char('a'), Char('b'), Char(' '), Char('c'), Eol];
    let line = Line::new(&v);
    assert_eq!(line.word_range(0), Some(0..2));
    assert_eq!(line.word_range(1), Some(0..2));
    assert_eq!(line.word_range(2), None);
    assert_eq!(line.word_range(3), Some(3..4));
    assert_eq!(line.word_range(4), None);
}

#[test]
fn search_test_hit() {
    let mut hit = CacheLine::new();
    assert_eq!(hit.rollback_search(&[]), 0);
    assert!(hit.result().is_empty());

    let line = [Char('a'), Char('b'), Char('a'), Char('b'), Char('a'), Eol];
    hit.inc_search('a', &line);
    assert_eq!(hit.result(), &[0, 2, 4]);
    hit.inc_search('b', &line);
    assert_eq!(hit.result(), &[0, 2]);
    hit.inc_search('a', &line);
    assert_eq!(hit.result(), &[0, 2]);
    hit.inc_search('b', &line);
    assert_eq!(hit.result(), &[0]);

    assert_eq!(hit.rollback_search(&['a']), 1);
    assert_eq!(hit.result(), &[0, 2, 4]);

    assert_eq!(hit.rollback_search(&[]), 0);
    assert!(hit.result().is_empty());
}

#[test]
fn test_undo_buffer() {
    let mut ub = UndoBuffer::new(3);
    ub.save(1);
    ub.save(2);
    ub.save(3);
    ub.save(4);
    assert!(ub.pop_redo().is_none());
    assert_eq!(ub.pop_undo(), Some(4));
    assert_eq!(ub.pop_undo(), Some(3));
    assert_eq!(ub.pop_redo(), Some(3));
    assert_eq!(ub.pop_redo(), Some(4));
    assert!(ub.pop_redo().is_none());
}

#[test]
fn undo_buffer_save_clears_redo() {
    let mut ub = UndoBuffer::new(2);
    ub.save('a');
    ub.save('b');
    assert_eq!(ub.pop_undo(), Some('b'));
    ub.save('c');
    assert!(ub.pop_redo().is_none());
    assert_eq!(ub.pop_undo(), Some('c'));
    assert_eq!(ub.pop_undo(), Some('a'));
    assert!(ub.pop_undo().is_none());
}

#[test]
fn word_char_class() {
    let v: Vec<BufElem> = vec![Char('_'), Char('1'), Char('-'), Eol];
    let line = Line::new(&v);
    assert_eq!(line.word_range(0), Some(0..2));
    assert_eq!(line.word_range(2), None);
}

#[test]
fn search_ignores_ascii_case() {
    let mut hit = CacheLine::new();
    let line = [Char('A'), Char('b'), Char('a'), Char('B'), Char('!'), Eol];
    hit.inc_search('a', &line);
    assert_eq!(hit.result(), &[0, 2]);
    hit.inc_search('B', &line);
    assert_eq!(hit.result(), &[0, 2]);
    let mut other = CacheLine::new();
    other.inc_search('!', &line);
    assert_eq!(other.result(), &[4]);
}
