use ijk::read_buffer::BufElem::{Char, Eol};
use ijk::edit_buffer::indent::{AutoIndent, IndentType};
use ijk::edit_buffer::invalidate_lines::{affect_range_of, calc_n_lines_affected};
use ijk::edit_buffer::invalidate_lines::AffectRange::{Empty, EndEol, Mid};
use ijk::read_buffer::BufElem;

#[test]
fn test_auto_indent() {
    let line = [Char(' '), Char(' '), Char('a'), Char('{')];
    let ai = AutoIndent::new(&line, IndentType::Spaces(4));
    assert_eq!(ai.next_indent(), vec![Char(' '); 6]);
}

#[test]
fn auto_indent_tab_without_brace() {
    let line = [Char('\t'), Char('x')];
    let ai = AutoIndent::new(&line, IndentType::Tab);
    assert_eq!(ai.next_indent(), vec![Char('\t')]);
    let open = [Char('\t'), Char('x'), Char('{')];
    let ai = AutoIndent::new(&open, IndentType::Tab);
    assert_eq!(ai.next_indent(), vec![Char('\t'), Char('\t')]);
}

#[test]
fn invalidate_lines_test_affect_range() {
    assert_eq!(affect_range_of(&[]), Empty);
    assert_eq!(affect_range_of(&[Char(' ')]), Mid(1));
    assert_eq!(affect_range_of(&[Char(' '), BufElem::Eol]), EndEol(1));
    assert_eq!(affect_range_of(&[Char(' '), BufElem::Eol, Char('a')]), Mid(2));
    assert_eq!(affect_range_of(&[Char(' '), BufElem::Eol, Char('a'), Eol]), EndEol(2));
}

#[test]
fn search_test_affect_range() {
    assert_eq!(affect_range_of(&[]), Empty);
    assert_eq!(affect_range_of(&[Char(' ')]), Mid(1));
    assert_eq!(affect_range_of(&[Char(' '), BufElem::Eol]), EndEol(1));
    assert_eq!(affect_range_of(&[Char(' '), BufElem::Eol, Char('a')]), Mid(2));
    assert_eq!(affect_range_of(&[Char(' '), BufElem::Eol, Char('a'), Eol]), EndEol(2));
}

#[test]
fn lines_affected_by_edits() {
    let r = calc_n_lines_affected(&[], &[]);
    assert_eq!((r.n_delete, r.n_insert), (0, 0));
    let r = calc_n_lines_affected(&[Char('a'), Eol], &[Char('b')]);
    assert_eq!((r.n_delete, r.n_insert), (2, 1));
    let r = calc_n_lines_affected(&[], &[Eol, Char('c'), Eol]);
    assert_eq!((r.n_delete, r.n_insert), (1, 3));
}
