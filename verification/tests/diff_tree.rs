use ijk::Key;
use ijk::read_buffer::BufElem;
use ijk::read_buffer::BufElem::{Char, Eol};
use ijk::edit_buffer::diff_tree::{ChildComponent, DiffTree};
use ijk::edit_buffer::indent::IndentType;
use ijk::edit_buffer::diff_buffer::DiffBuffer;

#[test]
fn test_only_root() {
    let mut dt = DiffTree::new(vec![Char('a'), Eol, Char('a')], IndentType::Spaces(4));
    assert_eq!(dt.flatten(), (vec![], 0));
    dt.input(Key::Backspace);
    assert_eq!(dt.flatten(), (vec![], 0));
    dt.input(Key::Char('a'));
    assert_eq!(dt.flatten(), (vec![Char('a')], 1));
    dt.input(Key::Backspace);
    assert_eq!(dt.flatten(), (vec![], 0));

    dt.input(Key::Char('{'));
    dt.input(Key::Char('\n'));
    assert_eq!(dt.flatten(), (vec![Char('{'), Eol, Char(' '), Char(' '), Char(' '), Char(' ')], 6));
}

#[test]
fn test_simple() {
    let mut dt = DiffTree::new(vec![], IndentType::Spaces(4));
    dt.add_children(vec![
        ChildComponent::Fixed(vec![BufElem::Char('a')]),
        ChildComponent::Dynamic(vec![BufElem::Char('b')], 0),
    ]);
    assert_eq!(dt.flatten().0, vec![BufElem::Char('a'), BufElem::Char('b')]);
}

#[test]
fn diff_tree_tab_stops_in_order() {
    let mut dt = DiffTree::new(vec![], IndentType::Tab);
    dt.add_children(vec![
        ChildComponent::Dynamic(vec![Char('x')], 2),
        ChildComponent::Fixed(vec![Char('-')]),
        ChildComponent::Dynamic(vec![Char('y')], 1),
    ]);
    assert_eq!(dt.flatten().0, vec![Char('x'), Char('-'), Char('y')]);
    dt.input(Key::Char('z'));
    assert_eq!(dt.flatten(), (vec![Char('x'), Char('-'), Char('z')], 3));
    assert_eq!(dt.current_word(), vec!['z']);
    dt.rollback_current_word();
    assert_eq!(dt.flatten(), (vec![Char('x'), Char('-')], 2));
}

#[test]
fn diff_buffer_two_readings_agree() {
    let mut db = DiffBuffer::new(vec![Char('a')], vec![Char('b')], vec![Char('c')], vec![Char('d'), Eol], IndentType::Tab);
    db.input(Key::Char('x'));
    db.input(Key::Char('y'));
    assert_eq!(db.inserted(), vec![Char('b'), Char('x'), Char('y'), Char('c')]);
    let mut lhs = db.pre_buf_raw.clone();
    lhs.extend(db.inserted());
    lhs.extend(db.post_buf_raw.iter().copied());
    let mut rhs = db.pre_buf();
    rhs.extend(db.diff_buf_raw.flatten().0);
    rhs.extend(db.post_buf());
    assert_eq!(lhs, rhs);
    assert_eq!(db.pre_buf_raw, vec![Char('a')]);
    assert_eq!(db.post_buf_raw, vec![Char('d'), Eol]);
}
