use ijk::Key;
use ijk::Key::{Char, CharRange, Otherwise};
use ijk::automaton::{Automaton, Edge, Node, Parser};

#[test]
fn lib_test_vi_command_mode() {
    let k = Key::Char('0');
    assert_eq!(k, Char('0'));
}

#[test]
fn test_key_eq() {
    let a = Key::Char('0');
    let b = Key::Char('7');
    assert_ne!(a, b);
}

#[test]
fn test_node() {
    let mut g = Automaton::new();
    let a = Node::new(&mut g, "a");
    let b = Node::new(&mut g, "b");

    a.add_trans(&mut g, Edge::new(Char('0')), &a);
    a.add_trans(&mut g, Edge::new(CharRange('1', '9')), &b);

    let tr = a.find_trans(&g, &Char('7')).unwrap();
    assert_eq!(tr.n.name(&g), b.name(&g));
}

#[test]
fn automaton_test_vi_command_mode() {
    let mut g = Automaton::new();
    let init = Node::new(&mut g, "init");
    let num = Node::new(&mut g, "num");
    init.add_trans(&mut g, Edge::new(Char('G')), &init);
    init.add_trans(&mut g, Edge::new(Char('0')), &init);
    init.add_trans(&mut g, Edge::new(CharRange('1', '9')), &num);
    num.add_trans(&mut g, Edge::new(CharRange('0', '9')), &num);
    num.add_trans(&mut g, Edge::new(Char('G')), &init);

    let mut parser = Parser::new(&init);
    parser.feed(&g, Char('0'));
    parser.feed(&g, Char('G'));
    assert_eq!(parser.cur_node.name(&g), "init");
    parser.clear_rec();

    parser.feed(&g, Char('7'));
    assert_eq!(parser.cur_node.name(&g), "num");
    parser.feed(&g, Char('0'));
    assert_eq!(parser.cur_node.name(&g), "num");
    parser.feed(&g, Char('G'));
    assert_eq!(parser.cur_node.name(&g), "init");
    assert_eq!(parser.rec, [Char('7'), Char('0'), Char('G')]);
}

#[test]
fn test_otherwise() {
    let mut g = Automaton::new();
    let init = Node::new(&mut g, "init");
    let other = Node::new(&mut g, "other");
    init.add_trans(&mut g, Edge::new(Char('a')), &init);
    init.add_trans(&mut g, Edge::new(Otherwise), &other);

    let mut parser = Parser::new(&init);
    parser.feed(&g, Char('a'));
    assert_eq!(parser.cur_node.name(&g), "init");
    parser.feed(&g, Char('b'));
    assert_eq!(parser.cur_node.name(&g), "other");
}

#[test]
fn automaton_prev_node_and_no_match() {
    let mut g = Automaton::new();
    let a = Node::new(&mut g, "a");
    let b = Node::new(&mut g, "b");
    a.add_trans(&mut g, Edge::new(CharRange('a', 'c')), &b);
    assert!(a.find_trans(&g, &Char('d')).is_none());
    assert!(b.find_trans(&g, &Char('a')).is_none());
    let mut parser = Parser::new(&a);
    assert!(parser.prev_node.is_none());
    parser.feed(&g, Char('c'));
    assert_eq!(parser.cur_node, b);
    assert_eq!(parser.prev_node, Some(a));
}
