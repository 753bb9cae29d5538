use ijk::Key;
use ijk::Key::{Char, CharRange, Otherwise};
use ijk::controller::{ControllerFSM, Effect, Graph};

#[derive(Clone, Copy)]
enum Act {
    AppendY,
    AppendN,
}

struct Buf(Vec<char>);

impl Effect<Act> for Buf {
    fn inv(&self) -> bool {
        true
    }

    fn can_run(&self, _a: Act, _k: Key) -> bool {
        true
    }

    fn leads_to(&self, _a: Act, _k: Key, _after: Self, _to: String) -> bool {
        true
    }

    fn ready(&self, _a: Act, _k: Key) -> bool {
        true
    }

    fn run(&mut self, a: Act, _k: Key) -> String {
        match a {
            Act::AppendY => {
                self.0.push('y');
                "no".to_owned()
            },
            Act::AppendN => {
                self.0.push('n');
                "yes".to_owned()
            },
        }
    }
}

#[test]
fn controller_test_controller() {
    let mut buf = Buf(vec![]);
    let mut g = Graph::new();
    g.add_edge("yes", Char('y'), Act::AppendY);
    g.add_edge("no", Char('n'), Act::AppendN);

    let mut ctrl = ControllerFSM::new("yes", g);
    ctrl.receive_key(&mut buf, Char('y'));
    assert_eq!(buf.0, ['y']);
    ctrl.receive_key(&mut buf, Char('y'));
    assert_eq!(buf.0, ['y']);
    ctrl.receive_key(&mut buf, Char('n'));
    assert_eq!(buf.0, ['y', 'n']);
}

#[test]
fn effect_test_controller() {
    let mut buf = Buf(vec![]);
    let mut g = Graph::new();
    g.add_edge("yes", Otherwise, Act::AppendY);
    g.add_edge("no", Otherwise, Act::AppendN);

    let mut ctrl = ControllerFSM::new("yes", g);
    ctrl.receive_key(&mut buf, Char('y'));
    assert_eq!(buf.0, ['y']);
    assert_eq!(ctrl.cur, "no");
    ctrl.receive_key(&mut buf, Char('n'));
    assert_eq!(buf.0, ['y', 'n']);
    assert_eq!(ctrl.cur, "yes");
}

#[test]
fn controller_first_match_wins() {
    let mut buf = Buf(vec![]);
    let mut g = Graph::new();
    g.add_edge("yes", CharRange('a', 'z'), Act::AppendN);
    g.add_edge("yes", Char('y'), Act::AppendY);
    assert_eq!(g.find_effect("yes", &Char('y')).is_some(), true);
    let mut ctrl = ControllerFSM::new("yes", g);
    ctrl.receive_key(&mut buf, Char('y'));
    assert_eq!(buf.0, ['n']);
    assert_eq!(ctrl.cur, "yes");
    ctrl.receive_key(&mut buf, Char('1'));
    assert_eq!(buf.0, ['n']);
}
