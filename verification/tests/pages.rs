use ijk::directory::{self, DirRequest, Directory, Entry, EntryKind};
use ijk::navigator::{Navigator, PageKind, PageRef};
use ijk::read_buffer::{BufElem, Cursor};
use ijk::screen::Color;
use ijk::view::{default_fg, Area, View, LINE_NUMBER_W};
use ijk::Key::Char;

fn chars(s: &str) -> Vec<char> {
    s.chars().collect()
}

fn page(kind: PageKind, id: &str) -> PageRef {
    PageRef { kind, id: chars(id) }
}

fn ids(n: &Navigator) -> Vec<String> {
    n.list.iter().map(|p| p.id.iter().collect()).collect()
}

fn current(n: &Navigator) -> String {
    n.current.as_ref().unwrap().id.iter().collect()
}

fn line(s: &str) -> Vec<BufElem> {
    let mut v: Vec<BufElem> = s.chars().map(BufElem::Char).collect();
    v.push(BufElem::Eol);
    v
}

#[test]
fn navigator_push_moves_an_open_page_to_front() {
    let mut n = Navigator::new();
    n.push(page(PageKind::Buffer, "a"));
    n.push(page(PageKind::Directory, "d"));
    n.push(page(PageKind::Buffer, "b"));
    assert_eq!(ids(&n), vec!["b", "d", "a"]);
    assert_eq!(current(&n), "b");
    n.push(page(PageKind::Buffer, "a"));
    assert_eq!(ids(&n), vec!["a", "b", "d"]);
    assert_eq!(current(&n), "a");
    assert!(n.needs_refresh);
}

#[test]
fn navigator_select_pop_and_replace() {
    let mut n = Navigator::new();
    n.push(page(PageKind::Buffer, "a"));
    n.push(page(PageKind::Directory, "d"));
    n.push(page(PageKind::Buffer, "b"));
    n.select(2);
    assert_eq!(ids(&n), vec!["a", "b", "d"]);
    assert_eq!(current(&n), "a");
    n.pop();
    assert_eq!(ids(&n), vec!["b", "d"]);
    assert_eq!(current(&n), "b");
    n.pop_and_push(page(PageKind::Buffer, "c"));
    assert_eq!(ids(&n), vec!["c", "d"]);
    assert_eq!(current(&n), "c");
    n.delete(1);
    assert_eq!(ids(&n), vec!["c"]);
    assert_eq!(current(&n), "c");
}

#[test]
fn navigator_select_by_kind() {
    let mut n = Navigator::new();
    n.push(page(PageKind::Directory, "d"));
    n.push(page(PageKind::Buffer, "a"));
    n.eff_select_cur_directory(Char('h'));
    assert_eq!(ids(&n), vec!["d", "a"]);
    assert_eq!(current(&n), "d");
    n.eff_select_cur_buffer(Char('l'));
    assert_eq!(ids(&n), vec!["a", "d"]);
    n.delete(1);
    n.eff_select_cur_directory(Char('h'));
    assert_eq!(current(&n), "a");
}

#[test]
fn navigator_lists_statuses_and_draws_them() {
    let mut n = Navigator::new();
    n.push(page(PageKind::Buffer, "a"));
    let st = vec![chars("[Buffer -*-] a"), chars("[Navigator -*-]")];
    let area = Area { col: 0, row: 0, width: 20, height: 3 };
    let v = n.gen_view(area, &st).unwrap();
    assert!(!n.needs_refresh);
    assert_eq!(n.rb.buf, vec![line("[Buffer -*-] a"), line("[Navigator -*-]")]);
    assert_eq!(v.get(LINE_NUMBER_W, 0).0, '[');
    assert_eq!(v.get(LINE_NUMBER_W + 1, 1).0, 'N');
    assert_eq!(v.get(LINE_NUMBER_W, 2).0, ' ');
    assert_eq!(v.get(LINE_NUMBER_W - 3, 0).0, '1');
    assert_eq!(v.get_cursor_pos(), Some(Cursor { row: 0, col: LINE_NUMBER_W }));
    assert_eq!(n.status(), "[Navigator -*-]");
}

#[test]
fn navigator_with_no_status_lists_an_empty_line() {
    let mut n = Navigator::new();
    n.refresh_buffer(&vec![]);
    assert_eq!(n.rb.buf, vec![line("")]);
}

fn sample_dir() -> Directory {
    let entries = vec![
        Entry { kind: EntryKind::Parent, path: chars("/p"), name: vec![] },
        Entry { kind: EntryKind::Dir, path: chars("/p/d/sub"), name: chars("sub") },
        Entry { kind: EntryKind::File, path: chars("/p/d/f.txt"), name: chars("f.txt") },
    ];
    Directory::open(chars("/p/d"), entries)
}

#[test]
fn directory_lists_its_entries() {
    let d = sample_dir();
    assert_eq!(d.rb.buf, vec![line(".."), line("sub/"), line("f.txt")]);
    assert_eq!(d.status(), "[DIRECTORY] /p/d");
    let empty = Directory::open(chars("/e"), vec![]);
    assert_eq!(empty.rb.buf, vec![line("")]);
}

#[test]
fn directory_requests() {
    let mut d = sample_dir();
    d.eff_select(Char('\n'));
    match &d.request {
        Some(DirRequest::Open(EntryKind::Parent, p)) => assert_eq!(p, &chars("/p")),
        _ => panic!("expected to open the parent"),
    }
    d.request = None;
    d.eff_cursor_down(Char('j'));
    d.eff_go_down(Char('l'));
    match &d.request {
        Some(DirRequest::Replace(p)) => assert_eq!(p, &chars("/p/d/sub")),
        _ => panic!("expected to go down"),
    }
    d.request = None;
    d.eff_cursor_down(Char('j'));
    d.eff_go_down(Char('l'));
    assert!(d.request.is_none());
    d.eff_go_up(Char('h'));
    match &d.request {
        Some(DirRequest::Replace(p)) => assert_eq!(p, &chars("/p")),
        _ => panic!("expected to go up"),
    }
}

#[test]
fn directory_controller_opens_the_selected_file() {
    let mut d = sample_dir();
    let mut c = directory::mk_controller();
    c.receive_key(&mut d, Char('j'));
    c.receive_key(&mut d, Char('j'));
    c.receive_key(&mut d, Char('\n'));
    match &d.request {
        Some(DirRequest::Open(EntryKind::File, p)) => assert_eq!(p, &chars("/p/d/f.txt")),
        _ => panic!("expected to open the file"),
    }
}

#[test]
fn directory_view_colors_directories() {
    let mut d = sample_dir();
    let area = Area { col: 0, row: 0, width: 20, height: 4 };
    let v = d.gen_view(area).unwrap();
    assert_eq!(v.get(LINE_NUMBER_W, 0).0, '.');
    assert_eq!(v.get(LINE_NUMBER_W, 0).1, Color::LightRed);
    assert_eq!(v.get(LINE_NUMBER_W, 1).1, Color::LightRed);
    assert_eq!(v.get(LINE_NUMBER_W, 2).0, 'f');
    assert_eq!(v.get(LINE_NUMBER_W, 2).1, default_fg());
    assert_eq!(v.get(LINE_NUMBER_W, 3).0, ' ');
}
