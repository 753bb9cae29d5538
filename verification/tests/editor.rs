use ijk::util::to_term_key;
use ijk::config::{Assoc, Builder, ConfigRepo, FileToml, LangToml};
use ijk::edit_buffer::actions::mk_controller;
use ijk::edit_buffer::config::Config;
use ijk::edit_buffer::indent::IndentType;
use ijk::edit_buffer::EditBuffer;
use ijk::editor::{compose_screen, dispatch, find_page, Command, Page};
use ijk::navigator::{PageKind, PageRef};
use ijk::edit_buffer::highlight::Highlighter;
use ijk::message_box::MessageBox;
use ijk::navigator::Navigator;
use ijk::normalize::{buffer_text, normalize_cursor};
use ijk::read_buffer::{read_from_string, BufElem, Cursor};
use ijk::screen::Color;
use ijk::view::{Area, CloneView, NullView, View};
use ijk::visibility_filter::VisibilityFilter;
use ijk::Key;

fn line(s: &str) -> Vec<BufElem> {
    let mut v: Vec<BufElem> = s.chars().map(BufElem::Char).collect();
    v.push(BufElem::Eol);
    v
}

#[test]
fn dispatch_keys() {
    assert_eq!(dispatch(Some(Key::Ctrl('z'))), Command::Quit);
    assert_eq!(dispatch(Some(Key::Ctrl('w'))), Command::ShowNavigator);
    assert_eq!(dispatch(Some(Key::Ctrl('c'))), Command::Page(Key::Esc));
    assert_eq!(dispatch(Some(Key::Esc)), Command::Page(Key::Esc));
    assert_eq!(dispatch(Some(Key::Backspace)), Command::Page(Key::Backspace));
    assert_eq!(dispatch(Some(Key::Ctrl('r'))), Command::Page(Key::Ctrl('r')));
    assert_eq!(dispatch(Some(Key::Char('x'))), Command::Page(Key::Char('x')));
    assert_eq!(dispatch(Some(Key::Left)), Command::Ignore);
    assert_eq!(dispatch(None), Command::Ignore);
}

#[test]
fn screen_has_status_and_message_lines() {
    let page = CloneView::new(NullView {}, Area { col: 0, row: 0, width: 5, height: 1 });
    let mut m = MessageBox::new();
    m.send("hi");
    let v = compose_screen(page, "ab", &m, Area { col: 0, row: 0, width: 5, height: 3 }).unwrap();
    assert_eq!(v.get(0, 1), ('a', Color::Black, Color::White));
    assert_eq!(v.get(2, 1), (' ', Color::Black, Color::White));
    assert_eq!(v.get(1, 2).0, 'i');
    assert_eq!(v.get(1, 2).1, Color::White);
    assert_eq!(v.get(3, 2).0, ' ');
}

#[test]
fn screen_past_the_offsets_is_refused() {
    let far = Area { col: 2147483647, row: 0, width: 5, height: 1 };
    let page = CloneView::new(NullView {}, far);
    let m = MessageBox::new();
    let r = compose_screen(page, "ab", &m, Area { col: 2147483647, row: 0, width: 5, height: 3 });
    assert!(r.is_none());
}

#[test]
fn status_lines() {
    let config = Config { indent_type: IndentType::Tab, snippet: None };
    let mut eb = EditBuffer::open(vec![line("ab")], "a.txt".to_owned(), config, vec![]);
    assert_eq!(eb.status(), "[Buffer -*-] a.txt");
    let mut c = mk_controller();
    c.receive_key(&mut eb, Key::Char('i'));
    assert_eq!(eb.status(), "[Buffer -i-] a.txt");
    c.receive_key(&mut eb, Key::Char('x'));
    c.receive_key(&mut eb, Key::Esc);
    assert_eq!(eb.status(), "[Buffer -*-] [D] a.txt");
    eb.mark_saved();
    assert_eq!(eb.status(), "[Buffer -*-] a.txt");
    assert_eq!(eb.rb.message_box.buf, "Saved".chars().collect::<Vec<char>>());
    assert_eq!(Navigator::new().status(), "[Navigator -*-]");
}

fn lang(ext: &[&str], files: &[&str], indent: Option<usize>) -> LangToml {
    LangToml {
        extensions: Some(ext.iter().map(|s| s.to_string()).collect()),
        filenames: Some(files.iter().map(|s| s.to_string()).collect()),
        indent,
    }
}

fn repo() -> ConfigRepo {
    let mut b = Builder::new();
    b.add_config_file(FileToml {
        lang: Some(vec![
            ("ruby".to_string(), lang(&["rb", "erb"], &["Rakefile"], Some(2))),
            ("rust".to_string(), lang(&["rs"], &[], Some(4))),
        ]),
    });
    b.add_config_file(FileToml { lang: Some(vec![("rust".to_string(), lang(&[], &[], None))]) });
    b.add_config_file(FileToml { lang: Some(vec![("text".to_string(), lang(&["txt"], &[], Some(0)))]) });
    b.add_config_file(FileToml { lang: None });
    let mut snippets = Assoc::new();
    snippets.insert("rust".to_string(), "/s/rust.json".to_string());
    ConfigRepo::new(b, snippets)
}

#[test]
fn config_infers_the_language() {
    let r = repo();
    assert_eq!(r.infer_lang(Some("Rakefile"), None), Some("ruby".to_string()));
    assert_eq!(r.infer_lang(Some("main.rs"), Some("rs")), Some("rust".to_string()));
    assert_eq!(r.infer_lang(Some("a.erb"), Some("erb")), Some("ruby".to_string()));
    assert_eq!(r.infer_lang(Some("a.py"), Some("py")), None);
    assert_eq!(r.infer_lang(None, None), None);
}

#[test]
fn config_of_a_language() {
    let r = repo();
    let c = r.get_config("rust");
    assert_eq!(c.indent_type, IndentType::Spaces(4));
    assert_eq!(c.snippet, Some("/s/rust.json".to_string()));
    let c = r.get_config("ruby");
    assert_eq!(c.indent_type, IndentType::Spaces(2));
    assert_eq!(c.snippet, None);
    assert_eq!(r.get_config("text").indent_type, IndentType::Tab);
    assert_eq!(r.get_config("go").indent_type, IndentType::Tab);
}

#[test]
fn config_later_file_wins() {
    let mut b = Builder::new();
    b.add_config_file(FileToml { lang: Some(vec![("rust".to_string(), lang(&["rs"], &[], Some(4)))]) });
    b.add_config_file(FileToml { lang: Some(vec![("rust".to_string(), lang(&[], &[], Some(2)))]) });
    b.add_config_file(FileToml { lang: Some(vec![("other".to_string(), lang(&["rs"], &[], None))]) });
    let r = ConfigRepo::new(b, Assoc::new());
    assert_eq!(r.get_config("rust").indent_type, IndentType::Spaces(2));
    assert_eq!(r.infer_lang(None, Some("rs")), Some("other".to_string()));
}

#[test]
fn normalize_brings_the_cursor_onto_text() {
    let buf = vec![line("  ab"), line("")];
    assert_eq!(normalize_cursor(Cursor { row: 1, col: 0 }, &buf), Cursor { row: 0, col: 2 });
    assert_eq!(normalize_cursor(Cursor { row: 0, col: 10 }, &buf), Cursor { row: 0, col: 4 });
    assert_eq!(normalize_cursor(Cursor { row: 0, col: 3 }, &buf), Cursor { row: 0, col: 3 });
    let empty = vec![line(""), line("")];
    assert_eq!(normalize_cursor(Cursor { row: 1, col: 0 }, &empty), Cursor { row: 0, col: 0 });
}

#[test]
fn buffer_text_has_a_newline_per_line() {
    let buf = vec![line("ab"), line(""), line("c")];
    assert_eq!(buffer_text(&buf), "ab\n\nc\n".chars().collect::<Vec<char>>());
}

#[test]
fn visibility_filter_follows_the_cursor() {
    let mut f = VisibilityFilter::new(Cursor { row: 0, col: 0 });
    f.resize(3, 2);
    assert_eq!((f.col(), f.row()), (0, 0));
    f.adjust(Cursor { row: 5, col: 1 });
    assert_eq!((f.col(), f.row()), (0, 4));
    f.adjust(Cursor { row: 1, col: 7 });
    assert_eq!((f.col(), f.row()), (5, 1));
    f.adjust(Cursor { row: 2, col: 6 });
    assert_eq!((f.col(), f.row()), (5, 1));
}

#[test]
fn key_file_lines() {
    assert_eq!(to_term_key("EOL"), Key::Char('\n'));
    assert_eq!(to_term_key("C-x"), Key::Ctrl('x'));
    assert_eq!(to_term_key("a"), Key::Char('a'));
    assert_eq!(to_term_key("E"), Key::Char('E'));
}

#[test]
fn saved_text_reads_back_as_the_same_rows() {
    use_read_back(vec![line("fn main() {"), line("    x"), line("}")]);
    use_read_back(vec![line("")]);
    use_read_back(vec![line("a"), line(""), line("")]);
}

fn use_read_back(buf: Vec<Vec<BufElem>>) {
    let text: String = buffer_text(&buf).into_iter().collect();
    assert_eq!(read_from_string(Some(text)), buf);
}

fn buffer_page(text: &str) -> Page {
    let config = Config { indent_type: IndentType::Spaces(4), snippet: None };
    let eb = EditBuffer::open(vec![line(text)], "a.txt".to_owned(), config, vec![]);
    Page::Buffer { eb, ctrl: mk_controller(), hl: Highlighter::new(1, Some("txt")) }
}

#[test]
fn find_page_by_kind_and_id() {
    let a = PageRef { kind: PageKind::Buffer, id: "a.txt".chars().collect() };
    let b = PageRef { kind: PageKind::Buffer, id: "b.txt".chars().collect() };
    let a_dir = PageRef { kind: PageKind::Directory, id: "a.txt".chars().collect() };
    let mut pages: Vec<(PageRef, Page)> = Vec::new();
    assert_eq!(find_page(&pages, &a), None);
    pages.push((a.copy(), buffer_page("x")));
    pages.push((b.copy(), buffer_page("y")));
    assert_eq!(find_page(&pages, &a), Some(0));
    assert_eq!(find_page(&pages, &b), Some(1));
    assert_eq!(find_page(&pages, &a_dir), None);
}
