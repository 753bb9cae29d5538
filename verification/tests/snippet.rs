use ijk::edit_buffer::actions::mk_controller;
use ijk::edit_buffer::config::Config;
use ijk::edit_buffer::indent::IndentType;
use ijk::edit_buffer::EditBuffer;
use ijk::read_buffer::BufElem;
use ijk::read_buffer::BufElem::Eol;
use ijk::Key::{Char, Ctrl, Esc};
use ijk::edit_buffer::snippet::file_parser::{convert, Body, File, Line, Unit};
use ijk::edit_buffer::snippet::trie::Trie;
use ijk::edit_buffer::snippet_parser::{LineParser, SnippetElem};
use ijk::edit_buffer::snippet_parser::SnippetElem::{Str, TabStop};

fn s(x: &str) -> Vec<char> {
    x.chars().collect()
}

fn parse(p: &mut LineParser, x: &str) -> Option<Vec<SnippetElem>> {
    let cs: Vec<char> = x.chars().collect();
    p.parse(&cs)
}

#[test]
fn test_trie() {
    let mut tr = Trie::new();
    tr.insert(&['a', 'b', 'c'], 1);
    tr.insert(&['a', 'b'], 2);
    tr.insert(&['a', 'b', 'c'], 3);
    assert!(tr.get_node(&['a', 'c']).is_none());
    assert_eq!(tr.get_node(&['a']).unwrap().list_values(), vec![(s("ab"), vec![2]), (s("abc"), vec![1, 3])]);
    assert_eq!(tr.get_node(&['a', 'b']).unwrap().list_values(), vec![(s("ab"), vec![2]), (s("abc"), vec![1, 3])]);
}

#[test]
fn test_line_parser() {
    let mut parser = LineParser::new();
    assert_eq!(
        parse(&mut parser, "for (const ${2:element} of ${1:array}) {").unwrap(),
        vec![Str(s("for (const ")), TabStop(s("element"), 2), Str(s(" of ")), TabStop(s("array"), 1), Str(s(") {"))]
    );
    assert_eq!(parse(&mut parser, "fn a(&self) -> Vec<String>").unwrap(), vec![Str(s("fn a(&self) -> Vec<String>"))]);
    assert_eq!(parse(&mut parser, "a =+> b * <<-^ c").unwrap(), vec![Str(s("a =+> b * <<-^ c"))]);
    assert_eq!(parse(&mut parser, "$0ab c").unwrap(), vec![TabStop(s(""), 0), Str(s("ab c"))]);
    assert_eq!(parse(&mut parser, "${13}abc").unwrap(), vec![TabStop(s(""), 13), Str(s("abc"))]);
    assert_eq!(parse(&mut parser, "abc$13[]").unwrap(), vec![Str(s("abc")), TabStop(s(""), 13), Str(s("[]"))]);
    assert_eq!(parse(&mut parser, "abc${0}").unwrap(), vec![Str(s("abc")), TabStop(s(""), 0)]);
    assert_eq!(parse(&mut parser, "abc{${0:hoge}}").unwrap(), vec![Str(s("abc{")), TabStop(s("hoge"), 0), Str(s("}"))]);
    assert_eq!(parse(&mut parser, "abc{${0:$1}}"), None);
}

#[test]
fn trie_root_and_unknown_keys() {
    let mut tr = Trie::new();
    tr.insert(&['x'], 7);
    assert!(tr.get_node(&['y']).is_none());
    assert_eq!(tr.get_node(&[]).unwrap().list_values(), vec![(s("x"), vec![7])]);
    assert_eq!(tr.get_node(&['x']).unwrap().list_values(), vec![(s("x"), vec![7])]);
}

fn unit_of(v: &serde_json::Value) -> Unit {
    let body = match &v["body"] {
        serde_json::Value::String(s) => Body::Single(Line(s.clone())),
        serde_json::Value::Array(ls) => {
            Body::Array(ls.iter().map(|l| Line(l.as_str().unwrap().to_string())).collect())
        }
        _ => panic!("a body is a string or a list of strings"),
    };
    Unit {
        prefix: v["prefix"].as_str().unwrap().to_string(),
        body,
        description: v["description"].as_str().unwrap().to_string(),
    }
}

#[test]
fn test_parse_file() {
    let data = r#"{
        "for": {
            "prefix": "for",
            "body": [
            "for (const ${2:x} of ${1:xs}) {",
            "\t${0:unimplemented!())",
            "}"
            ],
            "description": "For Loop"
        },
        "assert": {
            "prefix": "assert",
            "body": "assert!($0)",
            "description": "never use this shit"
        }
    }"#;

    let v: serde_json::Value = serde_json::from_str(&data).unwrap();
    let f = File(v.as_object().unwrap().iter().map(|(k, u)| (k.clone(), unit_of(u))).collect());
    assert_eq!(f.0.len(), 2);
    for (name, unit) in &f.0 {
        let sn = convert(unit);
        if name == "assert" {
            let sn = sn.unwrap();
            assert_eq!(sn.prefix, "assert".chars().collect::<Vec<char>>());
            assert_eq!(sn.description, "never use this shit".chars().collect::<Vec<char>>());
            assert_eq!(sn.body.len(), 1);
        } else {
            assert!(sn.is_none());
        }
    }
}

#[test]
fn insert_snippet_by_its_prefix() {
    use_snippet_keys();
}

fn use_snippet_keys() {
    let unit = Unit {
        prefix: "assert".to_string(),
        body: Body::Single(Line("assert!(${0:true})".to_string())),
        description: "assert!".to_string(),
    };
    let sn = convert(&unit).unwrap();
    let config = Config { indent_type: IndentType::Spaces(4), snippet: None };
    let mut eb = EditBuffer::open(vec![vec![Eol]], "a.rs".to_owned(), config, vec![sn]);
    let mut c = mk_controller();
    for k in [Char('i'), Char('a'), Char('s'), Char('s')] {
        c.receive_key(&mut eb, k);
    }
    assert_eq!(eb.snippet_repo.current_matches.len(), 1);
    c.receive_key(&mut eb, Ctrl('s'));
    assert_eq!(c.cur, "Snippet");
    c.receive_key(&mut eb, Char('\n'));
    c.receive_key(&mut eb, Esc);
    let expected: Vec<BufElem> = "assert!(true)".chars().map(BufElem::Char).chain(std::iter::once(Eol)).collect();
    assert_eq!(eb.rb.buf, vec![expected]);
}
