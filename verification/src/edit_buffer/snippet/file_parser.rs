use vstd::prelude::*;
use super::Snippet;
use super::super::snippet_parser::{LineParser, SnippetElem, spec_parse, numbers_fit, elems_view, ElemView};
use crate::read_buffer::chars_of;

verus! {

/// A line of a snippet body, as written in a snippet file.
pub struct Line(pub String);

/// A snippet body: one line or several.
pub enum Body {
    Single(Line),
    Array(Vec<Line>),
}

/// A snippet as written in a snippet file.
pub struct Unit {
    pub prefix: String,
    pub body: Body,
    pub description: String,
}

/// A snippet file: the snippets by name.
pub struct File(pub Vec<(String, Unit)>);

/// The lines of a body.
pub open spec fn body_lines(b: Body) -> Seq<Seq<char>> {
    match b {
        Body::Single(l) => seq![l.0@],
        Body::Array(ls) => Seq::new(ls@.len(), |i: int| ls@[i].0@),
    }
}

/// Every line of the body parses.
pub open spec fn body_parses(b: Body) -> bool {
    forall|i: int| 0 <= i < body_lines(b).len() ==> #[trigger] spec_parse(body_lines(b)[i]) is Some
}

/// A snippet from a file's unit: its prefix, its parsed lines and its
/// description; `None` when a line does not parse.
pub fn convert(unit: &Unit) -> (r: Option<Snippet>)
    requires
        forall|i: int| 0 <= i < body_lines(unit.body).len() ==> numbers_fit(#[trigger] body_lines(unit.body)[i]),
    ensures
        body_parses(unit.body) <==> r is Some,
        r matches Some(sn) ==> sn.prefix@ == unit.prefix@ && sn.description@ == unit.description@ && sn.body@.len()
            == body_lines(unit.body).len() && forall|i: int|
            0 <= i < sn.body@.len() ==> spec_parse(body_lines(unit.body)[i]) == Some(elems_view(#[trigger] sn.body@[i]@)),
{
    let body = convert_body(&unit.body);
    match body {
        None => None,
        Some(body) => Some(Snippet { prefix: chars_of(unit.prefix.as_str()), body, description: chars_of(unit.description.as_str()) }),
    }
}

/// The parsed lines of a body, if all parse.
fn convert_body(body: &Body) -> (r: Option<Vec<Vec<SnippetElem>>>)
    requires
        forall|i: int| 0 <= i < body_lines(*body).len() ==> numbers_fit(#[trigger] body_lines(*body)[i]),
    ensures
        body_parses(*body) <==> r is Some,
        r matches Some(v) ==> v@.len() == body_lines(*body).len() && forall|i: int|
            0 <= i < v@.len() ==> spec_parse(body_lines(*body)[i]) == Some(elems_view(#[trigger] v@[i]@)),
{
    match body {
        Body::Single(line) => {
            assert(body_lines(*body)[0] == line.0@);
            match convert_body_line(line) {
                None => {
                    assert(!(spec_parse(body_lines(*body)[0]) is Some));
                    None
                },
                Some(v) => {
                    let mut out: Vec<Vec<SnippetElem>> = Vec::new();
                    out.push(v);
                    assert forall|i: int| 0 <= i < body_lines(*body).len() implies #[trigger] spec_parse(body_lines(*body)[i]) is Some by {
                        assert(i == 0);
                    }
                    Some(out)
                },
            }
        },
        Body::Array(lines) => {
            let mut out: Vec<Vec<SnippetElem>> = Vec::new();
            let mut i: usize = 0;
            while i < lines.len()
                invariant
                    i <= lines@.len(),
                    body_lines(*body) == Seq::new(lines@.len(), |k: int| lines@[k].0@),
                    forall|k: int| 0 <= k < body_lines(*body).len() ==> numbers_fit(#[trigger] body_lines(*body)[k]),
                    out@.len() == i,
                    forall|k: int| 0 <= k < i ==> spec_parse(body_lines(*body)[k]) == Some(elems_view(#[trigger] out@[k]@)),
                decreases lines@.len() - i,
            {
                assert(body_lines(*body)[i as int] == lines@[i as int].0@);
                match convert_body_line(&lines[i]) {
                    None => {
                        assert(!(spec_parse(body_lines(*body)[i as int]) is Some));
                        return None;
                    },
                    Some(v) => {
                        out.push(v);
                    },
                }
                i = i + 1;
            }
            assert forall|k: int| 0 <= k < body_lines(*body).len() implies #[trigger] spec_parse(body_lines(*body)[k]) is Some by {
                assert(spec_parse(body_lines(*body)[k]) == Some(elems_view(out@[k]@)));
            }
            Some(out)
        },
    }
}

/// The parsed line.
fn convert_body_line(line: &Line) -> (r: Option<Vec<SnippetElem>>)
    requires
        numbers_fit(line.0@),
    ensures
        match spec_parse(line.0@) {
            None => r is None,
            Some(es) => r matches Some(v) && elems_view(v@) == es,
        },
{
    let mut lp = LineParser::new();
    let cs = chars_of(line.0.as_str());
    lp.parse(cs.as_slice())
}

} // verus!
