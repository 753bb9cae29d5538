use vstd::prelude::*;
use crate::read_buffer::BufElem;
use super::change_log::copy_elems;

verus! {

/// What was yanked or deleted: part of a line, or whole lines.
pub enum Type {
    Range(Vec<BufElem>),
    Line(Vec<BufElem>),
}

/// The kind and the elements of a clipboard entry.
pub open spec fn type_view(t: Type) -> (bool, Seq<BufElem>) {
    match t {
        Type::Range(v) => (false, v@),
        Type::Line(v) => (true, v@),
    }
}

/// The text of the elements, line ends as newlines.
pub open spec fn text_of_elems(x: Seq<BufElem>) -> Seq<char> {
    Seq::new(x.len(), |i: int| match x[i] {
        BufElem::Char(c) => c,
        BufElem::Eol => '\n',
    })
}

/// A newline is a line end, any other character itself.
pub open spec fn char_to_elem(c: char) -> BufElem {
    if c == '\n' {
        BufElem::Eol
    } else {
        BufElem::Char(c)
    }
}

/// The elements of a text, newlines as line ends.
pub open spec fn elems_of_text(x: Seq<char>) -> Seq<BufElem> {
    Seq::new(x.len(), |i: int| char_to_elem(x[i]))
}

/// The elements as text, for the system clipboard.
pub fn to_str(x: &[BufElem]) -> (r: Vec<char>)
    ensures
        r@ == text_of_elems(x@),
{
    let mut s: Vec<char> = Vec::new();
    let mut i: usize = 0;
    while i < x.len()
        invariant
            i <= x@.len(),
            s@ == text_of_elems(x@.take(i as int)),
        decreases x@.len() - i,
    {
        let c = match x[i] {
            BufElem::Char(c) => c,
            BufElem::Eol => '\n',
        };
        s.push(c);
        i = i + 1;
        assert(s@ == text_of_elems(x@.take(i as int)));
    }
    assert(x@.take(x@.len() as int) == x@);
    s
}

/// Text from the system clipboard as elements.
pub fn from_str(x: &[char]) -> (r: Vec<BufElem>)
    ensures
        r@ == elems_of_text(x@),
{
    let mut v: Vec<BufElem> = Vec::new();
    let mut i: usize = 0;
    while i < x.len()
        invariant
            i <= x@.len(),
            v@ == elems_of_text(x@.take(i as int)),
        decreases x@.len() - i,
    {
        let c = x[i];
        let e = if c == '\n' { BufElem::Eol } else { BufElem::Char(c) };
        assert(e == char_to_elem(c));
        let ghost before = v@;
        v.push(e);
        assert(x@.take(i + 1) == x@.take(i as int).push(c));
        i = i + 1;
        assert(v@ == elems_of_text(x@.take(i as int)));
    }
    assert(x@.take(x@.len() as int) == x@);
    v
}

/// The editor's clipboard: the latest yank, if any. What is copied is also
/// meant for the system clipboard, which the application around keeps.
pub struct Clipboard {
    pub x: Option<Type>,
}

impl Clipboard {
    pub fn new() -> (r: Self)
        ensures
            r.x is None,
    {
        Clipboard { x: None }
    }

    /// Keeps `x` as the latest yank.
    pub fn copy(&mut self, x: Type)
        ensures
            final(self).x == Some(x),
    {
        self.x = Some(x);
    }

    /// The latest yank, if any.
    pub fn paste(&self) -> (r: Option<Type>)
        ensures
            match self.x {
                None => r is None,
                Some(t) => r matches Some(u) && type_view(u) == type_view(t),
            },
    {
        match &self.x {
            None => None,
            Some(Type::Range(v)) => Some(Type::Range(copy_elems(v))),
            Some(Type::Line(v)) => Some(Type::Line(copy_elems(v))),
        }
    }
}

} // verus!
