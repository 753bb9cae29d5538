use vstd::prelude::*;
use crate::read_buffer::BufElem;

verus! {

/// How one level of indentation is written.
#[derive(Debug, Clone, Copy, PartialEq, Eq, Structural)]
pub enum IndentType {
    Spaces(usize),
    Tab,
}

/// The elements of one level of indentation.
pub open spec fn indent_elems(x: IndentType) -> Seq<BufElem> {
    match x {
        IndentType::Spaces(n) => Seq::new(n as nat, |i: int| BufElem::Char(' ')),
        IndentType::Tab => seq![BufElem::Char('\t')],
    }
}

/// One level of indentation as elements.
pub fn into_bufelems(x: IndentType) -> (r: Vec<BufElem>)
    ensures
        r@ == indent_elems(x),
{
    match x {
        IndentType::Spaces(n) => {
            let mut v: Vec<BufElem> = Vec::new();
            let mut i: usize = 0;
            while i < n
                invariant
                    i <= n,
                    v@ == Seq::new(i as nat, |j: int| BufElem::Char(' ')),
                decreases n - i,
            {
                v.push(BufElem::Char(' '));
                i = i + 1;
            }
            v
        },
        IndentType::Tab => {
            let mut v: Vec<BufElem> = Vec::new();
            v.push(BufElem::Char('\t'));
            v
        },
    }
}

/// A space or a tab.
pub open spec fn is_indent_char(e: BufElem) -> bool {
    e == BufElem::Char(' ') || e == BufElem::Char('\t')
}

/// The length of the run of spaces and tabs that starts the line.
pub open spec fn indent_len(s: Seq<BufElem>) -> nat
    decreases s.len(),
{
    if s.len() == 0 || !is_indent_char(s[0]) {
        0
    } else {
        1 + indent_len(s.drop_first())
    }
}

/// The run of spaces and tabs that starts the line.
pub open spec fn leading_indent(s: Seq<BufElem>) -> Seq<BufElem> {
    s.take(indent_len(s) as int)
}

/// `indent_len` is where the first element that is neither space nor tab
/// stands, or the length.
pub proof fn lemma_indent_len(s: Seq<BufElem>, k: int)
    requires
        0 <= k <= s.len(),
        forall|i: int| 0 <= i < k ==> is_indent_char(#[trigger] s[i]),
        k == s.len() || !is_indent_char(s[k]),
    ensures
        indent_len(s) == k,
    decreases s.len(),
{
    if s.len() > 0 && is_indent_char(s[0]) {
        assert(k > 0);
        let t = s.drop_first();
        assert forall|i: int| 0 <= i < k - 1 implies is_indent_char(#[trigger] t[i]) by {
            assert(t[i] == s[i + 1]);
        }
        if k < s.len() {
            assert(t[k - 1] == s[k]);
        }
        lemma_indent_len(t, k - 1);
    }
}

/// The run that `indent_len` measures: spaces and tabs up to it, and
/// neither a space nor a tab at it, unless it is the end of the line.
pub proof fn lemma_indent_len_run(s: Seq<BufElem>)
    ensures
        indent_len(s) <= s.len(),
        forall|i: int| 0 <= i < indent_len(s) ==> is_indent_char(#[trigger] s[i]),
        indent_len(s) == s.len() || !is_indent_char(s[indent_len(s) as int]),
    decreases s.len(),
{
    if s.len() > 0 && is_indent_char(s[0]) {
        let t = s.drop_first();
        lemma_indent_len_run(t);
        assert forall|i: int| 0 <= i < indent_len(s) implies is_indent_char(#[trigger] s[i]) by {
            if i > 0 {
                assert(s[i] == t[i - 1]);
            }
        }
        if indent_len(s) < s.len() {
            assert(s[indent_len(s) as int] == t[indent_len(t) as int]);
        }
    }
}

/// The characters that open a block.
pub open spec fn opens_block(e: BufElem) -> bool {
    e == BufElem::Char('{') || e == BufElem::Char('[') || e == BufElem::Char('(') || e == BufElem::Char(':')
}

/// The indentation that a new line takes from the line before it.
pub struct AutoIndent {
    pub indent_type: IndentType,
    pub line_predecessors: Vec<BufElem>,
}

impl AutoIndent {
    pub fn new(line_predecessors: &[BufElem], indent_type: IndentType) -> (r: Self)
        ensures
            r.indent_type == indent_type,
            r.line_predecessors@ == line_predecessors@,
    {
        let mut v: Vec<BufElem> = Vec::new();
        let mut i: usize = 0;
        while i < line_predecessors.len()
            invariant
                i <= line_predecessors@.len(),
                v@ == line_predecessors@.take(i as int),
            decreases line_predecessors@.len() - i,
        {
            v.push(line_predecessors[i]);
            i = i + 1;
            assert(v@ == line_predecessors@.take(i as int));
        }
        assert(line_predecessors@.take(line_predecessors@.len() as int) == line_predecessors@);
        AutoIndent { indent_type, line_predecessors: v }
    }

    /// The indentation of the line: its leading spaces and tabs.
    pub fn current_indent(&self) -> (r: Vec<BufElem>)
        ensures
            r@ == leading_indent(self.line_predecessors@),
    {
        let s = &self.line_predecessors;
        let mut v: Vec<BufElem> = Vec::new();
        let mut i: usize = 0;
        while i < s.len()
            invariant
                i <= s@.len(),
                v@ == s@.take(i as int),
                forall|j: int| 0 <= j < i ==> is_indent_char(#[trigger] s@[j]),
            ensures
                i <= s@.len(),
                v@ == s@.take(i as int),
                forall|j: int| 0 <= j < i ==> is_indent_char(#[trigger] s@[j]),
                i == s@.len() || !is_indent_char(s@[i as int]),
            decreases s@.len() - i,
        {
            let e = s[i];
            if e == BufElem::Char(' ') || e == BufElem::Char('\t') {
                v.push(e);
                i = i + 1;
                assert(v@ == s@.take(i as int));
            } else {
                break;
            }
        }
        proof {
            lemma_indent_len(s@, i as int);
        }
        v
    }

    /// One more level when the line ends with an opening bracket or a colon.
    pub fn extra_next_indent(&self) -> (r: Vec<BufElem>)
        ensures
            r@ == (if self.line_predecessors@.len() > 0 && opens_block(self.line_predecessors@.last()) {
                indent_elems(self.indent_type)
            } else {
                Seq::empty()
            }),
    {
        let n = self.line_predecessors.len();
        if n == 0 {
            Vec::new()
        } else {
            let last = self.line_predecessors[n - 1];
            if last == BufElem::Char('{') || last == BufElem::Char('[') || last == BufElem::Char('(')
                || last == BufElem::Char(':') {
                into_bufelems(self.indent_type)
            } else {
                Vec::new()
            }
        }
    }

    /// The indentation of the line that follows: the same, one level deeper
    /// after an opening bracket or a colon.
    pub fn next_indent(&self) -> (r: Vec<BufElem>)
        ensures
            r@ == leading_indent(self.line_predecessors@) + (if self.line_predecessors@.len() > 0
                && opens_block(self.line_predecessors@.last()) {
                indent_elems(self.indent_type)
            } else {
                Seq::<BufElem>::empty()
            }),
    {
        let mut v = self.current_indent();
        let mut w = self.extra_next_indent();
        v.append(&mut w);
        v
    }
}

} // verus!
