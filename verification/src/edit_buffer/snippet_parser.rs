use vstd::prelude::*;

verus! {

/// A piece of a snippet line: a tab stop with its placeholder and number, or
/// plain text.
#[derive(Debug, Clone, PartialEq, Eq)]
pub enum SnippetElem {
    TabStop(Vec<char>, usize),
    Str(Vec<char>),
}

/// A snippet piece as a value.
pub enum ElemView {
    TabStop(Seq<char>, nat),
    Str(Seq<char>),
}

pub open spec fn elem_view(e: SnippetElem) -> ElemView {
    match e {
        SnippetElem::TabStop(s, n) => ElemView::TabStop(s@, n as nat),
        SnippetElem::Str(s) => ElemView::Str(s@),
    }
}

pub open spec fn elems_view(v: Seq<SnippetElem>) -> Seq<ElemView> {
    Seq::new(v.len(), |i: int| elem_view(v[i]))
}

pub open spec fn is_digit(c: char) -> bool {
    '0' <= c && c <= '9'
}

/// A character that can stand in a placeholder.
pub open spec fn is_placeholder_char(c: char) -> bool {
    c != '{' && c != '}' && c != '$'
}

/// The end of the run of digits from `i`.
pub open spec fn digits_end(s: Seq<char>, i: int) -> int
    decreases s.len() - i,
{
    if 0 <= i < s.len() && is_digit(s[i]) {
        digits_end(s, i + 1)
    } else {
        i
    }
}

/// The end of the run of placeholder characters from `i`.
pub open spec fn placeholder_end(s: Seq<char>, i: int) -> int
    decreases s.len() - i,
{
    if 0 <= i < s.len() && is_placeholder_char(s[i]) {
        placeholder_end(s, i + 1)
    } else {
        i
    }
}

/// The end of the run of characters other than `$` from `i`.
pub open spec fn str_end(s: Seq<char>, i: int) -> int
    decreases s.len() - i,
{
    if 0 <= i < s.len() && s[i] != '$' {
        str_end(s, i + 1)
    } else {
        i
    }
}

/// The value of the decimal digits `s[i..j]`.
pub open spec fn number(s: Seq<char>, i: int, j: int) -> nat
    decreases j - i,
{
    if j <= i {
        0
    } else {
        number(s, i, j - 1) * 10 + (s[j - 1] as nat - '0' as nat) as nat
    }
}

/// A tab stop at `i`: `$n`, `${n}` or `${n:placeholder}`, and where it ends.
pub open spec fn spec_tabstop(s: Seq<char>, i: int) -> Option<(ElemView, int)> {
    let d1 = digits_end(s, i + 1);
    let d2 = digits_end(s, i + 2);
    if !(0 <= i < s.len() && s[i] == '$') {
        None
    } else if d1 > i + 1 {
        Some((ElemView::TabStop(Seq::empty(), number(s, i + 1, d1)), d1))
    } else if i + 1 < s.len() && s[i + 1] == '{' && d2 > i + 2 && d2 < s.len() {
        if s[d2] == '}' {
            Some((ElemView::TabStop(Seq::empty(), number(s, i + 2, d2)), d2 + 1))
        } else if s[d2] == ':' {
            let p = placeholder_end(s, d2 + 1);
            if p > d2 + 1 && p < s.len() && s[p] == '}' {
                Some((ElemView::TabStop(s.subrange(d2 + 1, p), number(s, i + 2, d2)), p + 1))
            } else {
                None
            }
        } else {
            None
        }
    } else {
        None
    }
}

/// A piece at `i`: a tab stop at a `$`, else the text up to the next `$`.
pub open spec fn spec_elem(s: Seq<char>, i: int) -> Option<(ElemView, int)> {
    if 0 <= i < s.len() && s[i] == '$' {
        spec_tabstop(s, i)
    } else if 0 <= i < s.len() {
        Some((ElemView::Str(s.subrange(i, str_end(s, i))), str_end(s, i)))
    } else {
        None
    }
}

/// The pieces from `i` to the end, if the rest of the line is made of pieces.
pub open spec fn spec_elems(s: Seq<char>, i: int) -> Option<Seq<ElemView>>
    decreases s.len() - i,
{
    if i >= s.len() {
        Some(Seq::empty())
    } else {
        match spec_elem(s, i) {
            Some((e, j)) => if i < j <= s.len() {
                match spec_elems(s, j) {
                    Some(rest) => Some(seq![e] + rest),
                    None => None,
                }
            } else {
                None
            },
            None => None,
        }
    }
}

/// The pieces of a snippet line: at least one, and nothing left over.
pub open spec fn spec_parse(s: Seq<char>) -> Option<Seq<ElemView>> {
    if s.len() == 0 {
        None
    } else {
        spec_elems(s, 0)
    }
}

/// Every run of digits in the line is a number that fits a `usize`.
pub open spec fn numbers_fit(s: Seq<char>) -> bool {
    forall|i: int, j: int|
        0 <= i <= j <= s.len() && (forall|k: int| i <= k < j ==> is_digit(#[trigger] s[k])) ==> number(s, i, j)
            <= usize::MAX
}

/// Parses a line of a snippet body.
pub struct LineParser {}

proof fn lemma_digits_end(s: Seq<char>, i: int)
    requires
        0 <= i <= s.len(),
    ensures
        i <= digits_end(s, i) <= s.len(),
        forall|k: int| i <= k < digits_end(s, i) ==> is_digit(#[trigger] s[k]),
        digits_end(s, i) == s.len() || !is_digit(s[digits_end(s, i)]),
    decreases s.len() - i,
{
    if i < s.len() && is_digit(s[i]) {
        lemma_digits_end(s, i + 1);
    }
}

proof fn lemma_placeholder_end(s: Seq<char>, i: int)
    requires
        0 <= i <= s.len(),
    ensures
        i <= placeholder_end(s, i) <= s.len(),
        placeholder_end(s, i) == s.len() || !is_placeholder_char(s[placeholder_end(s, i)]),
    decreases s.len() - i,
{
    if i < s.len() && is_placeholder_char(s[i]) {
        lemma_placeholder_end(s, i + 1);
    }
}

proof fn lemma_str_end(s: Seq<char>, i: int)
    requires
        0 <= i <= s.len(),
    ensures
        i <= str_end(s, i) <= s.len(),
        str_end(s, i) == s.len() || s[str_end(s, i)] == '$',
    decreases s.len() - i,
{
    if i < s.len() && s[i] != '$' {
        lemma_str_end(s, i + 1);
    }
}

impl LineParser {
    pub fn new() -> (r: Self) {
        LineParser {}
    }

    /// The end of the run of digits from `i`, and its value.
    fn parse_digits(s: &[char], i: usize) -> (r: (usize, usize))
        requires
            i <= s@.len(),
            numbers_fit(s@),
        ensures
            r.0 == digits_end(s@, i as int),
            r.1 == number(s@, i as int, r.0 as int),
    {
        proof {
            lemma_digits_end(s@, i as int);
        }
        let mut j = i;
        let mut n: usize = 0;
        while j < s.len() && '0' <= s[j] && s[j] <= '9'
            invariant
                i <= j <= s@.len(),
                digits_end(s@, j as int) == digits_end(s@, i as int),
                forall|k: int| i <= k < j ==> is_digit(#[trigger] s@[k]),
                n == number(s@, i as int, j as int),
                numbers_fit(s@),
            decreases s@.len() - j,
        {
            proof {
                assert(forall|k: int| i <= k < j + 1 ==> is_digit(#[trigger] s@[k]));
                assert(number(s@, i as int, j + 1) <= usize::MAX);
            }
            let d = (s[j] as u32 - '0' as u32) as usize;
            n = n * 10 + d;
            j = j + 1;
        }
        (j, n)
    }

    /// The end of the run of placeholder characters from `i`.
    fn scan_placeholder(s: &[char], i: usize) -> (r: usize)
        requires
            i <= s@.len(),
        ensures
            r == placeholder_end(s@, i as int),
    {
        proof {
            lemma_placeholder_end(s@, i as int);
        }
        let mut j = i;
        while j < s.len() && s[j] != '{' && s[j] != '}' && s[j] != '$'
            invariant
                i <= j <= s@.len(),
                placeholder_end(s@, j as int) == placeholder_end(s@, i as int),
            decreases s@.len() - j,
        {
            j = j + 1;
        }
        j
    }

    /// The characters `s[i..j]`.
    fn slice_chars(s: &[char], i: usize, j: usize) -> (r: Vec<char>)
        requires
            i <= j <= s@.len(),
        ensures
            r@ == s@.subrange(i as int, j as int),
    {
        let mut v: Vec<char> = Vec::new();
        let mut k = i;
        while k < j
            invariant
                i <= k <= j <= s@.len(),
                v@ == s@.subrange(i as int, k as int),
            decreases j - k,
        {
            v.push(s[k]);
            k = k + 1;
            assert(v@ == s@.subrange(i as int, k as int));
        }
        v
    }

    /// A tab stop at `i`.
    fn parse_tabstop(s: &[char], i: usize) -> (r: Option<(SnippetElem, usize)>)
        requires
            i < s@.len(),
            s@[i as int] == '$',
            numbers_fit(s@),
        ensures
            match spec_tabstop(s@, i as int) {
                None => r is None,
                Some((e, j)) => r matches Some((x, k)) && elem_view(x) == e && k == j,
            },
    {
        let len = s.len();
        assert(i + 1 <= len);
        let (d1, n1) = LineParser::parse_digits(s, i + 1);
        if d1 > i + 1 {
            return Some((SnippetElem::TabStop(Vec::new(), n1), d1));
        }
        if !(i + 1 < s.len() && s[i + 1] == '{') {
            return None;
        }
        let (d2, n2) = LineParser::parse_digits(s, i + 2);
        if !(d2 > i + 2 && d2 < s.len()) {
            return None;
        }
        if s[d2] == '}' {
            return Some((SnippetElem::TabStop(Vec::new(), n2), d2 + 1));
        }
        if s[d2] != ':' {
            return None;
        }
        let p = LineParser::scan_placeholder(s, d2 + 1);
        if p > d2 + 1 && p < s.len() && s[p] == '}' {
            Some((SnippetElem::TabStop(LineParser::slice_chars(s, d2 + 1, p), n2), p + 1))
        } else {
            None
        }
    }

    /// Parses a line of a snippet body: tab stops (`$n`, `${n}`,
    /// `${n:placeholder}`) and text between them. `None` when the line is
    /// empty or a `$` starts no tab stop.
    pub fn parse(&mut self, s: &[char]) -> (r: Option<Vec<SnippetElem>>)
        requires
            numbers_fit(s@),
        ensures
            match spec_parse(s@) {
                None => r is None,
                Some(es) => r matches Some(v) && elems_view(v@) == es,
            },
    {
        if s.len() == 0 {
            return None;
        }
        let mut out: Vec<SnippetElem> = Vec::new();
        let mut i: usize = 0;
        while i < s.len()
            invariant
                i <= s@.len(),
                numbers_fit(s@),
                spec_parse(s@) == (match spec_elems(s@, i as int) {
                    Some(rest) => Some(elems_view(out@) + rest),
                    None => None,
                }),
                s@.len() > 0,
            decreases s@.len() - i,
        {
            let ghost ov = elems_view(out@);
            if s[i] == '$' {
                match LineParser::parse_tabstop(s, i) {
                    None => {
                        return None;
                    },
                    Some((e, j)) => {
                        proof {
                            lemma_digits_end(s@, i + 1);
                            if i + 2 <= s@.len() {
                                lemma_digits_end(s@, i + 2);
                            }
                        }
                        out.push(e);
                        assert(elems_view(out@) == ov.push(elem_view(e)));
                        i = j;
                    },
                }
            } else {
                let mut j = i;
                proof {
                    lemma_str_end(s@, i as int);
                }
                while j < s.len() && s[j] != '$'
                    invariant
                        i <= j <= s@.len(),
                        str_end(s@, j as int) == str_end(s@, i as int),
                    decreases s@.len() - j,
                {
                    j = j + 1;
                }
                let e = SnippetElem::Str(LineParser::slice_chars(s, i, j));
                out.push(e);
                assert(elems_view(out@) == ov.push(elem_view(e)));
                i = j;
            }
            proof {
                assert(ov.push(elem_view(out@.last())) + spec_elems(s@, i as int).unwrap_or(Seq::empty()) == ov + (seq![
                    elem_view(out@.last()),
                ] + spec_elems(s@, i as int).unwrap_or(Seq::empty())));
            }
        }
        assert(elems_view(out@) + Seq::<ElemView>::empty() == elems_view(out@));
        Some(out)
    }
}

} // verus!
