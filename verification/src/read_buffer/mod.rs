use vstd::prelude::*;
use crate::Key;
use crate::view::Area;
use crate::message_box::MessageBox;
use crate::controller::{Edge, Effect, Graph, first_match};
use self::visibility_window::VisibilityWindow;
use self::search::{Search, all_hits, line_wf, forward_row, backward_row, next_result, prev_result};
use vstd::math::min;

pub mod visibility_window;
pub mod search;

verus! {

/// One element of a text buffer: a character or the end of a line.
#[derive(Debug, Clone, Copy, PartialEq, Eq, Structural)]
pub enum BufElem {
    Char(char),
    Eol,
}

pub open spec fn spec_is_word_char(e: BufElem) -> bool {
    match e {
        BufElem::Eol => false,
        BufElem::Char(c) => c == '_' || c == '!' || ('a' <= c && c <= 'z') || ('A' <= c
            && c <= 'Z') || ('0' <= c && c <= '9'),
    }
}

/// Whether the element belongs to a word: letters, digits, `_` and `!`.
pub fn is_word_char(e: &BufElem) -> (r: bool)
    ensures
        r == spec_is_word_char(*e),
{
    match e {
        BufElem::Eol => false,
        BufElem::Char(c) => {
            let c = *c;
            c == '_' || c == '!' || ('a' <= c && c <= 'z') || ('A' <= c && c <= 'Z') || ('0' <= c
                && c <= '9')
        },
    }
}

/// A position in a buffer.
#[derive(Debug, Clone, Copy, PartialEq, Eq, Structural)]
pub struct Cursor {
    pub row: usize,
    pub col: usize,
}

/// A range of positions: `start` inclusive, `end` exclusive.
#[derive(Debug, Clone, Copy, PartialEq, Eq, Structural)]
pub struct CursorRange {
    pub start: Cursor,
    pub end: Cursor,
}

/// First index of the run of word characters that ends at `col`.
pub open spec fn word_lo(s: Seq<BufElem>, col: int) -> int
    decreases col,
{
    if col <= 0 {
        0
    } else if spec_is_word_char(s[col - 1]) {
        word_lo(s, col - 1)
    } else {
        col
    }
}

/// One past the last index of the run of word characters that starts at `col`.
pub open spec fn word_hi(s: Seq<BufElem>, col: int) -> int
    decreases s.len() - col,
{
    if col + 1 < s.len() && spec_is_word_char(s[col + 1]) {
        word_hi(s, col + 1)
    } else {
        col + 1
    }
}

/// Words are made of ASCII letters of either case, ASCII digits, `_` and
/// `!`; whether a character belongs to a word does not depend on its case,
/// and a line end belongs to none.
pub proof fn law_word_chars(c: char)
    ensures
        spec_is_word_char(BufElem::Char(c)) <==> ('a' <= c <= 'z' || 'A' <= c <= 'Z' || '0' <= c <= '9' || c == '_'
            || c == '!'),
        (c as u32) < 128 ==> spec_is_word_char(BufElem::Char(c)) == spec_is_word_char(
            BufElem::Char(self::search::ascii_lower(c)),
        ),
        !spec_is_word_char(BufElem::Eol),
{
    if 'A' <= c <= 'Z' {
        let l = self::search::ascii_lower(c);
        assert('a' <= l <= 'z');
    }
}

proof fn lemma_word_lo(s: Seq<BufElem>, col: int)
    requires
        0 <= col <= s.len(),
    ensures
        0 <= word_lo(s, col) <= col,
        forall|i: int| word_lo(s, col) <= i < col ==> spec_is_word_char(#[trigger] s[i]),
        word_lo(s, col) == 0 || !spec_is_word_char(s[word_lo(s, col) - 1]),
    decreases col,
{
    if col > 0 && spec_is_word_char(s[col - 1]) {
        lemma_word_lo(s, col - 1);
    }
}

proof fn lemma_word_hi(s: Seq<BufElem>, col: int)
    requires
        0 <= col < s.len(),
    ensures
        col < word_hi(s, col) <= s.len(),
        forall|i: int| col < i < word_hi(s, col) ==> spec_is_word_char(#[trigger] s[i]),
        word_hi(s, col) == s.len() || !spec_is_word_char(s[word_hi(s, col)]),
    decreases s.len() - col,
{
    if col + 1 < s.len() && spec_is_word_char(s[col + 1]) {
        lemma_word_hi(s, col + 1);
    }
}

/// The word under a column on a word character is the whole run of word
/// characters around it: every element of the range is one, and the
/// elements just before and just after it, where there are any, are not.
pub proof fn law_word_range(s: Seq<BufElem>, col: int)
    requires
        0 <= col < s.len(),
        spec_is_word_char(s[col]),
    ensures
        0 <= word_lo(s, col) <= col < word_hi(s, col) <= s.len(),
        forall|i: int| word_lo(s, col) <= i < word_hi(s, col) ==> spec_is_word_char(#[trigger] s[i]),
        word_lo(s, col) == 0 || !spec_is_word_char(s[word_lo(s, col) - 1]),
        word_hi(s, col) == s.len() || !spec_is_word_char(s[word_hi(s, col)]),
{
    lemma_word_lo(s, col);
    lemma_word_hi(s, col);
}

/// Where a search for the next word starts, from column `col` (or the line head).
pub open spec fn next_word_from(s: Seq<BufElem>, col: Option<usize>) -> int {
    match col {
        None => 0,
        Some(c) => if spec_is_word_char(s[c as int]) {
            word_hi(s, c as int)
        } else {
            c as int
        },
    }
}

/// Where a backward search for the previous word ends (exclusive).
pub open spec fn prev_word_until(s: Seq<BufElem>, col: Option<usize>) -> int {
    match col {
        None => s.len() as int,
        Some(c) => if spec_is_word_char(s[c as int]) {
            word_lo(s, c as int)
        } else {
            c as int
        },
    }
}

/// The first word character at or after `from`.
pub open spec fn first_word_from(s: Seq<BufElem>, from: int) -> Option<usize>
    decreases s.len() - from,
{
    if from >= s.len() || from < 0 {
        None
    } else if spec_is_word_char(s[from]) {
        Some(from as usize)
    } else {
        first_word_from(s, from + 1)
    }
}

/// The last word character before `until`.
pub open spec fn last_word_before(s: Seq<BufElem>, until: int) -> Option<usize>
    decreases until,
{
    if until <= 0 || until > s.len() {
        None
    } else if spec_is_word_char(s[until - 1]) {
        Some((until - 1) as usize)
    } else {
        last_word_before(s, until - 1)
    }
}

/// `r` is the first word character at or after `from`, or there is none.
pub open spec fn is_first_word_from(s: Seq<BufElem>, from: int, r: Option<usize>) -> bool {
    match r {
        Some(i) => from <= i < s.len() && spec_is_word_char(s[i as int]) && forall|j: int|
            from <= j < i ==> !spec_is_word_char(#[trigger] s[j]),
        None => forall|j: int| from <= j < s.len() ==> !spec_is_word_char(#[trigger] s[j]),
    }
}

/// `r` is the last word character before `until`, or there is none.
pub open spec fn is_last_word_before(s: Seq<BufElem>, until: int, r: Option<usize>) -> bool {
    match r {
        Some(i) => 0 <= i < until && spec_is_word_char(s[i as int]) && forall|j: int|
            i < j < until ==> !spec_is_word_char(#[trigger] s[j]),
        None => forall|j: int| 0 <= j < until ==> !spec_is_word_char(#[trigger] s[j]),
    }
}

proof fn lemma_word_lo_bounds(s: Seq<BufElem>, col: int)
    requires
        0 <= col < s.len(),
    ensures
        0 <= word_lo(s, col) <= col,
        forall|j: int| word_lo(s, col) <= j < col ==> spec_is_word_char(#[trigger] s[j]),
        word_lo(s, col) == 0 || !spec_is_word_char(s[word_lo(s, col) - 1]),
    decreases col,
{
    if col > 0 && spec_is_word_char(s[col - 1]) {
        lemma_word_lo_bounds(s, col - 1);
    }
}

proof fn lemma_word_hi_bounds(s: Seq<BufElem>, col: int)
    requires
        0 <= col < s.len(),
    ensures
        col < word_hi(s, col) <= s.len(),
        forall|j: int| col < j < word_hi(s, col) ==> spec_is_word_char(#[trigger] s[j]),
        word_hi(s, col) == s.len() || !spec_is_word_char(s[word_hi(s, col)]),
    decreases s.len() - col,
{
    if col + 1 < s.len() && spec_is_word_char(s[col + 1]) {
        lemma_word_hi_bounds(s, col + 1);
    }
}

/// The range that `word_range` gives is exactly the maximal run of word
/// characters around the column: every element in it is a word character and
/// the elements just outside it are not.
pub proof fn lemma_word_range_maximal(s: Seq<BufElem>, col: int)
    requires
        0 <= col < s.len(),
        spec_is_word_char(s[col]),
    ensures
        0 <= word_lo(s, col) <= col < word_hi(s, col) <= s.len(),
        forall|j: int| word_lo(s, col) <= j < word_hi(s, col) ==> spec_is_word_char(#[trigger] s[j]),
        word_lo(s, col) == 0 || !spec_is_word_char(s[word_lo(s, col) - 1]),
        word_hi(s, col) == s.len() || !spec_is_word_char(s[word_hi(s, col)]),
{
    lemma_word_lo_bounds(s, col);
    lemma_word_hi_bounds(s, col);
}

/// A read-only view of one line of a buffer.
pub struct Line<'a> {
    pub line: &'a [BufElem],
}

impl<'a> Line<'a> {
    pub open spec fn view(&self) -> Seq<BufElem> {
        self.line@
    }

    pub fn new(line: &'a [BufElem]) -> (r: Self)
        ensures
            r@ == line@,
    {
        Line { line }
    }

    /// The index of the first element that is neither a space nor a tab.
    /// The line must hold such an element (a line ends with its end of line).
    pub fn first_non_space_index(&self) -> (r: usize)
        requires
            exists|i: int| 0 <= i < self@.len() && !is_blank(#[trigger] self@[i]),
        ensures
            r < self@.len(),
            !is_blank(self@[r as int]),
            forall|j: int| 0 <= j < r ==> is_blank(#[trigger] self@[j]),
    {
        let mut i: usize = 0;
        while i < self.line.len()
            invariant
                i <= self@.len(),
                self.line@ == self@,
                forall|j: int| 0 <= j < i ==> is_blank(#[trigger] self@[j]),
                exists|i: int| 0 <= i < self@.len() && !is_blank(#[trigger] self@[i]),
            decreases self.line.len() - i,
        {
            let e = self.line[i];
            if e != BufElem::Char(' ') && e != BufElem::Char('\t') {
                return i;
            }
            i = i + 1;
        }
        proof {
            let w = choose|w: int| 0 <= w < self@.len() && !is_blank(#[trigger] self@[w]);
            assert(is_blank(self@[w]));
        }
        0
    }

    /// The range of the word that holds column `col`, or `None` when the element
    /// at `col` is not a word character.
    pub fn word_range(&self, col: usize) -> (r: Option<core::ops::Range<usize>>)
        requires
            col < self@.len(),
        ensures
            !spec_is_word_char(self@[col as int]) ==> r is None,
            spec_is_word_char(self@[col as int]) ==> r is Some && r->0.start == word_lo(
                self@,
                col as int,
            ) && r->0.end == word_hi(self@, col as int),
    {
        if !is_word_char(&self.line[col]) {
            return None;
        }
        let mut lo = col;
        while lo > 0 && is_word_char(&self.line[lo - 1])
            invariant
                lo <= col < self@.len(),
                self.line@ == self@,
                word_lo(self@, lo as int) == word_lo(self@, col as int),
            decreases lo,
        {
            lo = lo - 1;
        }
        let mut hi = col;
        while hi + 1 < self.line.len() && is_word_char(&self.line[hi + 1])
            invariant
                col <= hi < self@.len(),
                self.line@ == self@,
                word_hi(self@, hi as int) == word_hi(self@, col as int),
            decreases self.line.len() - hi,
        {
            hi = hi + 1;
        }
        Some(lo..hi + 1)
    }

    /// The first word character at or after the end of the word at `col` (or at
    /// `col` itself when it is not in a word; from the line head with `None`).
    pub fn find_next_word(&self, col: Option<usize>) -> (r: Option<usize>)
        requires
            col matches Some(c) ==> c < self@.len(),
        ensures
            r == first_word_from(self@, next_word_from(self@, col)),
            is_first_word_from(self@, next_word_from(self@, col), r),
    {
        let start = match col {
            Some(c) => if !is_word_char(&self.line[c]) {
                c
            } else {
                proof {
                    lemma_word_hi_bounds(self@, c as int);
                }
                self.word_range(c).unwrap().end
            },
            None => 0,
        };
        let mut i = start;
        while i < self.line.len()
            invariant
                start <= i <= self@.len(),
                self.line@ == self@,
                start == next_word_from(self@, col),
                forall|j: int| start <= j < i ==> !spec_is_word_char(#[trigger] self@[j]),
                first_word_from(self@, start as int) == first_word_from(self@, i as int),
            decreases self.line.len() - i,
        {
            if is_word_char(&self.line[i]) {
                return Some(i);
            }
            i = i + 1;
        }
        None
    }

    /// The last word character before the start of the word at `col` (or before
    /// `col` itself when it is not in a word; before the line end with `None`).
    pub fn find_prev_word(&self, col: Option<usize>) -> (r: Option<usize>)
        requires
            col matches Some(c) ==> c < self@.len(),
        ensures
            r == last_word_before(self@, prev_word_until(self@, col)),
            is_last_word_before(self@, prev_word_until(self@, col), r),
    {
        let end = match col {
            Some(c) => if !is_word_char(&self.line[c]) {
                c
            } else {
                proof {
                    lemma_word_lo_bounds(self@, c as int);
                }
                self.word_range(c).unwrap().start
            },
            None => self.line.len(),
        };
        let mut i = end;
        while i > 0
            invariant
                i <= end <= self@.len(),
                self.line@ == self@,
                end == prev_word_until(self@, col),
                forall|j: int| i <= j < end ==> !spec_is_word_char(#[trigger] self@[j]),
                last_word_before(self@, end as int) == last_word_before(self@, i as int),
            decreases i,
        {
            if is_word_char(&self.line[i - 1]) {
                return Some(i - 1);
            }
            i = i - 1;
        }
        None
    }
}

pub open spec fn is_blank(e: BufElem) -> bool {
    e == BufElem::Char(' ') || e == BufElem::Char('\t')
}

/// The characters of a string.
pub fn chars_of(s: &str) -> (r: Vec<char>)
    ensures
        r@ == s@,
{
    let mut v: Vec<char> = Vec::new();
    for c in it: s.chars()
        invariant
            it.seq() == s@,
            v@ == s@.take(it.index() as int),
    {
        proof {
            assert(s@.take(it.index() + 1) == s@.take(it.index() as int).push(c));
        }
        v.push(c);
    }
    proof {
        assert(s@.take(s@.len() as int) == s@);
    }
    v
}

/// The pieces of `cs` between the newlines: one more than there are newlines.
pub open spec fn pieces(cs: Seq<char>) -> Seq<Seq<char>>
    decreases cs.len(),
{
    if cs.len() == 0 {
        seq![Seq::empty()]
    } else {
        let p = pieces(cs.drop_last());
        if cs.last() == '\n' {
            p.push(Seq::empty())
        } else {
            p.update(p.len() - 1, p.last().push(cs.last()))
        }
    }
}

pub proof fn lemma_pieces_nonempty(cs: Seq<char>)
    ensures
        pieces(cs).len() >= 1,
    decreases cs.len(),
{
    if cs.len() > 0 {
        lemma_pieces_nonempty(cs.drop_last());
    }
}

/// A line that a newline ended loses the carriage return before that newline.
pub open spec fn strip_cr(l: Seq<char>) -> Seq<char> {
    if l.len() > 0 && l.last() == '\r' {
        l.drop_last()
    } else {
        l
    }
}

/// Characters as buffer elements.
pub open spec fn char_elems(cs: Seq<char>) -> Seq<BufElem>
    decreases cs.len(),
{
    if cs.len() == 0 {
        Seq::empty()
    } else {
        char_elems(cs.drop_last()).push(BufElem::Char(cs.last()))
    }
}

/// A line of text as buffer elements: its characters and an end of line.
pub open spec fn to_line(l: Seq<char>) -> Seq<BufElem> {
    char_elems(l).push(BufElem::Eol)
}

/// The rows of lines that newlines ended: each without the carriage return
/// before its newline.
pub open spec fn ended_rows(p: Seq<Seq<char>>) -> Seq<Seq<BufElem>>
    decreases p.len(),
{
    if p.len() == 0 {
        Seq::empty()
    } else {
        ended_rows(p.drop_last()).push(to_line(strip_cr(p.last())))
    }
}

/// The rows of a text, split as `str::lines` splits it: at `\n` or `\r\n`,
/// without the line endings, the final line ending being optional.
pub open spec fn text_rows(cs: Seq<char>) -> Seq<Seq<BufElem>> {
    let p = pieces(cs);
    let ended = ended_rows(p.drop_last());
    if p.last().len() == 0 {
        ended
    } else {
        ended.push(to_line(p.last()))
    }
}

/// The buffer that a text gives: one row per text line, or a single empty line
/// for an empty or absent text.
pub open spec fn spec_read_from_string(s: Option<Seq<char>>) -> Seq<Seq<BufElem>> {
    match s {
        Some(cs) => if cs.len() == 0 {
            seq![seq![BufElem::Eol]]
        } else {
            text_rows(cs)
        },
        None => seq![seq![BufElem::Eol]],
    }
}

/// Whether the row is a line: it ends with its only line end.
pub fn line_ok(l: &Vec<BufElem>) -> (r: bool)
    ensures
        r == line_wf(l@),
{
    let n = l.len();
    if n == 0 {
        return false;
    }
    let mut i: usize = 0;
    while i < n - 1
        invariant
            n == l@.len(),
            n >= 1,
            i <= n - 1,
            forall|j: int| 0 <= j < i ==> l@[j] != BufElem::Eol,
        decreases n - 1 - i,
    {
        match l[i] {
            BufElem::Eol => {
                return false;
            },
            BufElem::Char(_) => {},
        }
        i = i + 1;
    }
    match l[n - 1] {
        BufElem::Eol => true,
        BufElem::Char(_) => false,
    }
}

/// Whether the rows make a well-formed buffer whose text fits.
pub fn buffer_fits(b: &Vec<Vec<BufElem>>) -> (r: bool)
    ensures
        r == (buf_wf(rows(b@)) && flatten(rows(b@)).len() <= max_size()),
{
    let n = b.len();
    if n == 0 || n > usize::MAX / 8 {
        return false;
    }
    let mut total: usize = 0;
    let mut i: usize = 0;
    while i < n
        invariant
            n == b@.len(),
            1 <= n <= max_size(),
            i <= n,
            forall|j: int| 0 <= j < i ==> line_wf(#[trigger] rows(b@)[j]) && rows(b@)[j].len() <= max_size(),
            total == flatten(rows(b@).take(i as int)).len(),
            total <= max_size(),
        decreases n - i,
    {
        if !line_ok(&b[i]) {
            assert(!line_wf(rows(b@)[i as int]));
            return false;
        }
        let k = b[i].len();
        assert(rows(b@).take(i + 1).drop_last() == rows(b@).take(i as int));
        if k > usize::MAX / 8 - total {
            proof {
                assert(flatten(rows(b@).take(i + 1)) == flatten(rows(b@).take(i as int)) + rows(b@)[i as int]);
                crate::edit_buffer::text::lemma_flatten_concat(rows(b@).take(i + 1), rows(b@).skip(i + 1));
                assert(rows(b@).take(i + 1) + rows(b@).skip(i + 1) == rows(b@));
            }
            return false;
        }
        total = total + k;
        i = i + 1;
    }
    assert(rows(b@).take(n as int) == rows(b@));
    true
}

/// The rows of a buffer, each as a sequence of elements.
pub open spec fn rows(b: Seq<Vec<BufElem>>) -> Seq<Seq<BufElem>> {
    Seq::new(b.len(), |i: int| b[i]@)
}

/// The characters, each made a buffer element, followed by an end of line.
pub fn convert_to_bufelems(cs: Vec<char>) -> (r: Vec<BufElem>)
    ensures
        r@ == to_line(cs@),
{
    let mut r: Vec<BufElem> = Vec::new();
    let mut i: usize = 0;
    while i < cs.len()
        invariant
            i <= cs@.len(),
            r@ == char_elems(cs@.take(i as int)),
        decreases cs.len() - i,
    {
        r.push(BufElem::Char(cs[i]));
        i = i + 1;
        proof {
            assert(cs@.take(i as int).drop_last() == cs@.take(i - 1));
        }
    }
    r.push(BufElem::Eol);
    proof {
        assert(cs@.take(cs@.len() as int) == cs@);
    }
    r
}

/// The buffer that a file's text gives, one line per text line; a single empty
/// line when there is no text or it is empty.
pub fn read_from_string(s: Option<String>) -> (r: Vec<Vec<BufElem>>)
    ensures
        rows(r@) == spec_read_from_string(
            match s {
                Some(x) => Some(x@),
                None => None,
            },
        ),
{
    match s {
        None => {
            single_empty_line()
        },
        Some(text) => {
            let cs = chars_of(text.as_str());
            if cs.len() == 0 {
                return single_empty_line();
            }
            let v = split_text_lines(&cs);
            v
        },
    }
}

/// A buffer of one empty line.
pub fn single_empty_line() -> (r: Vec<Vec<BufElem>>)
    ensures
        rows(r@) == seq![seq![BufElem::Eol]],
{
    let mut line: Vec<BufElem> = Vec::new();
    line.push(BufElem::Eol);
    let mut v: Vec<Vec<BufElem>> = Vec::new();
    v.push(line);
    assert(rows(v@) =~= seq![seq![BufElem::Eol]]);
    v
}

fn split_text_lines(cs: &Vec<char>) -> (r: Vec<Vec<BufElem>>)
    ensures
        rows(r@) == text_rows(cs@),
{
    let mut res: Vec<Vec<BufElem>> = Vec::new();
    let mut cur: Vec<char> = Vec::new();
    let mut i: usize = 0;
    while i < cs.len()
        invariant
            i <= cs@.len(),
            pieces(cs@.take(i as int)).len() >= 1,
            cur@ == pieces(cs@.take(i as int)).last(),
            rows(res@) == ended_rows(pieces(cs@.take(i as int)).drop_last()),
        decreases cs.len() - i,
    {
        let c = cs[i];
        proof {
            assert(cs@.take(i + 1).drop_last() == cs@.take(i as int));
            assert(cs@.take(i + 1).last() == c);
        }
        if c == '\n' {
            if cur.len() > 0 && cur[cur.len() - 1] == '\r' {
                cur.pop();
            }
            let line = convert_to_bufelems(cur);
            res.push(line);
            cur = Vec::new();
            proof {
                let p = pieces(cs@.take(i as int));
                assert(pieces(cs@.take(i + 1)) == p.push(Seq::empty()));
                assert(pieces(cs@.take(i + 1)).drop_last() == p);
                assert(p == p.drop_last().push(p.last()));
                assert(ended_rows(p).drop_last() == ended_rows(p.drop_last()));
                assert(rows(res@) =~= ended_rows(p));
            }
        } else {
            cur.push(c);
            proof {
                let p = pieces(cs@.take(i as int));
                assert(pieces(cs@.take(i + 1)).drop_last() =~= p.drop_last());
            }
        }
        i = i + 1;
    }
    proof {
        assert(cs@.take(cs@.len() as int) == cs@);
    }
    if cur.len() > 0 {
        let line = convert_to_bufelems(cur);
        res.push(line);
        proof {
            let p = pieces(cs@);
            assert(rows(res@) =~= ended_rows(p.drop_last()).push(to_line(p.last())));
        }
    } else {
        proof {
            let p = pieces(cs@);
            assert(rows(res@) =~= ended_rows(p.drop_last()));
        }
    }
    res
}

/// The concatenation of rows.
pub open spec fn flatten(rs: Seq<Seq<BufElem>>) -> Seq<BufElem>
    decreases rs.len(),
{
    if rs.len() == 0 {
        Seq::empty()
    } else {
        flatten(rs.drop_last()) + rs.last()
    }
}

pub proof fn lemma_flatten_push(rs: Seq<Seq<BufElem>>, l: Seq<BufElem>)
    ensures
        flatten(rs.push(l)) == flatten(rs) + l,
{
    assert(rs.push(l).drop_last() == rs);
}

pub const INIT: &'static str = "Normal";
pub const SEARCH: &'static str = "Search";
pub const JUMP: &'static str = "Jump";

/// The largest buffer, line and window that the editor handles.
pub open spec fn max_size() -> int {
    usize::MAX as int / 8
}

/// A well-formed buffer: at least one line, each a line of `line_wf`.
pub open spec fn buf_wf(b: Seq<Seq<BufElem>>) -> bool {
    &&& 1 <= b.len() <= max_size()
    &&& forall|r: int| 0 <= r < b.len() ==> #[trigger] line_wf(b[r])
    &&& forall|r: int| 0 <= r < b.len() ==> (#[trigger] b[r]).len() <= max_size()
}

/// The value of a string of decimal digits.
pub open spec fn digits_value(s: Seq<char>) -> int
    decreases s.len(),
{
    if s.len() == 0 {
        0
    } else {
        digits_value(s.drop_last()) * 10 + (s.last() as int - '0' as int)
    }
}

pub open spec fn is_digit(c: char) -> bool {
    '0' <= c && c <= '9'
}

/// A buffer with a cursor that moves and searches but does not edit.
pub struct ReadBuffer {
    pub state: String,
    pub buf: Vec<Vec<BufElem>>,
    pub cursor: Cursor,
    pub num_buffer: Vec<char>,
    pub window: VisibilityWindow,
    pub search: Search,
    pub message_box: MessageBox,
}

impl ReadBuffer {
    pub open spec fn lines(&self) -> Seq<Seq<BufElem>> {
        rows(self.buf@)
    }

    /// The buffer is well formed, the search caches belong to its lines and the
    /// window is a window of bounded size.
    pub open spec fn wf(&self) -> bool {
        &&& buf_wf(self.lines())
        &&& self.search.inv_for(self.lines())
        &&& self.window.inv()
        &&& self.window.spec_width() <= max_size()
        &&& self.window.spec_height() <= max_size()
        &&& self.window.col_high <= 2 * max_size()
        &&& self.window.row_high <= 2 * max_size()
    }

    /// The cursor is on an element of the buffer.
    pub open spec fn cursor_ok(&self) -> bool {
        &&& self.cursor.row < self.buf@.len()
        &&& self.cursor.col < self.buf@[self.cursor.row as int]@.len()
    }

    /// The number typed for a jump is a line number that fits a `usize`.
    pub open spec fn jump_ready(&self) -> bool {
        &&& self.num_buffer@.len() > 0
        &&& forall|i: int| 0 <= i < self.num_buffer@.len() ==> is_digit(#[trigger] self.num_buffer@[i])
        &&& 1 <= digits_value(self.num_buffer@) <= usize::MAX
    }

    pub fn new(init_buf: Vec<Vec<BufElem>>, message_box: MessageBox) -> (r: Self)
        ensures
            r.buf == init_buf,
            r.cursor == (Cursor { row: 0, col: 0 }),
            r.state@ == INIT@,
            r.num_buffer@.len() == 0,
            r.search.cur_word@.len() == 0,
            !r.search.show,
            r.message_box == message_box,
            r.window.cur_cursor == (Cursor { row: 0, col: 0 }),
            r.window.col_low == 0 && r.window.col_high == 0,
            r.window.row_low == 0 && r.window.row_high == 0,
            buf_wf(rows(init_buf@)) ==> r.wf(),
    {
        let n_rows = init_buf.len();
        let r = ReadBuffer {
            state: INIT.to_owned(),
            buf: init_buf,
            cursor: Cursor { row: 0, col: 0 },
            num_buffer: Vec::new(),
            window: VisibilityWindow::new(Cursor { col: 0, row: 0 }),
            search: Search::new(n_rows),
            message_box,
        };
        proof {
            assert forall|i: int| 0 <= i < r.lines().len() implies (#[trigger] r.search.cache@[i]).valid_for(
                r.lines()[i],
            ) by {
                assert(r.search.cache@[i].results@.len() == 0);
            }
        }
        r
    }

    /// Hides the search highlights.
    pub fn reset(&mut self)
        ensures
            !final(self).search.show,
            final(self).search.cur_word == old(self).search.cur_word,
            final(self).search.cache == old(self).search.cache,
            final(self).buf == old(self).buf,
            final(self).cursor == old(self).cursor,
            final(self).window == old(self).window,
    {
        self.search.hide_search()
    }

    /// Brings the cursor back into the buffer: onto the last line when below
    /// it, onto the line's end when past it.
    pub fn stabilize_cursor(&mut self)
        requires
            old(self).buf@.len() >= 1,
            forall|r: int| 0 <= r < old(self).buf@.len() ==> (#[trigger] old(self).buf@[r])@.len() >= 1,
        ensures
            final(self).cursor_ok(),
            final(self).cursor.row == (if old(self).cursor.row < old(self).buf@.len() {
                old(self).cursor.row as int
            } else {
                old(self).buf@.len() - 1
            }),
            final(self).cursor.col == (if old(self).cursor.col < old(self).buf@[final(self).cursor.row as int]@.len() {
                old(self).cursor.col as int
            } else {
                old(self).buf@[final(self).cursor.row as int]@.len() - 1
            }),
            final(self).buf == old(self).buf,
            final(self).window == old(self).window,
            final(self).search == old(self).search,
            final(self).num_buffer == old(self).num_buffer,
            final(self).state == old(self).state,
            final(self).message_box == old(self).message_box,
    {
        let mut cursor = self.cursor;
        let max_row = self.buf.len() - 1;
        if cursor.row > max_row {
            cursor.row = max_row;
        }
        if cursor.col > self.buf[cursor.row].len() - 1 {
            cursor.col = self.buf[cursor.row].len() - 1;
        }
        self.cursor = cursor;
    }

    pub fn cursor_up(&mut self)
        ensures
            final(self).cursor.row == (if old(self).cursor.row > 0 {
                old(self).cursor.row - 1
            } else {
                0
            }),
            final(self).cursor.col == old(self).cursor.col,
            final(self).buf == old(self).buf,
            final(self).window == old(self).window,
            final(self).search == old(self).search,
            final(self).num_buffer == old(self).num_buffer,
            final(self).state == old(self).state,
            final(self).message_box == old(self).message_box,
    {
        if self.cursor.row > 0 {
            self.cursor.row = self.cursor.row - 1;
        }
    }

    pub fn cursor_down(&mut self)
        requires
            old(self).buf@.len() >= 1,
        ensures
            final(self).cursor.row == (if old(self).cursor.row < old(self).buf@.len() - 1 {
                old(self).cursor.row + 1
            } else {
                old(self).cursor.row as int
            }),
            final(self).cursor.col == old(self).cursor.col,
            final(self).buf == old(self).buf,
            final(self).window == old(self).window,
            final(self).search == old(self).search,
            final(self).num_buffer == old(self).num_buffer,
            final(self).state == old(self).state,
            final(self).message_box == old(self).message_box,
    {
        if self.cursor.row < self.buf.len() - 1 {
            self.cursor.row = self.cursor.row + 1;
        }
    }

    pub fn cursor_left(&mut self)
        ensures
            final(self).cursor.col == (if old(self).cursor.col > 0 {
                old(self).cursor.col - 1
            } else {
                0
            }),
            final(self).cursor.row == old(self).cursor.row,
            final(self).buf == old(self).buf,
            final(self).window == old(self).window,
            final(self).search == old(self).search,
            final(self).num_buffer == old(self).num_buffer,
            final(self).state == old(self).state,
            final(self).message_box == old(self).message_box,
    {
        if self.cursor.col > 0 {
            self.cursor.col = self.cursor.col - 1;
        }
    }

    pub fn cursor_right(&mut self)
        requires
            old(self).cursor.row < old(self).buf@.len(),
            old(self).buf@[old(self).cursor.row as int]@.len() >= 1,
        ensures
            final(self).cursor.col == (if old(self).cursor.col < old(self).buf@[old(self).cursor.row as int]@.len() - 1 {
                old(self).cursor.col + 1
            } else {
                old(self).cursor.col as int
            }),
            final(self).cursor.row == old(self).cursor.row,
            final(self).buf == old(self).buf,
            final(self).window == old(self).window,
            final(self).search == old(self).search,
            final(self).num_buffer == old(self).num_buffer,
            final(self).state == old(self).state,
            final(self).message_box == old(self).message_box,
    {
        if self.cursor.col < self.buf[self.cursor.row].len() - 1 {
            self.cursor.col = self.cursor.col + 1;
        }
    }

    pub fn jump_line_head(&mut self)
        ensures
            final(self).cursor == (Cursor { row: old(self).cursor.row, col: 0 }),
            final(self).buf == old(self).buf,
            final(self).window == old(self).window,
            final(self).search == old(self).search,
            final(self).num_buffer == old(self).num_buffer,
            final(self).state == old(self).state,
            final(self).message_box == old(self).message_box,
    {
        self.cursor.col = 0;
    }

    pub fn jump_line_last(&mut self)
        requires
            old(self).cursor.row < old(self).buf@.len(),
            old(self).buf@[old(self).cursor.row as int]@.len() >= 1,
        ensures
            final(self).cursor == (Cursor {
                row: old(self).cursor.row,
                col: (old(self).buf@[old(self).cursor.row as int]@.len() - 1) as usize,
            }),
            final(self).buf == old(self).buf,
            final(self).window == old(self).window,
            final(self).search == old(self).search,
            final(self).num_buffer == old(self).num_buffer,
            final(self).state == old(self).state,
            final(self).message_box == old(self).message_box,
    {
        self.cursor.col = self.buf[self.cursor.row].len() - 1;
    }

    /// Moves down by a page: the cursor goes the window's height further than
    /// the window's last line, the window follows it, and the cursor comes back
    /// up by its former distance to that last line.
    pub fn jump_page_forward(&mut self)
        requires
            old(self).wf(),
            old(self).cursor_ok(),
            old(self).window.contains(old(self).cursor),
        ensures
            final(self).wf(),
            ({
                let n = old(self).buf@.len() as int;
                let d = old(self).window.row_high - old(self).cursor.row;
                let r1 = min(old(self).window.row_high + old(self).window.spec_height(), n - 1);
                &&& final(self).window.cur_cursor == Cursor {
                    row: r1 as usize,
                    col: old(self).cursor.col,
                }
                &&& final(self).cursor == Cursor {
                    row: (if r1 >= d {
                        r1 - d
                    } else {
                        0
                    }) as usize,
                    col: old(self).cursor.col,
                }
            }),
            final(self).window.spec_height() == old(self).window.spec_height(),
            final(self).window.spec_width() == old(self).window.spec_width(),
            final(self).buf == old(self).buf,
            final(self).search == old(self).search,
            final(self).num_buffer == old(self).num_buffer,
            final(self).state == old(self).state,
            final(self).message_box == old(self).message_box,
    {
        let dist_from_window_bottom = self.window.row_high - self.cursor.row;
        let total = self.window.height() + dist_from_window_bottom;
        let ghost row0 = self.cursor.row;
        let ghost n = self.buf@.len() as int;
        let mut i: usize = 0;
        while i < total
            invariant
                i <= total,
                self.cursor.row == min(row0 + i, n - 1),
                self.cursor.col == old(self).cursor.col,
                n == self.buf@.len(),
                n >= 1,
                row0 < n,
                self.buf == old(self).buf,
                self.window == old(self).window,
                self.search == old(self).search,
                self.num_buffer == old(self).num_buffer,
                self.state == old(self).state,
                self.message_box == old(self).message_box,
            decreases total - i,
        {
            self.cursor_down();
            i = i + 1;
        }
        proof {
            assert(self.cursor.col < self.buf@[row0 as int]@.len());
        }
        self.window.adjust(self.cursor);
        let ghost r1 = self.cursor.row;
        let ghost w1 = self.window;
        assert(self.wf());
        let mut j: usize = 0;
        while j < dist_from_window_bottom
            invariant
                self.window == w1,
                self.wf(),
                j <= dist_from_window_bottom,
                self.cursor.row == (if r1 >= j {
                    r1 - j
                } else {
                    0
                }),
                self.cursor.col == old(self).cursor.col,
                self.buf == old(self).buf,
                self.window.cur_cursor == (Cursor { row: r1, col: old(self).cursor.col }),
                self.search == old(self).search,
                self.num_buffer == old(self).num_buffer,
                self.state == old(self).state,
                self.message_box == old(self).message_box,
            decreases dist_from_window_bottom - j,
        {
            self.cursor_up();
            j = j + 1;
        }
    }

    /// Moves up by a page: the cursor goes the window's height further up than
    /// the window's first line, the window follows it, and the cursor comes back
    /// down by its former distance to that first line.
    pub fn jump_page_backward(&mut self)
        requires
            old(self).wf(),
            old(self).cursor_ok(),
            old(self).window.contains(old(self).cursor),
        ensures
            final(self).wf(),
            ({
                let n = old(self).buf@.len() as int;
                let d = old(self).cursor.row - old(self).window.row_low;
                let t = old(self).window.spec_height() + d;
                let r1 = if old(self).cursor.row >= t {
                    old(self).cursor.row - t
                } else {
                    0
                };
                &&& final(self).window.cur_cursor == Cursor {
                    row: r1 as usize,
                    col: old(self).cursor.col,
                }
                &&& final(self).cursor == Cursor {
                    row: min(r1 + d, n - 1) as usize,
                    col: old(self).cursor.col,
                }
            }),
            final(self).window.spec_height() == old(self).window.spec_height(),
            final(self).window.spec_width() == old(self).window.spec_width(),
            final(self).buf == old(self).buf,
            final(self).search == old(self).search,
            final(self).num_buffer == old(self).num_buffer,
            final(self).state == old(self).state,
            final(self).message_box == old(self).message_box,
    {
        let dist_from_window_top = self.cursor.row - self.window.row_low;
        let total = self.window.height() + dist_from_window_top;
        let ghost row0 = self.cursor.row;
        let ghost n = self.buf@.len() as int;
        let mut i: usize = 0;
        while i < total
            invariant
                i <= total,
                self.cursor.row == (if row0 >= i {
                    row0 - i
                } else {
                    0
                }),
                self.cursor.col == old(self).cursor.col,
                n == self.buf@.len(),
                row0 < n,
                self.buf == old(self).buf,
                self.window == old(self).window,
                self.search == old(self).search,
                self.num_buffer == old(self).num_buffer,
                self.state == old(self).state,
                self.message_box == old(self).message_box,
            decreases total - i,
        {
            self.cursor_up();
            i = i + 1;
        }
        self.window.adjust(self.cursor);
        let ghost r1 = self.cursor.row;
        let ghost w1 = self.window;
        assert(self.wf());
        let mut j: usize = 0;
        while j < dist_from_window_top
            invariant
                self.window == w1,
                self.wf(),
                j <= dist_from_window_top,
                self.cursor.row == min(r1 + j, n - 1),
                r1 < n,
                n == self.buf@.len(),
                self.cursor.col == old(self).cursor.col,
                self.buf == old(self).buf,
                self.window.cur_cursor == (Cursor { row: r1, col: old(self).cursor.col }),
                self.search == old(self).search,
                self.num_buffer == old(self).num_buffer,
                self.state == old(self).state,
                self.message_box == old(self).message_box,
            decreases dist_from_window_top - j,
        {
            self.cursor_down();
            j = j + 1;
        }
    }

    /// Starts a line-number jump with the typed digit.
    pub fn enter_jump_mode(&mut self, k: Key)
        requires
            k is Char,
        ensures
            final(self).num_buffer@ == seq![k->Char_0],
            final(self).cursor == old(self).cursor,
            final(self).buf == old(self).buf,
            final(self).window == old(self).window,
            final(self).search == old(self).search,
            final(self).state == old(self).state,
            final(self).message_box == old(self).message_box,
    {
        self.num_buffer.clear();
        match k {
            Key::Char(c) => self.num_buffer.push(c),
            _ => {},
        }
    }

    /// Adds a typed digit to the line number.
    pub fn acc_jump_num(&mut self, k: Key)
        requires
            k is Char,
        ensures
            final(self).num_buffer@ == old(self).num_buffer@.push(k->Char_0),
            final(self).cursor == old(self).cursor,
            final(self).buf == old(self).buf,
            final(self).window == old(self).window,
            final(self).search == old(self).search,
            final(self).state == old(self).state,
            final(self).message_box == old(self).message_box,
    {
        match k {
            Key::Char(c) => self.num_buffer.push(c),
            _ => {},
        }
    }

    /// Goes to the head of the line whose number was typed.
    pub fn jump(&mut self)
        requires
            old(self).jump_ready(),
        ensures
            final(self).cursor == (Cursor {
                row: (digits_value(old(self).num_buffer@) - 1) as usize,
                col: 0,
            }),
            final(self).buf == old(self).buf,
            final(self).num_buffer == old(self).num_buffer,
            final(self).window == old(self).window,
            final(self).search == old(self).search,
            final(self).state == old(self).state,
            final(self).message_box == old(self).message_box,
    {
        let mut n: usize = 0;
        let mut i: usize = 0;
        while i < self.num_buffer.len()
            invariant
                i <= self.num_buffer@.len(),
                n == digits_value(self.num_buffer@.take(i as int)),
                forall|j: int| 0 <= j < self.num_buffer@.len() ==> is_digit(#[trigger] self.num_buffer@[j]),
                digits_value(self.num_buffer@) <= usize::MAX,
            decreases self.num_buffer.len() - i,
        {
            proof {
                lemma_digits_prefix_le(self.num_buffer@, i + 1);
                assert(self.num_buffer@.take(i + 1).drop_last() == self.num_buffer@.take(i as int));
            }
            let d = (self.num_buffer[i] as u32 - '0' as u32) as usize;
            n = n * 10 + d;
            i = i + 1;
        }
        proof {
            assert(self.num_buffer@.take(i as int) == self.num_buffer@);
        }
        let row = n - 1;
        self.cursor.row = row;
        self.cursor.col = 0;
    }

    pub fn cancel_jump(&mut self)
        ensures
            final(self).num_buffer@.len() == 0,
            final(self).cursor == old(self).cursor,
            final(self).buf == old(self).buf,
            final(self).window == old(self).window,
            final(self).search == old(self).search,
            final(self).state == old(self).state,
            final(self).message_box == old(self).message_box,
    {
        self.num_buffer.clear();
    }

    /// Goes to the head of the last line.
    pub fn jump_last(&mut self)
        requires
            old(self).buf@.len() >= 1,
        ensures
            final(self).cursor == (Cursor { row: (old(self).buf@.len() - 1) as usize, col: 0 }),
            final(self).buf == old(self).buf,
            final(self).num_buffer == old(self).num_buffer,
            final(self).window == old(self).window,
            final(self).search == old(self).search,
            final(self).state == old(self).state,
            final(self).message_box == old(self).message_box,
    {
        self.cursor.row = self.buf.len() - 1;
        self.cursor.col = 0;
    }
}

impl ReadBuffer {
    /// Starts typing a search word: the word is emptied and highlights shown.
    pub fn enter_search_mode(&mut self)
        ensures
            final(self).search.cur_word@.len() == 0,
            final(self).search.show,
            final(self).search.cache == old(self).search.cache,
            final(self).message_box.buf@.len() == 0,
            final(self).cursor == old(self).cursor,
            final(self).buf == old(self).buf,
            final(self).window == old(self).window,
            final(self).num_buffer == old(self).num_buffer,
            final(self).state == old(self).state,
    {
        self.search.clear_search_word(&mut self.message_box);
        self.search.show_search();
    }

    /// A key typed into the search word: backspace drops its last character,
    /// a character is appended, other keys are ignored.
    pub fn search_mode_input(&mut self, k: Key)
        ensures
            final(self).search.cur_word@ == (match k {
                Key::Backspace => if old(self).search.cur_word@.len() > 0 {
                    old(self).search.cur_word@.drop_last()
                } else {
                    old(self).search.cur_word@
                },
                Key::Char(c) => old(self).search.cur_word@.push(c),
                _ => old(self).search.cur_word@,
            }),
            (k is Backspace || k is Char) ==> final(self).message_box.buf@ == final(self).search.cur_word@,
            !(k is Backspace || k is Char) ==> final(self).message_box == old(self).message_box,
            final(self).search.cache == old(self).search.cache,
            final(self).search.show == old(self).search.show,
            final(self).cursor == old(self).cursor,
            final(self).buf == old(self).buf,
            final(self).window == old(self).window,
            final(self).num_buffer == old(self).num_buffer,
            final(self).state == old(self).state,
    {
        match k {
            Key::Backspace => self.search.pop_search_word(&mut self.message_box),
            Key::Char(c) => self.search.push_search_word(c, &mut self.message_box),
            _ => {},
        }
    }

    /// Ends typing the search word by jumping to its next occurrence.
    pub fn leave_search_mode(&mut self)
        requires
            old(self).wf(),
            old(self).cursor.row < old(self).buf@.len(),
        ensures
            final(self).wf(),
            final(self).search.show,
            final(self).search.cur_word == old(self).search.cur_word,
            exists|r: Option<Cursor>|
                next_result(old(self).search, old(self).cursor, old(self).lines(), r)
                    && final(self).cursor == (match r {
                    Some(c) => c,
                    None => old(self).cursor,
                }),
            final(self).buf == old(self).buf,
            final(self).window == old(self).window,
            final(self).num_buffer == old(self).num_buffer,
            final(self).state == old(self).state,
            final(self).message_box == old(self).message_box,
    {
        self.search_jump_forward()
    }

    /// Abandons the search: the word is emptied and highlights hidden.
    pub fn cancel_search_mode(&mut self)
        ensures
            final(self).search.cur_word@.len() == 0,
            !final(self).search.show,
            final(self).search.cache == old(self).search.cache,
            final(self).message_box.buf@.len() == 0,
            final(self).cursor == old(self).cursor,
            final(self).buf == old(self).buf,
            final(self).window == old(self).window,
            final(self).num_buffer == old(self).num_buffer,
            final(self).state == old(self).state,
    {
        self.search.clear_search_word(&mut self.message_box);
        self.search.hide_search();
    }

    /// The head of the word at column `col` of row `row`.
    fn word_start_cursor(&self, row: usize, col: usize) -> (r: Cursor)
        requires
            row < self.buf@.len(),
            col < self.buf@[row as int]@.len(),
            spec_is_word_char(self.buf@[row as int]@[col as int]),
        ensures
            r == (Cursor { row, col: word_lo(self.buf@[row as int]@, col as int) as usize }),
    {
        proof {
            lemma_word_lo_bounds(self.buf@[row as int]@, col as int);
        }
        let r = self.line(row).word_range(col).unwrap();
        Cursor { row, col: r.start }
    }

    /// Moves to the head of the next word: on this line after the current word,
    /// else the first word of the first line, in forward order from the next
    /// line round to this one, that has one. Stays put in a buffer with no word.
    pub fn jump_word_forward(&mut self)
        requires
            old(self).cursor_ok(),
        ensures
            word_jump_forward(old(self).lines(), old(self).cursor, final(self).cursor),
            final(self).buf == old(self).buf,
            final(self).window == old(self).window,
            final(self).search == old(self).search,
            final(self).num_buffer == old(self).num_buffer,
            final(self).state == old(self).state,
            final(self).message_box == old(self).message_box,
    {
        let row = self.cursor.row;
        let ghost ls = self.lines();
        assert(ls[row as int] == self.buf@[row as int]@);
        let f = self.line(row).find_next_word(Some(self.cursor.col));
        match f {
            Some(col) => {
                self.cursor = self.word_start_cursor(row, col);
                return ;
            },
            None => {},
        }
        let n = self.buf.len();
        let mut q: usize = 0;
        while q < n
            invariant
                q <= n,
                n == self.buf@.len(),
                row < n,
                ls == self.lines(),
                self.cursor == old(self).cursor,
                row == self.cursor.row,
                first_word_from(ls[row as int], next_word_from(ls[row as int], Some(self.cursor.col))) is None,
                forall|p: int|
                    0 <= p < q ==> first_word_from(
                        #[trigger] ls[forward_row(row as int, n as int, p)],
                        0,
                    ) is None,
                self.buf == old(self).buf,
                self.window == old(self).window,
                self.search == old(self).search,
                self.num_buffer == old(self).num_buffer,
                self.state == old(self).state,
                self.message_box == old(self).message_box,
            decreases n - q,
        {
            let r = if q < n - row - 1 {
                row + 1 + q
            } else {
                q - (n - row - 1)
            };
            assert(r == forward_row(row as int, n as int, q as int));
            assert(ls[r as int] == self.buf@[r as int]@);
            match self.line(r).find_next_word(None) {
                Some(col) => {
                    self.cursor = self.word_start_cursor(r, col);
                    return ;
                },
                None => {},
            }
            q = q + 1;
        }
    }

    /// Moves to the head of the previous word: on this line before the current
    /// word, else the last word of the first line, in backward order from the
    /// previous line round to this one, that has one. Stays put in a buffer
    /// with no word.
    pub fn jump_word_backward(&mut self)
        requires
            old(self).cursor_ok(),
        ensures
            word_jump_backward(old(self).lines(), old(self).cursor, final(self).cursor),
            final(self).buf == old(self).buf,
            final(self).window == old(self).window,
            final(self).search == old(self).search,
            final(self).num_buffer == old(self).num_buffer,
            final(self).state == old(self).state,
            final(self).message_box == old(self).message_box,
    {
        let row = self.cursor.row;
        let ghost ls = self.lines();
        assert(ls[row as int] == self.buf@[row as int]@);
        let f = self.line(row).find_prev_word(Some(self.cursor.col));
        match f {
            Some(col) => {
                self.cursor = self.word_start_cursor(row, col);
                return ;
            },
            None => {},
        }
        let n = self.buf.len();
        let mut q: usize = 0;
        while q < n
            invariant
                q <= n,
                n == self.buf@.len(),
                row < n,
                ls == self.lines(),
                self.cursor == old(self).cursor,
                row == self.cursor.row,
                last_word_before(ls[row as int], prev_word_until(ls[row as int], Some(self.cursor.col))) is None,
                forall|p: int|
                    0 <= p < q ==> last_word_before(
                        #[trigger] ls[backward_row(row as int, n as int, p)],
                        ls[backward_row(row as int, n as int, p)].len() as int,
                    ) is None,
                self.buf == old(self).buf,
                self.window == old(self).window,
                self.search == old(self).search,
                self.num_buffer == old(self).num_buffer,
                self.state == old(self).state,
                self.message_box == old(self).message_box,
            decreases n - q,
        {
            let r = if q < row {
                row - 1 - q
            } else {
                n - 1 - (q - row)
            };
            assert(r == backward_row(row as int, n as int, q as int));
            assert(ls[r as int] == self.buf@[r as int]@);
            match self.line(r).find_prev_word(None) {
                Some(col) => {
                    self.cursor = self.word_start_cursor(r, col);
                    return ;
                },
                None => {},
            }
            q = q + 1;
        }
    }

    /// Shows the search highlights and jumps to the next occurrence.
    pub fn search_jump_forward(&mut self)
        requires
            old(self).wf(),
            old(self).cursor.row < old(self).buf@.len(),
        ensures
            final(self).wf(),
            final(self).search.show,
            final(self).search.cur_word == old(self).search.cur_word,
            exists|r: Option<Cursor>|
                next_result(old(self).search, old(self).cursor, old(self).lines(), r)
                    && final(self).cursor == (match r {
                    Some(c) => c,
                    None => old(self).cursor,
                }),
            final(self).buf == old(self).buf,
            final(self).window == old(self).window,
            final(self).num_buffer == old(self).num_buffer,
            final(self).state == old(self).state,
            final(self).message_box == old(self).message_box,
    {
        self.search.show_search();
        let next = self.search.next(self.cursor, self.buf.as_slice());
        assert(next_result(old(self).search, old(self).cursor, old(self).lines(), next));
        match next {
            Some(x) => {
                self.cursor = x;
            },
            None => {},
        }
    }

    /// Shows the search highlights and jumps to the previous occurrence.
    pub fn search_jump_backward(&mut self)
        requires
            old(self).wf(),
            old(self).cursor.row < old(self).buf@.len(),
        ensures
            final(self).wf(),
            final(self).search.show,
            final(self).search.cur_word == old(self).search.cur_word,
            exists|r: Option<Cursor>|
                prev_result(old(self).search, old(self).cursor, old(self).lines(), r)
                    && final(self).cursor == (match r {
                    Some(c) => c,
                    None => old(self).cursor,
                }),
            final(self).buf == old(self).buf,
            final(self).window == old(self).window,
            final(self).num_buffer == old(self).num_buffer,
            final(self).state == old(self).state,
            final(self).message_box == old(self).message_box,
    {
        self.search.show_search();
        let prev = self.search.prev(self.cursor, self.buf.as_slice());
        assert(prev_result(old(self).search, old(self).cursor, old(self).lines(), prev));
        match prev {
            Some(x) => {
                self.cursor = x;
            },
            None => {},
        }
    }

    /// Gives the window the size `w` x `h` and brings the cursor into it.
    pub fn adjust_window(&mut self, w: usize, h: usize)
        requires
            old(self).wf(),
            old(self).cursor_ok(),
            1 <= w <= max_size(),
            1 <= h <= max_size(),
        ensures
            final(self).wf(),
            final(self).window.contains(old(self).cursor),
            final(self).window.cur_cursor == old(self).cursor,
            final(self).window.spec_width() == w,
            final(self).window.spec_height() == h,
            final(self).cursor == old(self).cursor,
            final(self).buf == old(self).buf,
            final(self).search == old(self).search,
            final(self).num_buffer == old(self).num_buffer,
            final(self).state == old(self).state,
            final(self).message_box == old(self).message_box,
    {
        assert(self.lines()[self.cursor.row as int] == self.buf@[self.cursor.row as int]@);
        assert(self.lines()[self.cursor.row as int].len() <= max_size());
        self.window.adjust_window(self.cursor, w, h);
    }

    /// The screen area of the buffer that the window shows.
    pub fn current_window(&self) -> (r: Area)
        requires
            self.wf(),
        ensures
            r == self.window.area_spec(),
    {
        self.window.area()
    }

    pub fn cache_insert_new_line(&mut self, row: usize)
        requires
            row <= old(self).search.cache@.len(),
        ensures
            final(self).search.cache@.len() == old(self).search.cache@.len() + 1,
            forall|i: int| 0 <= i < row ==> final(self).search.cache@[i] == old(self).search.cache@[i],
            final(self).search.cache@[row as int].search_word@.len() == 0,
            final(self).search.cache@[row as int].results@.len() == 0,
            forall|i: int|
                row < i < final(self).search.cache@.len() ==> #[trigger] final(self).search.cache@[i]
                    == old(self).search.cache@[i - 1],
            final(self).search.cur_word == old(self).search.cur_word,
            final(self).search.show == old(self).search.show,
            final(self).cursor == old(self).cursor,
            final(self).buf == old(self).buf,
            final(self).window == old(self).window,
            final(self).num_buffer == old(self).num_buffer,
            final(self).state == old(self).state,
            final(self).message_box == old(self).message_box,
    {
        self.search.cache_insert_new_line(row);
    }

    pub fn cache_remove_line(&mut self, row: usize)
        requires
            row < old(self).search.cache@.len(),
        ensures
            final(self).search.cache@ == old(self).search.cache@.remove(row as int),
            final(self).search.cur_word == old(self).search.cur_word,
            final(self).search.show == old(self).search.show,
            final(self).cursor == old(self).cursor,
            final(self).buf == old(self).buf,
            final(self).window == old(self).window,
            final(self).num_buffer == old(self).num_buffer,
            final(self).state == old(self).state,
            final(self).message_box == old(self).message_box,
    {
        self.search.cache_remove_line(row);
    }

    /// Brings the search caches of the lines in the window up to the word.
    pub fn update_cache(&mut self)
        requires
            old(self).wf(),
        ensures
            final(self).wf(),
            forall|i: int|
                old(self).window.row_low <= i < min(old(self).window.row_high + 1, old(self).buf@.len() as int)
                    ==> (#[trigger] final(self).search.cache@[i]).search_word@
                    == old(self).search.cur_word@,
            forall|i: int|
                old(self).window.row_low <= i < min(old(self).window.row_high + 1, old(self).buf@.len() as int)
                    ==> if old(self).search.cur_word@.len() > 0 {
                    all_hits(old(self).lines()[i], old(self).search.cur_word@, (#[trigger] final(self).search.cache@[i]).spec_result())
                } else {
                    final(self).search.cache@[i].spec_result().len() == 0
                },
            forall|i: int|
                0 <= i < old(self).buf@.len() && !(old(self).window.row_low <= i < min(old(self).window.row_high + 1, old(self).buf@.len() as int))
                    ==> #[trigger] final(self).search.cache@[i] == old(self).search.cache@[i],
            final(self).search.cur_word == old(self).search.cur_word,
            final(self).search.show == old(self).search.show,
            final(self).cursor == old(self).cursor,
            final(self).buf == old(self).buf,
            final(self).window == old(self).window,
            final(self).num_buffer == old(self).num_buffer,
            final(self).state == old(self).state,
            final(self).message_box == old(self).message_box,
    {
        let range = self.lineno_range();
        self.search.update_cache(range, self.buf.as_slice());
    }

    /// The rows that the window shows: from its first row to its last one or
    /// the buffer's end.
    pub fn lineno_range(&self) -> (r: core::ops::Range<usize>)
        requires
            self.wf(),
        ensures
            r.start == self.window.row_low,
            r.end == min(self.window.row_high + 1, self.buf@.len() as int),
    {
        let hi = if self.window.row_high + 1 < self.buf.len() {
            self.window.row_high + 1
        } else {
            self.buf.len()
        };
        self.window.row_low..hi
    }

    /// Row `row` of the buffer as a line.
    pub fn line(&self, row: usize) -> (r: Line<'_>)
        requires
            row < self.buf@.len(),
        ensures
            r@ == self.buf@[row as int]@,
    {
        Line::new(self.buf[row].as_slice())
    }
}

impl ReadBuffer {
    /// What `eff_cursor_up` does: the value `s1` and the state `r` it leaves from `s0` with the key `_k`.
    pub open spec fn eff_cursor_up_post(s0: ReadBuffer, s1: ReadBuffer, _k: Key, r: String) -> bool {
        &&& r@ == INIT@
        &&& s1.cursor.row == (if s0.cursor.row > 0 { s0.cursor.row - 1 } else { 0 })
        &&& s1.cursor.col == s0.cursor.col
        &&& same_but_cursor(s0, s1)
    }

    /// The key's effect in the controller: `cursor_up`, then the init state.
    pub fn eff_cursor_up(&mut self, _k: Key) -> (r: String)
        ensures
            Self::eff_cursor_up_post(*old(self), *final(self), _k, r),
    {
        self.cursor_up();
        INIT.to_owned()
    }

    /// What `eff_cursor_down` does: the value `s1` and the state `r` it leaves from `s0` with the key `_k`.
    pub open spec fn eff_cursor_down_post(s0: ReadBuffer, s1: ReadBuffer, _k: Key, r: String) -> bool {
        &&& r@ == INIT@
        &&& s1.cursor.row == (if s0.cursor.row < s0.buf@.len() - 1 { s0.cursor.row + 1 } else { s0.cursor.row as int })
        &&& s1.cursor.col == s0.cursor.col
        &&& same_but_cursor(s0, s1)
    }

    /// The key's effect in the controller: `cursor_down`, then the init state.
    pub fn eff_cursor_down(&mut self, _k: Key) -> (r: String)
        requires
            old(self).buf@.len() >= 1,
        ensures
            Self::eff_cursor_down_post(*old(self), *final(self), _k, r),
    {
        self.cursor_down();
        INIT.to_owned()
    }

    /// What `eff_cursor_left` does: the value `s1` and the state `r` it leaves from `s0` with the key `_k`.
    pub open spec fn eff_cursor_left_post(s0: ReadBuffer, s1: ReadBuffer, _k: Key, r: String) -> bool {
        &&& r@ == INIT@
        &&& s1.cursor.col == (if s0.cursor.col > 0 { s0.cursor.col - 1 } else { 0 })
        &&& s1.cursor.row == s0.cursor.row
        &&& same_but_cursor(s0, s1)
    }

    /// The key's effect in the controller: `cursor_left`, then the init state.
    pub fn eff_cursor_left(&mut self, _k: Key) -> (r: String)
        ensures
            Self::eff_cursor_left_post(*old(self), *final(self), _k, r),
    {
        self.cursor_left();
        INIT.to_owned()
    }

    /// What `eff_cursor_right` does: the value `s1` and the state `r` it leaves from `s0` with the key `_k`.
    pub open spec fn eff_cursor_right_post(s0: ReadBuffer, s1: ReadBuffer, _k: Key, r: String) -> bool {
        &&& r@ == INIT@
        &&& s1.cursor.col == (if s0.cursor.col < s0.buf@[s0.cursor.row as int]@.len() - 1 { s0.cursor.col + 1 } else { s0.cursor.col as int })
        &&& s1.cursor.row == s0.cursor.row
        &&& same_but_cursor(s0, s1)
    }

    /// The key's effect in the controller: `cursor_right`, then the init state.
    pub fn eff_cursor_right(&mut self, _k: Key) -> (r: String)
        requires
            old(self).cursor_ok(),
        ensures
            Self::eff_cursor_right_post(*old(self), *final(self), _k, r),
    {
        self.cursor_right();
        INIT.to_owned()
    }

    /// What `eff_jump_line_head` does: the value `s1` and the state `r` it leaves from `s0` with the key `_k`.
    pub open spec fn eff_jump_line_head_post(s0: ReadBuffer, s1: ReadBuffer, _k: Key, r: String) -> bool {
        &&& r@ == INIT@
        &&& s1.cursor == (Cursor { row: s0.cursor.row, col: 0 })
        &&& same_but_cursor(s0, s1)
    }

    /// The key's effect in the controller: `jump_line_head`, then the init state.
    pub fn eff_jump_line_head(&mut self, _k: Key) -> (r: String)
        ensures
            Self::eff_jump_line_head_post(*old(self), *final(self), _k, r),
    {
        self.jump_line_head();
        INIT.to_owned()
    }

    /// What `eff_jump_line_last` does: the value `s1` and the state `r` it leaves from `s0` with the key `_k`.
    pub open spec fn eff_jump_line_last_post(s0: ReadBuffer, s1: ReadBuffer, _k: Key, r: String) -> bool {
        &&& r@ == INIT@
        &&& s1.cursor == (Cursor { row: s0.cursor.row, col: (s0.buf@[s0.cursor.row as int]@.len() - 1) as usize })
        &&& same_but_cursor(s0, s1)
    }

    /// The key's effect in the controller: `jump_line_last`, then the init state.
    pub fn eff_jump_line_last(&mut self, _k: Key) -> (r: String)
        requires
            old(self).cursor_ok(),
        ensures
            Self::eff_jump_line_last_post(*old(self), *final(self), _k, r),
    {
        self.jump_line_last();
        INIT.to_owned()
    }

    /// What `eff_jump_page_forward` does: the value `s1` and the state `r` it leaves from `s0` with the key `_k`.
    pub open spec fn eff_jump_page_forward_post(s0: ReadBuffer, s1: ReadBuffer, _k: Key, r: String) -> bool {
        &&& r@ == INIT@
        &&& s1.wf()
        &&& s1.buf == s0.buf
        &&& s1.search == s0.search
        &&& s1.num_buffer == s0.num_buffer
        &&& s1.message_box == s0.message_box
        &&& ({
            let n = s0.buf@.len() as int;
            let d = s0.window.row_high - s0.cursor.row;
            let r1 = min(s0.window.row_high + s0.window.spec_height(), n - 1);
            s1.cursor == Cursor { row: (if r1 >= d { r1 - d } else { 0 }) as usize, col: s0.cursor.col }
        })
    }

    /// The key's effect in the controller: `jump_page_forward`, then the init state.
    pub fn eff_jump_page_forward(&mut self, _k: Key) -> (r: String)
        requires
            old(self).wf(),
            old(self).cursor_ok(),
            old(self).window.contains(old(self).cursor),
        ensures
            Self::eff_jump_page_forward_post(*old(self), *final(self), _k, r),
    {
        self.jump_page_forward();
        INIT.to_owned()
    }

    /// What `eff_jump_page_backward` does: the value `s1` and the state `r` it leaves from `s0` with the key `_k`.
    pub open spec fn eff_jump_page_backward_post(s0: ReadBuffer, s1: ReadBuffer, _k: Key, r: String) -> bool {
        &&& r@ == INIT@
        &&& s1.wf()
        &&& s1.buf == s0.buf
        &&& s1.search == s0.search
        &&& s1.num_buffer == s0.num_buffer
        &&& s1.message_box == s0.message_box
        &&& ({
            let n = s0.buf@.len() as int;
            let d = s0.cursor.row - s0.window.row_low;
            let t = s0.window.spec_height() + d;
            let r1 = if s0.cursor.row >= t { s0.cursor.row - t } else { 0 };
            s1.cursor == Cursor { row: min(r1 + d, n - 1) as usize, col: s0.cursor.col }
        })
    }

    /// The key's effect in the controller: `jump_page_backward`, then the init state.
    pub fn eff_jump_page_backward(&mut self, _k: Key) -> (r: String)
        requires
            old(self).wf(),
            old(self).cursor_ok(),
            old(self).window.contains(old(self).cursor),
        ensures
            Self::eff_jump_page_backward_post(*old(self), *final(self), _k, r),
    {
        self.jump_page_backward();
        INIT.to_owned()
    }

    /// What `eff_enter_jump_mode` does: the value `s1` and the state `r` it leaves from `s0` with the key `k`.
    pub open spec fn eff_enter_jump_mode_post(s0: ReadBuffer, s1: ReadBuffer, k: Key, r: String) -> bool {
        &&& r@ == JUMP@
        &&& s1.num_buffer@ == seq![k->Char_0]
        &&& s1.cursor == s0.cursor
        &&& s1.buf == s0.buf
        &&& s1.window == s0.window
        &&& s1.search == s0.search
        &&& s1.message_box == s0.message_box
    }

    /// The key's effect in the controller: `enter_jump_mode`, then the jump state.
    pub fn eff_enter_jump_mode(&mut self, k: Key) -> (r: String)
        requires
            k is Char,
        ensures
            Self::eff_enter_jump_mode_post(*old(self), *final(self), k, r),
    {
        self.enter_jump_mode(k);
        JUMP.to_owned()
    }

    /// What `eff_acc_jump_num` does: the value `s1` and the state `r` it leaves from `s0` with the key `k`.
    pub open spec fn eff_acc_jump_num_post(s0: ReadBuffer, s1: ReadBuffer, k: Key, r: String) -> bool {
        &&& r@ == JUMP@
        &&& s1.num_buffer@ == s0.num_buffer@.push(k->Char_0)
        &&& s1.cursor == s0.cursor
        &&& s1.buf == s0.buf
        &&& s1.window == s0.window
        &&& s1.search == s0.search
        &&& s1.message_box == s0.message_box
    }

    /// The key's effect in the controller: `acc_jump_num`, then the jump state.
    pub fn eff_acc_jump_num(&mut self, k: Key) -> (r: String)
        requires
            k is Char,
        ensures
            Self::eff_acc_jump_num_post(*old(self), *final(self), k, r),
    {
        self.acc_jump_num(k);
        JUMP.to_owned()
    }

    /// What `eff_jump` does: the value `s1` and the state `r` it leaves from `s0` with the key `_k`.
    pub open spec fn eff_jump_post(s0: ReadBuffer, s1: ReadBuffer, _k: Key, r: String) -> bool {
        &&& r@ == INIT@
        &&& s1.cursor == (Cursor { row: (digits_value(s0.num_buffer@) - 1) as usize, col: 0 })
        &&& same_but_cursor(s0, s1)
    }

    /// The key's effect in the controller: `jump`, then the init state.
    pub fn eff_jump(&mut self, _k: Key) -> (r: String)
        requires
            old(self).jump_ready(),
        ensures
            Self::eff_jump_post(*old(self), *final(self), _k, r),
    {
        self.jump();
        INIT.to_owned()
    }

    /// What `eff_cancel_jump` does: the value `s1` and the state `r` it leaves from `s0` with the key `_k`.
    pub open spec fn eff_cancel_jump_post(s0: ReadBuffer, s1: ReadBuffer, _k: Key, r: String) -> bool {
        &&& r@ == INIT@
        &&& s1.num_buffer@.len() == 0
        &&& s1.cursor == s0.cursor
        &&& s1.buf == s0.buf
        &&& s1.window == s0.window
        &&& s1.search == s0.search
        &&& s1.message_box == s0.message_box
    }

    /// The key's effect in the controller: `cancel_jump`, then the init state.
    pub fn eff_cancel_jump(&mut self, _k: Key) -> (r: String)
        ensures
            Self::eff_cancel_jump_post(*old(self), *final(self), _k, r),
    {
        self.cancel_jump();
        INIT.to_owned()
    }

    /// What `eff_jump_last` does: the value `s1` and the state `r` it leaves from `s0` with the key `_k`.
    pub open spec fn eff_jump_last_post(s0: ReadBuffer, s1: ReadBuffer, _k: Key, r: String) -> bool {
        &&& r@ == INIT@
        &&& s1.cursor == (Cursor { row: (s0.buf@.len() - 1) as usize, col: 0 })
        &&& same_but_cursor(s0, s1)
    }

    /// The key's effect in the controller: `jump_last`, then the init state.
    pub fn eff_jump_last(&mut self, _k: Key) -> (r: String)
        requires
            old(self).buf@.len() >= 1,
        ensures
            Self::eff_jump_last_post(*old(self), *final(self), _k, r),
    {
        self.jump_last();
        INIT.to_owned()
    }

    /// What `eff_jump_word_forward` does: the value `s1` and the state `r` it leaves from `s0` with the key `_k`.
    pub open spec fn eff_jump_word_forward_post(s0: ReadBuffer, s1: ReadBuffer, _k: Key, r: String) -> bool {
        &&& r@ == INIT@
        &&& word_jump_forward(s0.lines(), s0.cursor, s1.cursor)
        &&& same_but_cursor(s0, s1)
    }

    /// The key's effect in the controller: `jump_word_forward`, then the init state.
    pub fn eff_jump_word_forward(&mut self, _k: Key) -> (r: String)
        requires
            old(self).cursor_ok(),
        ensures
            Self::eff_jump_word_forward_post(*old(self), *final(self), _k, r),
    {
        self.jump_word_forward();
        INIT.to_owned()
    }

    /// What `eff_jump_word_backward` does: the value `s1` and the state `r` it leaves from `s0` with the key `_k`.
    pub open spec fn eff_jump_word_backward_post(s0: ReadBuffer, s1: ReadBuffer, _k: Key, r: String) -> bool {
        &&& r@ == INIT@
        &&& word_jump_backward(s0.lines(), s0.cursor, s1.cursor)
        &&& same_but_cursor(s0, s1)
    }

    /// The key's effect in the controller: `jump_word_backward`, then the init state.
    pub fn eff_jump_word_backward(&mut self, _k: Key) -> (r: String)
        requires
            old(self).cursor_ok(),
        ensures
            Self::eff_jump_word_backward_post(*old(self), *final(self), _k, r),
    {
        self.jump_word_backward();
        INIT.to_owned()
    }

    /// What `eff_enter_search_mode` does: the value `s1` and the state `r` it leaves from `s0` with the key `_k`.
    pub open spec fn eff_enter_search_mode_post(s0: ReadBuffer, s1: ReadBuffer, _k: Key, r: String) -> bool {
        &&& r@ == SEARCH@
        &&& s1.search.cur_word@.len() == 0
        &&& s1.search.show
        &&& s1.search.cache == s0.search.cache
        &&& s1.message_box.buf@.len() == 0
        &&& s1.cursor == s0.cursor
        &&& s1.buf == s0.buf
        &&& s1.window == s0.window
        &&& s1.num_buffer == s0.num_buffer
    }

    /// The key's effect in the controller: `enter_search_mode`, then the search state.
    pub fn eff_enter_search_mode(&mut self, _k: Key) -> (r: String)
        ensures
            Self::eff_enter_search_mode_post(*old(self), *final(self), _k, r),
    {
        self.enter_search_mode();
        SEARCH.to_owned()
    }

    /// What `eff_search_mode_input` does: the value `s1` and the state `r` it leaves from `s0` with the key `k`.
    pub open spec fn eff_search_mode_input_post(s0: ReadBuffer, s1: ReadBuffer, k: Key, r: String) -> bool {
        &&& r@ == SEARCH@
        &&& s1.search.cur_word@ == (match k {
            Key::Backspace => if s0.search.cur_word@.len() > 0 { s0.search.cur_word@.drop_last() } else { s0.search.cur_word@ },
            Key::Char(c) => s0.search.cur_word@.push(c),
            _ => s0.search.cur_word@,
        })
        &&& (k is Backspace || k is Char) ==> s1.message_box.buf@ == s1.search.cur_word@
        &&& s1.search.cache == s0.search.cache
        &&& s1.search.show == s0.search.show
        &&& s1.cursor == s0.cursor
        &&& s1.buf == s0.buf
        &&& s1.window == s0.window
        &&& s1.num_buffer == s0.num_buffer
    }

    /// The key's effect in the controller: `search_mode_input`, then the search state.
    pub fn eff_search_mode_input(&mut self, k: Key) -> (r: String)
        ensures
            Self::eff_search_mode_input_post(*old(self), *final(self), k, r),
    {
        self.search_mode_input(k);
        SEARCH.to_owned()
    }

    /// What `eff_leave_search_mode` does: the value `s1` and the state `r` it leaves from `s0` with the key `_k`.
    pub open spec fn eff_leave_search_mode_post(s0: ReadBuffer, s1: ReadBuffer, _k: Key, r: String) -> bool {
        &&& r@ == INIT@
        &&& s1.wf()
        &&& s1.search.show
        &&& s1.search.cur_word == s0.search.cur_word
        &&& exists|r: Option<Cursor>| next_result(s0.search, s0.cursor, s0.lines(), r) && s1.cursor == (match r { Some(c) => c, None => s0.cursor })
        &&& s1.buf == s0.buf
        &&& s1.window == s0.window
        &&& s1.num_buffer == s0.num_buffer
        &&& s1.message_box == s0.message_box
    }

    /// The key's effect in the controller: `leave_search_mode`, then the init state.
    pub fn eff_leave_search_mode(&mut self, _k: Key) -> (r: String)
        requires
            old(self).wf(),
            old(self).cursor.row < old(self).buf@.len(),
        ensures
            Self::eff_leave_search_mode_post(*old(self), *final(self), _k, r),
    {
        self.leave_search_mode();
        INIT.to_owned()
    }

    /// What `eff_cancel_search_mode` does: the value `s1` and the state `r` it leaves from `s0` with the key `_k`.
    pub open spec fn eff_cancel_search_mode_post(s0: ReadBuffer, s1: ReadBuffer, _k: Key, r: String) -> bool {
        &&& r@ == INIT@
        &&& s1.search.cur_word@.len() == 0
        &&& !s1.search.show
        &&& s1.search.cache == s0.search.cache
        &&& s1.message_box.buf@.len() == 0
        &&& s1.cursor == s0.cursor
        &&& s1.buf == s0.buf
        &&& s1.window == s0.window
        &&& s1.num_buffer == s0.num_buffer
    }

    /// The key's effect in the controller: `cancel_search_mode`, then the init state.
    pub fn eff_cancel_search_mode(&mut self, _k: Key) -> (r: String)
        ensures
            Self::eff_cancel_search_mode_post(*old(self), *final(self), _k, r),
    {
        self.cancel_search_mode();
        INIT.to_owned()
    }

    /// What `eff_search_jump_forward` does: the value `s1` and the state `r` it leaves from `s0` with the key `_k`.
    pub open spec fn eff_search_jump_forward_post(s0: ReadBuffer, s1: ReadBuffer, _k: Key, r: String) -> bool {
        &&& r@ == INIT@
        &&& s1.wf()
        &&& s1.search.show
        &&& s1.search.cur_word == s0.search.cur_word
        &&& exists|r: Option<Cursor>| next_result(s0.search, s0.cursor, s0.lines(), r) && s1.cursor == (match r { Some(c) => c, None => s0.cursor })
        &&& s1.buf == s0.buf
        &&& s1.window == s0.window
        &&& s1.num_buffer == s0.num_buffer
        &&& s1.message_box == s0.message_box
    }

    /// The key's effect in the controller: `search_jump_forward`, then the init state.
    pub fn eff_search_jump_forward(&mut self, _k: Key) -> (r: String)
        requires
            old(self).wf(),
            old(self).cursor.row < old(self).buf@.len(),
        ensures
            Self::eff_search_jump_forward_post(*old(self), *final(self), _k, r),
    {
        self.search_jump_forward();
        INIT.to_owned()
    }

    /// What `eff_search_jump_backward` does: the value `s1` and the state `r` it leaves from `s0` with the key `_k`.
    pub open spec fn eff_search_jump_backward_post(s0: ReadBuffer, s1: ReadBuffer, _k: Key, r: String) -> bool {
        &&& r@ == INIT@
        &&& s1.wf()
        &&& s1.search.show
        &&& s1.search.cur_word == s0.search.cur_word
        &&& exists|r: Option<Cursor>| prev_result(s0.search, s0.cursor, s0.lines(), r) && s1.cursor == (match r { Some(c) => c, None => s0.cursor })
        &&& s1.buf == s0.buf
        &&& s1.window == s0.window
        &&& s1.num_buffer == s0.num_buffer
        &&& s1.message_box == s0.message_box
    }

    /// The key's effect in the controller: `search_jump_backward`, then the init state.
    pub fn eff_search_jump_backward(&mut self, _k: Key) -> (r: String)
        requires
            old(self).wf(),
            old(self).cursor.row < old(self).buf@.len(),
        ensures
            Self::eff_search_jump_backward_post(*old(self), *final(self), _k, r),
    {
        self.search_jump_backward();
        INIT.to_owned()
    }

}

/// The two buffers differ at most in their cursor and mode.
pub open spec fn same_but_cursor(a: ReadBuffer, b: ReadBuffer) -> bool {
    &&& b.buf == a.buf
    &&& b.window == a.window
    &&& b.search == a.search
    &&& b.num_buffer == a.num_buffer
    &&& b.message_box == a.message_box
}

/// The actions that keys trigger on a `ReadBuffer`.
#[derive(Debug, Clone, Copy, PartialEq, Eq, Structural)]
pub enum ReadAction {
    CursorUp,
    CursorDown,
    CursorLeft,
    CursorRight,
    JumpLineHead,
    JumpLineLast,
    JumpPageForward,
    JumpPageBackward,
    EnterJumpMode,
    AccJumpNum,
    Jump,
    CancelJump,
    JumpLast,
    JumpWordForward,
    JumpWordBackward,
    EnterSearchMode,
    SearchModeInput,
    LeaveSearchMode,
    CancelSearchMode,
    SearchJumpForward,
    SearchJumpBackward,
}

/// Action types that hold the actions of a `ReadBuffer`.
pub trait FromReadAction: Sized {
    spec fn spec_from_read(a: ReadAction) -> Self;

    fn from_read(a: ReadAction) -> (r: Self)
        ensures
            r == Self::spec_from_read(a),
    ;
}

impl FromReadAction for ReadAction {
    open spec fn spec_from_read(a: ReadAction) -> Self {
        a
    }

    fn from_read(a: ReadAction) -> (r: Self) {
        a
    }
}

impl ReadBuffer {
    /// What each action needs of the buffer to run without failing.
    pub open spec fn can_run_read(&self, a: ReadAction, k: Key) -> bool {
        &&& self.cursor_ok()
        &&& match a {
            ReadAction::JumpPageForward | ReadAction::JumpPageBackward => self.window.contains(self.cursor),
            ReadAction::EnterJumpMode | ReadAction::AccJumpNum => k is Char,
            ReadAction::Jump => self.jump_ready(),
            _ => true,
        }
    }

    /// Whether the typed line number is ready for a jump.
    pub fn check_jump_ready(&self) -> (r: bool)
        ensures
            r == self.jump_ready(),
    {
        if self.num_buffer.len() == 0 {
            return false;
        }
        let mut i: usize = 0;
        while i < self.num_buffer.len()
            invariant
                i <= self.num_buffer@.len(),
                forall|j: int| 0 <= j < i ==> is_digit(#[trigger] self.num_buffer@[j]),
            decreases self.num_buffer.len() - i,
        {
            let c = self.num_buffer[i];
            if !('0' <= c && c <= '9') {
                return false;
            }
            i = i + 1;
        }
        let mut n: u128 = 0;
        let mut i: usize = 0;
        while i < self.num_buffer.len()
            invariant
                i <= self.num_buffer@.len(),
                n == digits_value(self.num_buffer@.take(i as int)),
                n <= usize::MAX,
                forall|j: int| 0 <= j < self.num_buffer@.len() ==> is_digit(#[trigger] self.num_buffer@[j]),
            decreases self.num_buffer.len() - i,
        {
            let c = self.num_buffer[i];
            proof {
                assert(self.num_buffer@.take(i + 1).drop_last() == self.num_buffer@.take(i as int));
            }
            let d = (c as u32 - '0' as u32) as u128;
            n = n * 10 + d;
            i = i + 1;
            if n > usize::MAX as u128 {
                proof {
                    lemma_digits_prefix_le(self.num_buffer@, i as int);
                }
                return false;
            }
        }
        proof {
            assert(self.num_buffer@.take(i as int) == self.num_buffer@);
        }
        n >= 1
    }

    /// Whether action `a` with key `k` can run now.
    pub fn ready_read(&self, a: ReadAction, k: Key) -> (r: bool)
        requires
            self.wf(),
        ensures
            r == self.can_run_read(a, k),
    {
        if !(self.cursor.row < self.buf.len() && self.cursor.col < self.buf[self.cursor.row].len()) {
            return false;
        }
        match a {
            ReadAction::JumpPageForward | ReadAction::JumpPageBackward => {
                let w = &self.window;
                w.col_low <= self.cursor.col && self.cursor.col <= w.col_high && w.row_low
                    <= self.cursor.row && self.cursor.row <= w.row_high
            },
            ReadAction::EnterJumpMode | ReadAction::AccJumpNum => match k {
                Key::Char(_) => true,
                _ => false,
            },
            ReadAction::Jump => self.check_jump_ready(),
            _ => true,
        }
    }

    /// The effect bound to the action `a`: what its `eff_*` function does
    /// with the key `k`, leaving `s1` from `s0` and the state `r`.
    pub open spec fn read_post(a: ReadAction, s0: ReadBuffer, s1: ReadBuffer, k: Key, r: String) -> bool {
        match a {
            ReadAction::CursorUp => ReadBuffer::eff_cursor_up_post(s0, s1, k, r),
            ReadAction::CursorDown => ReadBuffer::eff_cursor_down_post(s0, s1, k, r),
            ReadAction::CursorLeft => ReadBuffer::eff_cursor_left_post(s0, s1, k, r),
            ReadAction::CursorRight => ReadBuffer::eff_cursor_right_post(s0, s1, k, r),
            ReadAction::JumpLineHead => ReadBuffer::eff_jump_line_head_post(s0, s1, k, r),
            ReadAction::JumpLineLast => ReadBuffer::eff_jump_line_last_post(s0, s1, k, r),
            ReadAction::JumpPageForward => ReadBuffer::eff_jump_page_forward_post(s0, s1, k, r),
            ReadAction::JumpPageBackward => ReadBuffer::eff_jump_page_backward_post(s0, s1, k, r),
            ReadAction::EnterJumpMode => ReadBuffer::eff_enter_jump_mode_post(s0, s1, k, r),
            ReadAction::AccJumpNum => ReadBuffer::eff_acc_jump_num_post(s0, s1, k, r),
            ReadAction::Jump => ReadBuffer::eff_jump_post(s0, s1, k, r),
            ReadAction::CancelJump => ReadBuffer::eff_cancel_jump_post(s0, s1, k, r),
            ReadAction::JumpLast => ReadBuffer::eff_jump_last_post(s0, s1, k, r),
            ReadAction::JumpWordForward => ReadBuffer::eff_jump_word_forward_post(s0, s1, k, r),
            ReadAction::JumpWordBackward => ReadBuffer::eff_jump_word_backward_post(s0, s1, k, r),
            ReadAction::EnterSearchMode => ReadBuffer::eff_enter_search_mode_post(s0, s1, k, r),
            ReadAction::SearchModeInput => ReadBuffer::eff_search_mode_input_post(s0, s1, k, r),
            ReadAction::LeaveSearchMode => ReadBuffer::eff_leave_search_mode_post(s0, s1, k, r),
            ReadAction::CancelSearchMode => ReadBuffer::eff_cancel_search_mode_post(s0, s1, k, r),
            ReadAction::SearchJumpForward => ReadBuffer::eff_search_jump_forward_post(s0, s1, k, r),
            ReadAction::SearchJumpBackward => ReadBuffer::eff_search_jump_backward_post(s0, s1, k, r),
        }
    }

    /// Running `a` with `k` on `s0` leaves `s1` in the state `to`: the effect
    /// bound to `a`, then the state recorded.
    pub open spec fn read_leads_to(s0: ReadBuffer, a: ReadAction, k: Key, s1: ReadBuffer, to: String) -> bool {
        &&& s1.state@ == to@
        &&& s1.buf == s0.buf
        &&& exists|m: ReadBuffer| #[trigger] ReadBuffer::read_post(a, s0, m, k, to) && s1 == (ReadBuffer { state: s1.state, ..m })
    }

    /// Runs action `a` for key `k` and records the state it leads to.
    pub fn run_read(&mut self, a: ReadAction, k: Key) -> (r: String)
        requires
            old(self).wf(),
            old(self).can_run_read(a, k),
        ensures
            final(self).wf(),
            final(self).state@ == r@,
            final(self).buf == old(self).buf,
            ReadBuffer::read_leads_to(*old(self), a, k, *final(self), r),
    {
        let r = match a {
            ReadAction::CursorUp => self.eff_cursor_up(k),
            ReadAction::CursorDown => self.eff_cursor_down(k),
            ReadAction::CursorLeft => self.eff_cursor_left(k),
            ReadAction::CursorRight => self.eff_cursor_right(k),
            ReadAction::JumpLineHead => self.eff_jump_line_head(k),
            ReadAction::JumpLineLast => self.eff_jump_line_last(k),
            ReadAction::JumpPageForward => self.eff_jump_page_forward(k),
            ReadAction::JumpPageBackward => self.eff_jump_page_backward(k),
            ReadAction::EnterJumpMode => self.eff_enter_jump_mode(k),
            ReadAction::AccJumpNum => self.eff_acc_jump_num(k),
            ReadAction::Jump => self.eff_jump(k),
            ReadAction::CancelJump => self.eff_cancel_jump(k),
            ReadAction::JumpLast => self.eff_jump_last(k),
            ReadAction::JumpWordForward => self.eff_jump_word_forward(k),
            ReadAction::JumpWordBackward => self.eff_jump_word_backward(k),
            ReadAction::EnterSearchMode => self.eff_enter_search_mode(k),
            ReadAction::SearchModeInput => self.eff_search_mode_input(k),
            ReadAction::LeaveSearchMode => self.eff_leave_search_mode(k),
            ReadAction::CancelSearchMode => self.eff_cancel_search_mode(k),
            ReadAction::SearchJumpForward => self.eff_search_jump_forward(k),
            ReadAction::SearchJumpBackward => self.eff_search_jump_backward(k),
        };
        let ghost m = *self;
        assert(ReadBuffer::read_post(a, *old(self), m, k, r));
        self.state = r.clone();
        assert(*self == (ReadBuffer { state: self.state, ..m }));
        r
    }
}

impl Effect<ReadAction> for ReadBuffer {
    open spec fn inv(&self) -> bool {
        self.wf()
    }

    open spec fn can_run(&self, a: ReadAction, k: Key) -> bool {
        self.can_run_read(a, k)
    }

    open spec fn leads_to(&self, a: ReadAction, k: Key, after: Self, to: String) -> bool {
        ReadBuffer::read_leads_to(*self, a, k, after, to)
    }

    fn ready(&self, a: ReadAction, k: Key) -> (r: bool) {
        self.ready_read(a, k)
    }

    fn run(&mut self, a: ReadAction, k: Key) -> (r: String) {
        self.run_read(a, k)
    }
}

/// The three modes of a `ReadBuffer` have distinct names.
pub proof fn lemma_modes_distinct()
    ensures
        INIT@ != JUMP@,
        INIT@ != SEARCH@,
        JUMP@ != SEARCH@,
{
    reveal_strlit("Normal");
    reveal_strlit("Jump");
    reveal_strlit("Search");
    assert(INIT@.len() != JUMP@.len());
    assert(SEARCH@.len() != JUMP@.len());
    assert(INIT@[0] != SEARCH@[0]);
}

/// The edges that `add_edges` adds out of state `state`, in order.
pub open spec fn read_edges<A: FromReadAction>(state: Seq<char>) -> Seq<Edge<A>> {
    if state == INIT@ {
        seq![
        Edge { matcher: Key::Char('k'), eff: A::spec_from_read(ReadAction::CursorUp) },
        Edge { matcher: Key::Char('j'), eff: A::spec_from_read(ReadAction::CursorDown) },
        Edge { matcher: Key::Char('h'), eff: A::spec_from_read(ReadAction::CursorLeft) },
        Edge { matcher: Key::Char('l'), eff: A::spec_from_read(ReadAction::CursorRight) },
        Edge { matcher: Key::Char('0'), eff: A::spec_from_read(ReadAction::JumpLineHead) },
        Edge { matcher: Key::Char('$'), eff: A::spec_from_read(ReadAction::JumpLineLast) },
        Edge { matcher: Key::Ctrl('f'), eff: A::spec_from_read(ReadAction::JumpPageForward) },
        Edge { matcher: Key::Ctrl('b'), eff: A::spec_from_read(ReadAction::JumpPageBackward) },
        Edge { matcher: Key::Char('G'), eff: A::spec_from_read(ReadAction::JumpLast) },
        Edge { matcher: Key::Char('n'), eff: A::spec_from_read(ReadAction::SearchJumpForward) },
        Edge { matcher: Key::Char('N'), eff: A::spec_from_read(ReadAction::SearchJumpBackward) },
        Edge { matcher: Key::Char('w'), eff: A::spec_from_read(ReadAction::JumpWordForward) },
        Edge { matcher: Key::Char('b'), eff: A::spec_from_read(ReadAction::JumpWordBackward) },
        Edge { matcher: Key::CharRange('1', '9'), eff: A::spec_from_read(ReadAction::EnterJumpMode) },
        Edge { matcher: Key::Char('/'), eff: A::spec_from_read(ReadAction::EnterSearchMode) },
    ]
    } else if state == JUMP@ {
        seq![
        Edge { matcher: Key::CharRange('0', '9'), eff: A::spec_from_read(ReadAction::AccJumpNum) },
        Edge { matcher: Key::Char('G'), eff: A::spec_from_read(ReadAction::Jump) },
        Edge { matcher: Key::Esc, eff: A::spec_from_read(ReadAction::CancelJump) },
    ]
    } else if state == SEARCH@ {
        seq![
        Edge { matcher: Key::Char('\n'), eff: A::spec_from_read(ReadAction::LeaveSearchMode) },
        Edge { matcher: Key::Esc, eff: A::spec_from_read(ReadAction::CancelSearchMode) },
        Edge { matcher: Key::Otherwise, eff: A::spec_from_read(ReadAction::SearchModeInput) },
    ]
    } else {
        Seq::empty()
    }
}

/// The graph of the key bindings of a `ReadBuffer` alone.
pub open spec fn read_graph<A: FromReadAction>() -> Map<Seq<char>, Seq<Edge<A>>> {
    Map::empty().insert(INIT@, read_edges::<A>(INIT@)).insert(JUMP@, read_edges::<A>(JUMP@)).insert(
        SEARCH@,
        read_edges::<A>(SEARCH@),
    )
}

/// Typing a line number: from the first state a digit from 1 to 9 starts it
/// (0 goes to the line head instead), in the jump state every digit, 0
/// included, is added to it, `G` jumps to it and escape cancels it.
pub proof fn law_jump_keys<A: FromReadAction>(d: char)
    requires
        '0' <= d <= '9',
    ensures
        first_match(read_graph::<A>()[JUMP@], Key::Char(d)) == Some(A::spec_from_read(ReadAction::AccJumpNum)),
        first_match(read_graph::<A>()[JUMP@], Key::Char('G')) == Some(A::spec_from_read(ReadAction::Jump)),
        first_match(read_graph::<A>()[JUMP@], Key::Esc) == Some(A::spec_from_read(ReadAction::CancelJump)),
        d != '0' ==> first_match(read_graph::<A>()[INIT@], Key::Char(d)) == Some(
            A::spec_from_read(ReadAction::EnterJumpMode),
        ),
        first_match(read_graph::<A>()[INIT@], Key::Char('0')) == Some(A::spec_from_read(ReadAction::JumpLineHead)),
{
    lemma_modes_distinct();
    reveal_with_fuel(first_match, 20);
    let j = read_edges::<A>(JUMP@);
    assert(read_graph::<A>()[JUMP@] == j);
    assert(read_graph::<A>()[INIT@] == read_edges::<A>(INIT@));
    assert(j.drop_first() == seq![j[1], j[2]]);
    assert(j.drop_first().drop_first() == seq![j[2]]);
}

/// The moves of the first state: `k`, `j`, `h`, `l` by one row or column,
/// `0` and `$` to the line's head and last element, `Ctrl-f` and `Ctrl-b` by
/// a page, `G` to the last line, `n` and `N` to the next and previous hit,
/// `w` and `b` by a word, `/` into search; and in the search state, enter
/// leaves it, escape cancels it and any other key is typed into the word.
pub proof fn law_read_bindings<A: FromReadAction>()
    ensures
        ({
            let m = read_graph::<A>()[INIT@];
            let f = |a: ReadAction| Some(A::spec_from_read(a));
            &&& first_match(m, Key::Char('k')) == f(ReadAction::CursorUp)
            &&& first_match(m, Key::Char('j')) == f(ReadAction::CursorDown)
            &&& first_match(m, Key::Char('h')) == f(ReadAction::CursorLeft)
            &&& first_match(m, Key::Char('l')) == f(ReadAction::CursorRight)
            &&& first_match(m, Key::Char('$')) == f(ReadAction::JumpLineLast)
            &&& first_match(m, Key::Ctrl('f')) == f(ReadAction::JumpPageForward)
            &&& first_match(m, Key::Ctrl('b')) == f(ReadAction::JumpPageBackward)
            &&& first_match(m, Key::Char('G')) == f(ReadAction::JumpLast)
            &&& first_match(m, Key::Char('n')) == f(ReadAction::SearchJumpForward)
            &&& first_match(m, Key::Char('N')) == f(ReadAction::SearchJumpBackward)
            &&& first_match(m, Key::Char('w')) == f(ReadAction::JumpWordForward)
            &&& first_match(m, Key::Char('b')) == f(ReadAction::JumpWordBackward)
            &&& first_match(m, Key::Char('/')) == f(ReadAction::EnterSearchMode)
        }),
        forall|k: Key|
            first_match(read_graph::<A>()[SEARCH@], k) == Some(A::spec_from_read(
                if k == Key::Char('\n') {
                    ReadAction::LeaveSearchMode
                } else if k == Key::Esc {
                    ReadAction::CancelSearchMode
                } else {
                    ReadAction::SearchModeInput
                },
            )),
{
    lemma_modes_distinct();
    reveal_with_fuel(first_match, 20);
    assert(read_graph::<A>()[INIT@] == read_edges::<A>(INIT@));
    assert(read_graph::<A>()[SEARCH@] == read_edges::<A>(SEARCH@));
    let e = read_edges::<A>(SEARCH@);
    assert(e.drop_first() == seq![e[1], e[2]]);
    assert(e.drop_first().drop_first() == seq![e[2]]);
}

/// Typing the digits `ds` of a line number, the first from 1 to 9, then `G`,
/// goes to the head of that line: each step as the key's effect gives it.
pub proof fn law_jump_to_typed_line(ss: Seq<ReadBuffer>, ds: Seq<char>, rs: Seq<String>)
    requires
        ds.len() >= 1,
        ss.len() == ds.len() + 2,
        rs.len() == ds.len() + 1,
        ReadBuffer::eff_enter_jump_mode_post(ss[0], ss[1], Key::Char(ds[0]), rs[0]),
        forall|i: int|
            1 <= i < ds.len() ==> ReadBuffer::eff_acc_jump_num_post(ss[i], ss[i + 1], Key::Char(#[trigger] ds[i]), rs[i]),
        ReadBuffer::eff_jump_post(ss[ds.len() as int], ss[ds.len() as int + 1], Key::Char('G'), rs[ds.len() as int]),
    ensures
        ss[ds.len() as int + 1].cursor == (Cursor { row: (digits_value(ds) - 1) as usize, col: 0 }),
        ss[ds.len() as int + 1].buf == ss[0].buf,
{
    assert forall|i: int| 1 <= i <= ds.len() implies (#[trigger] ss[i]).num_buffer@ == ds.take(i) && ss[i].buf == ss[0].buf by {
        lemma_jump_digits_prefix(ss, ds, rs, i);
    }
    assert(ds.take(ds.len() as int) == ds);
}

proof fn lemma_jump_digits_prefix(ss: Seq<ReadBuffer>, ds: Seq<char>, rs: Seq<String>, i: int)
    requires
        ds.len() >= 1,
        ss.len() == ds.len() + 2,
        rs.len() == ds.len() + 1,
        ReadBuffer::eff_enter_jump_mode_post(ss[0], ss[1], Key::Char(ds[0]), rs[0]),
        forall|i: int|
            1 <= i < ds.len() ==> ReadBuffer::eff_acc_jump_num_post(ss[i], ss[i + 1], Key::Char(#[trigger] ds[i]), rs[i]),
        1 <= i <= ds.len(),
    ensures
        ss[i].num_buffer@ == ds.take(i),
        ss[i].buf == ss[0].buf,
    decreases i,
{
    if i == 1 {
        assert(ds.take(1) == seq![ds[0]]);
    } else {
        lemma_jump_digits_prefix(ss, ds, rs, i - 1);
        assert(ReadBuffer::eff_acc_jump_num_post(ss[i - 1], ss[i], Key::Char(ds[i - 1]), rs[i - 1]));
        assert(ds.take(i) == ds.take(i - 1).push(ds[i - 1]));
    }
}

/// The edges out of `s` in `m`, none when `s` has no entry.
pub open spec fn edges_of<A>(m: Map<Seq<char>, Seq<Edge<A>>>, s: Seq<char>) -> Seq<Edge<A>> {
    if m.contains_key(s) {
        m[s]
    } else {
        Seq::empty()
    }
}

/// Adds the key bindings of a `ReadBuffer` to `g`: moves, jumps and search.
pub fn add_edges<A: FromReadAction + Copy>(g: &mut Graph<A>)
    requires
        old(g).inv(),
    ensures
        final(g).inv(),
        forall|s: Seq<char>|
            s == INIT@ || s == JUMP@ || s == SEARCH@ ==> #[trigger] final(g)@.contains_key(s)
                && final(g)@[s] == edges_of(old(g)@, s) + read_edges::<A>(s),
        forall|s: Seq<char>|
            s != INIT@ && s != JUMP@ && s != SEARCH@ ==> (#[trigger] final(g)@.contains_key(s)
                == old(g)@.contains_key(s) && (old(g)@.contains_key(s) ==> final(g)@[s] == old(
                g,
            )@[s])),
{
    proof {
        reveal_strlit("Normal");
        reveal_strlit("Jump");
        reveal_strlit("Search");
        lemma_modes_distinct();
    }
    let ghost g0 = g@;
    let ghost mut li: Seq<Edge<A>> = Seq::empty();
    let ghost mut lj: Seq<Edge<A>> = Seq::empty();
    let ghost mut ls: Seq<Edge<A>> = Seq::empty();
    let ghost prev = g@;
    g.add_edge(INIT, Key::Char('k'), A::from_read(ReadAction::CursorUp));
    proof {
        li = li.push(Edge { matcher: Key::Char('k'), eff: A::spec_from_read(ReadAction::CursorUp) });
        assert(g@ == prev.insert(INIT@, edges_of(prev, INIT@).push(Edge { matcher: Key::Char('k'), eff: A::spec_from_read(ReadAction::CursorUp) })));
    }
    assert(edges_of(g@, INIT@) =~= edges_of(g0, INIT@) + li);
    assert(edges_of(g@, JUMP@) == edges_of(prev, JUMP@));
    assert(edges_of(g@, SEARCH@) == edges_of(prev, SEARCH@));
    assert(forall|s: Seq<char>| s != INIT@ && s != JUMP@ && s != SEARCH@ ==> (#[trigger] g@.contains_key(s) == prev.contains_key(s) && (prev.contains_key(s) ==> g@[s] == prev[s])));
    let ghost prev = g@;
    g.add_edge(INIT, Key::Char('j'), A::from_read(ReadAction::CursorDown));
    proof {
        li = li.push(Edge { matcher: Key::Char('j'), eff: A::spec_from_read(ReadAction::CursorDown) });
        assert(g@ == prev.insert(INIT@, edges_of(prev, INIT@).push(Edge { matcher: Key::Char('j'), eff: A::spec_from_read(ReadAction::CursorDown) })));
    }
    assert(edges_of(g@, INIT@) =~= edges_of(g0, INIT@) + li);
    assert(edges_of(g@, JUMP@) == edges_of(prev, JUMP@));
    assert(edges_of(g@, SEARCH@) == edges_of(prev, SEARCH@));
    assert(forall|s: Seq<char>| s != INIT@ && s != JUMP@ && s != SEARCH@ ==> (#[trigger] g@.contains_key(s) == prev.contains_key(s) && (prev.contains_key(s) ==> g@[s] == prev[s])));
    let ghost prev = g@;
    g.add_edge(INIT, Key::Char('h'), A::from_read(ReadAction::CursorLeft));
    proof {
        li = li.push(Edge { matcher: Key::Char('h'), eff: A::spec_from_read(ReadAction::CursorLeft) });
        assert(g@ == prev.insert(INIT@, edges_of(prev, INIT@).push(Edge { matcher: Key::Char('h'), eff: A::spec_from_read(ReadAction::CursorLeft) })));
    }
    assert(edges_of(g@, INIT@) =~= edges_of(g0, INIT@) + li);
    assert(edges_of(g@, JUMP@) == edges_of(prev, JUMP@));
    assert(edges_of(g@, SEARCH@) == edges_of(prev, SEARCH@));
    assert(forall|s: Seq<char>| s != INIT@ && s != JUMP@ && s != SEARCH@ ==> (#[trigger] g@.contains_key(s) == prev.contains_key(s) && (prev.contains_key(s) ==> g@[s] == prev[s])));
    let ghost prev = g@;
    g.add_edge(INIT, Key::Char('l'), A::from_read(ReadAction::CursorRight));
    proof {
        li = li.push(Edge { matcher: Key::Char('l'), eff: A::spec_from_read(ReadAction::CursorRight) });
        assert(g@ == prev.insert(INIT@, edges_of(prev, INIT@).push(Edge { matcher: Key::Char('l'), eff: A::spec_from_read(ReadAction::CursorRight) })));
    }
    assert(edges_of(g@, INIT@) =~= edges_of(g0, INIT@) + li);
    assert(edges_of(g@, JUMP@) == edges_of(prev, JUMP@));
    assert(edges_of(g@, SEARCH@) == edges_of(prev, SEARCH@));
    assert(forall|s: Seq<char>| s != INIT@ && s != JUMP@ && s != SEARCH@ ==> (#[trigger] g@.contains_key(s) == prev.contains_key(s) && (prev.contains_key(s) ==> g@[s] == prev[s])));
    let ghost prev = g@;
    g.add_edge(INIT, Key::Char('0'), A::from_read(ReadAction::JumpLineHead));
    proof {
        li = li.push(Edge { matcher: Key::Char('0'), eff: A::spec_from_read(ReadAction::JumpLineHead) });
        assert(g@ == prev.insert(INIT@, edges_of(prev, INIT@).push(Edge { matcher: Key::Char('0'), eff: A::spec_from_read(ReadAction::JumpLineHead) })));
    }
    assert(edges_of(g@, INIT@) =~= edges_of(g0, INIT@) + li);
    assert(edges_of(g@, JUMP@) == edges_of(prev, JUMP@));
    assert(edges_of(g@, SEARCH@) == edges_of(prev, SEARCH@));
    assert(forall|s: Seq<char>| s != INIT@ && s != JUMP@ && s != SEARCH@ ==> (#[trigger] g@.contains_key(s) == prev.contains_key(s) && (prev.contains_key(s) ==> g@[s] == prev[s])));
    let ghost prev = g@;
    g.add_edge(INIT, Key::Char('$'), A::from_read(ReadAction::JumpLineLast));
    proof {
        li = li.push(Edge { matcher: Key::Char('$'), eff: A::spec_from_read(ReadAction::JumpLineLast) });
        assert(g@ == prev.insert(INIT@, edges_of(prev, INIT@).push(Edge { matcher: Key::Char('$'), eff: A::spec_from_read(ReadAction::JumpLineLast) })));
    }
    assert(edges_of(g@, INIT@) =~= edges_of(g0, INIT@) + li);
    assert(edges_of(g@, JUMP@) == edges_of(prev, JUMP@));
    assert(edges_of(g@, SEARCH@) == edges_of(prev, SEARCH@));
    assert(forall|s: Seq<char>| s != INIT@ && s != JUMP@ && s != SEARCH@ ==> (#[trigger] g@.contains_key(s) == prev.contains_key(s) && (prev.contains_key(s) ==> g@[s] == prev[s])));
    let ghost prev = g@;
    g.add_edge(INIT, Key::Ctrl('f'), A::from_read(ReadAction::JumpPageForward));
    proof {
        li = li.push(Edge { matcher: Key::Ctrl('f'), eff: A::spec_from_read(ReadAction::JumpPageForward) });
        assert(g@ == prev.insert(INIT@, edges_of(prev, INIT@).push(Edge { matcher: Key::Ctrl('f'), eff: A::spec_from_read(ReadAction::JumpPageForward) })));
    }
    assert(edges_of(g@, INIT@) =~= edges_of(g0, INIT@) + li);
    assert(edges_of(g@, JUMP@) == edges_of(prev, JUMP@));
    assert(edges_of(g@, SEARCH@) == edges_of(prev, SEARCH@));
    assert(forall|s: Seq<char>| s != INIT@ && s != JUMP@ && s != SEARCH@ ==> (#[trigger] g@.contains_key(s) == prev.contains_key(s) && (prev.contains_key(s) ==> g@[s] == prev[s])));
    let ghost prev = g@;
    g.add_edge(INIT, Key::Ctrl('b'), A::from_read(ReadAction::JumpPageBackward));
    proof {
        li = li.push(Edge { matcher: Key::Ctrl('b'), eff: A::spec_from_read(ReadAction::JumpPageBackward) });
        assert(g@ == prev.insert(INIT@, edges_of(prev, INIT@).push(Edge { matcher: Key::Ctrl('b'), eff: A::spec_from_read(ReadAction::JumpPageBackward) })));
    }
    assert(edges_of(g@, INIT@) =~= edges_of(g0, INIT@) + li);
    assert(edges_of(g@, JUMP@) == edges_of(prev, JUMP@));
    assert(edges_of(g@, SEARCH@) == edges_of(prev, SEARCH@));
    assert(forall|s: Seq<char>| s != INIT@ && s != JUMP@ && s != SEARCH@ ==> (#[trigger] g@.contains_key(s) == prev.contains_key(s) && (prev.contains_key(s) ==> g@[s] == prev[s])));
    let ghost prev = g@;
    g.add_edge(INIT, Key::Char('G'), A::from_read(ReadAction::JumpLast));
    proof {
        li = li.push(Edge { matcher: Key::Char('G'), eff: A::spec_from_read(ReadAction::JumpLast) });
        assert(g@ == prev.insert(INIT@, edges_of(prev, INIT@).push(Edge { matcher: Key::Char('G'), eff: A::spec_from_read(ReadAction::JumpLast) })));
    }
    assert(edges_of(g@, INIT@) =~= edges_of(g0, INIT@) + li);
    assert(edges_of(g@, JUMP@) == edges_of(prev, JUMP@));
    assert(edges_of(g@, SEARCH@) == edges_of(prev, SEARCH@));
    assert(forall|s: Seq<char>| s != INIT@ && s != JUMP@ && s != SEARCH@ ==> (#[trigger] g@.contains_key(s) == prev.contains_key(s) && (prev.contains_key(s) ==> g@[s] == prev[s])));
    let ghost prev = g@;
    g.add_edge(INIT, Key::Char('n'), A::from_read(ReadAction::SearchJumpForward));
    proof {
        li = li.push(Edge { matcher: Key::Char('n'), eff: A::spec_from_read(ReadAction::SearchJumpForward) });
        assert(g@ == prev.insert(INIT@, edges_of(prev, INIT@).push(Edge { matcher: Key::Char('n'), eff: A::spec_from_read(ReadAction::SearchJumpForward) })));
    }
    assert(edges_of(g@, INIT@) =~= edges_of(g0, INIT@) + li);
    assert(edges_of(g@, JUMP@) == edges_of(prev, JUMP@));
    assert(edges_of(g@, SEARCH@) == edges_of(prev, SEARCH@));
    assert(forall|s: Seq<char>| s != INIT@ && s != JUMP@ && s != SEARCH@ ==> (#[trigger] g@.contains_key(s) == prev.contains_key(s) && (prev.contains_key(s) ==> g@[s] == prev[s])));
    let ghost prev = g@;
    g.add_edge(INIT, Key::Char('N'), A::from_read(ReadAction::SearchJumpBackward));
    proof {
        li = li.push(Edge { matcher: Key::Char('N'), eff: A::spec_from_read(ReadAction::SearchJumpBackward) });
        assert(g@ == prev.insert(INIT@, edges_of(prev, INIT@).push(Edge { matcher: Key::Char('N'), eff: A::spec_from_read(ReadAction::SearchJumpBackward) })));
    }
    assert(edges_of(g@, INIT@) =~= edges_of(g0, INIT@) + li);
    assert(edges_of(g@, JUMP@) == edges_of(prev, JUMP@));
    assert(edges_of(g@, SEARCH@) == edges_of(prev, SEARCH@));
    assert(forall|s: Seq<char>| s != INIT@ && s != JUMP@ && s != SEARCH@ ==> (#[trigger] g@.contains_key(s) == prev.contains_key(s) && (prev.contains_key(s) ==> g@[s] == prev[s])));
    let ghost prev = g@;
    g.add_edge(INIT, Key::Char('w'), A::from_read(ReadAction::JumpWordForward));
    proof {
        li = li.push(Edge { matcher: Key::Char('w'), eff: A::spec_from_read(ReadAction::JumpWordForward) });
        assert(g@ == prev.insert(INIT@, edges_of(prev, INIT@).push(Edge { matcher: Key::Char('w'), eff: A::spec_from_read(ReadAction::JumpWordForward) })));
    }
    assert(edges_of(g@, INIT@) =~= edges_of(g0, INIT@) + li);
    assert(edges_of(g@, JUMP@) == edges_of(prev, JUMP@));
    assert(edges_of(g@, SEARCH@) == edges_of(prev, SEARCH@));
    assert(forall|s: Seq<char>| s != INIT@ && s != JUMP@ && s != SEARCH@ ==> (#[trigger] g@.contains_key(s) == prev.contains_key(s) && (prev.contains_key(s) ==> g@[s] == prev[s])));
    let ghost prev = g@;
    g.add_edge(INIT, Key::Char('b'), A::from_read(ReadAction::JumpWordBackward));
    proof {
        li = li.push(Edge { matcher: Key::Char('b'), eff: A::spec_from_read(ReadAction::JumpWordBackward) });
        assert(g@ == prev.insert(INIT@, edges_of(prev, INIT@).push(Edge { matcher: Key::Char('b'), eff: A::spec_from_read(ReadAction::JumpWordBackward) })));
    }
    assert(edges_of(g@, INIT@) =~= edges_of(g0, INIT@) + li);
    assert(edges_of(g@, JUMP@) == edges_of(prev, JUMP@));
    assert(edges_of(g@, SEARCH@) == edges_of(prev, SEARCH@));
    assert(forall|s: Seq<char>| s != INIT@ && s != JUMP@ && s != SEARCH@ ==> (#[trigger] g@.contains_key(s) == prev.contains_key(s) && (prev.contains_key(s) ==> g@[s] == prev[s])));
    let ghost prev = g@;
    g.add_edge(INIT, Key::CharRange('1', '9'), A::from_read(ReadAction::EnterJumpMode));
    proof {
        li = li.push(Edge { matcher: Key::CharRange('1', '9'), eff: A::spec_from_read(ReadAction::EnterJumpMode) });
        assert(g@ == prev.insert(INIT@, edges_of(prev, INIT@).push(Edge { matcher: Key::CharRange('1', '9'), eff: A::spec_from_read(ReadAction::EnterJumpMode) })));
    }
    assert(edges_of(g@, INIT@) =~= edges_of(g0, INIT@) + li);
    assert(edges_of(g@, JUMP@) == edges_of(prev, JUMP@));
    assert(edges_of(g@, SEARCH@) == edges_of(prev, SEARCH@));
    assert(forall|s: Seq<char>| s != INIT@ && s != JUMP@ && s != SEARCH@ ==> (#[trigger] g@.contains_key(s) == prev.contains_key(s) && (prev.contains_key(s) ==> g@[s] == prev[s])));
    let ghost prev = g@;
    g.add_edge(JUMP, Key::CharRange('0', '9'), A::from_read(ReadAction::AccJumpNum));
    proof {
        lj = lj.push(Edge { matcher: Key::CharRange('0', '9'), eff: A::spec_from_read(ReadAction::AccJumpNum) });
        assert(g@ == prev.insert(JUMP@, edges_of(prev, JUMP@).push(Edge { matcher: Key::CharRange('0', '9'), eff: A::spec_from_read(ReadAction::AccJumpNum) })));
    }
    assert(edges_of(g@, JUMP@) =~= edges_of(g0, JUMP@) + lj);
    assert(edges_of(g@, INIT@) == edges_of(prev, INIT@));
    assert(edges_of(g@, SEARCH@) == edges_of(prev, SEARCH@));
    assert(forall|s: Seq<char>| s != INIT@ && s != JUMP@ && s != SEARCH@ ==> (#[trigger] g@.contains_key(s) == prev.contains_key(s) && (prev.contains_key(s) ==> g@[s] == prev[s])));
    let ghost prev = g@;
    g.add_edge(JUMP, Key::Char('G'), A::from_read(ReadAction::Jump));
    proof {
        lj = lj.push(Edge { matcher: Key::Char('G'), eff: A::spec_from_read(ReadAction::Jump) });
        assert(g@ == prev.insert(JUMP@, edges_of(prev, JUMP@).push(Edge { matcher: Key::Char('G'), eff: A::spec_from_read(ReadAction::Jump) })));
    }
    assert(edges_of(g@, JUMP@) =~= edges_of(g0, JUMP@) + lj);
    assert(edges_of(g@, INIT@) == edges_of(prev, INIT@));
    assert(edges_of(g@, SEARCH@) == edges_of(prev, SEARCH@));
    assert(forall|s: Seq<char>| s != INIT@ && s != JUMP@ && s != SEARCH@ ==> (#[trigger] g@.contains_key(s) == prev.contains_key(s) && (prev.contains_key(s) ==> g@[s] == prev[s])));
    let ghost prev = g@;
    g.add_edge(JUMP, Key::Esc, A::from_read(ReadAction::CancelJump));
    proof {
        lj = lj.push(Edge { matcher: Key::Esc, eff: A::spec_from_read(ReadAction::CancelJump) });
        assert(g@ == prev.insert(JUMP@, edges_of(prev, JUMP@).push(Edge { matcher: Key::Esc, eff: A::spec_from_read(ReadAction::CancelJump) })));
    }
    assert(edges_of(g@, JUMP@) =~= edges_of(g0, JUMP@) + lj);
    assert(edges_of(g@, INIT@) == edges_of(prev, INIT@));
    assert(edges_of(g@, SEARCH@) == edges_of(prev, SEARCH@));
    assert(forall|s: Seq<char>| s != INIT@ && s != JUMP@ && s != SEARCH@ ==> (#[trigger] g@.contains_key(s) == prev.contains_key(s) && (prev.contains_key(s) ==> g@[s] == prev[s])));
    let ghost prev = g@;
    g.add_edge(INIT, Key::Char('/'), A::from_read(ReadAction::EnterSearchMode));
    proof {
        li = li.push(Edge { matcher: Key::Char('/'), eff: A::spec_from_read(ReadAction::EnterSearchMode) });
        assert(g@ == prev.insert(INIT@, edges_of(prev, INIT@).push(Edge { matcher: Key::Char('/'), eff: A::spec_from_read(ReadAction::EnterSearchMode) })));
    }
    assert(edges_of(g@, INIT@) =~= edges_of(g0, INIT@) + li);
    assert(edges_of(g@, JUMP@) == edges_of(prev, JUMP@));
    assert(edges_of(g@, SEARCH@) == edges_of(prev, SEARCH@));
    assert(forall|s: Seq<char>| s != INIT@ && s != JUMP@ && s != SEARCH@ ==> (#[trigger] g@.contains_key(s) == prev.contains_key(s) && (prev.contains_key(s) ==> g@[s] == prev[s])));
    let ghost prev = g@;
    g.add_edge(SEARCH, Key::Char('\n'), A::from_read(ReadAction::LeaveSearchMode));
    proof {
        ls = ls.push(Edge { matcher: Key::Char('\n'), eff: A::spec_from_read(ReadAction::LeaveSearchMode) });
        assert(g@ == prev.insert(SEARCH@, edges_of(prev, SEARCH@).push(Edge { matcher: Key::Char('\n'), eff: A::spec_from_read(ReadAction::LeaveSearchMode) })));
    }
    assert(edges_of(g@, SEARCH@) =~= edges_of(g0, SEARCH@) + ls);
    assert(edges_of(g@, INIT@) == edges_of(prev, INIT@));
    assert(edges_of(g@, JUMP@) == edges_of(prev, JUMP@));
    assert(forall|s: Seq<char>| s != INIT@ && s != JUMP@ && s != SEARCH@ ==> (#[trigger] g@.contains_key(s) == prev.contains_key(s) && (prev.contains_key(s) ==> g@[s] == prev[s])));
    let ghost prev = g@;
    g.add_edge(SEARCH, Key::Esc, A::from_read(ReadAction::CancelSearchMode));
    proof {
        ls = ls.push(Edge { matcher: Key::Esc, eff: A::spec_from_read(ReadAction::CancelSearchMode) });
        assert(g@ == prev.insert(SEARCH@, edges_of(prev, SEARCH@).push(Edge { matcher: Key::Esc, eff: A::spec_from_read(ReadAction::CancelSearchMode) })));
    }
    assert(edges_of(g@, SEARCH@) =~= edges_of(g0, SEARCH@) + ls);
    assert(edges_of(g@, INIT@) == edges_of(prev, INIT@));
    assert(edges_of(g@, JUMP@) == edges_of(prev, JUMP@));
    assert(forall|s: Seq<char>| s != INIT@ && s != JUMP@ && s != SEARCH@ ==> (#[trigger] g@.contains_key(s) == prev.contains_key(s) && (prev.contains_key(s) ==> g@[s] == prev[s])));
    let ghost prev = g@;
    g.add_edge(SEARCH, Key::Otherwise, A::from_read(ReadAction::SearchModeInput));
    proof {
        ls = ls.push(Edge { matcher: Key::Otherwise, eff: A::spec_from_read(ReadAction::SearchModeInput) });
        assert(g@ == prev.insert(SEARCH@, edges_of(prev, SEARCH@).push(Edge { matcher: Key::Otherwise, eff: A::spec_from_read(ReadAction::SearchModeInput) })));
    }
    assert(edges_of(g@, SEARCH@) =~= edges_of(g0, SEARCH@) + ls);
    assert(edges_of(g@, INIT@) == edges_of(prev, INIT@));
    assert(edges_of(g@, JUMP@) == edges_of(prev, JUMP@));
    assert(forall|s: Seq<char>| s != INIT@ && s != JUMP@ && s != SEARCH@ ==> (#[trigger] g@.contains_key(s) == prev.contains_key(s) && (prev.contains_key(s) ==> g@[s] == prev[s])));
    assert(forall|s: Seq<char>| s != INIT@ && s != JUMP@ && s != SEARCH@ ==> (#[trigger] g@.contains_key(s) == g0.contains_key(s) && (g0.contains_key(s) ==> g@[s] == g0[s])));
    assert(li =~= read_edges::<A>(INIT@));
    assert(lj =~= read_edges::<A>(JUMP@));
    assert(ls =~= read_edges::<A>(SEARCH@));
}

/// Where `jump_word_forward` moves the cursor `c` in `ls`.
pub open spec fn word_jump_forward(ls: Seq<Seq<BufElem>>, c: Cursor, to: Cursor) -> bool {
    let s = ls[c.row as int];
    let n = ls.len() as int;
    match first_word_from(s, next_word_from(s, Some(c.col))) {
        Some(i) => to == Cursor { row: c.row, col: word_lo(s, i as int) as usize },
        None => (exists|q: int|
            0 <= q < n && first_word_from(ls[forward_row(c.row as int, n, q)], 0) is Some
                && (forall|p: int|
                0 <= p < q ==> first_word_from(#[trigger] ls[forward_row(c.row as int, n, p)], 0) is None)
                && to == Cursor {
                row: forward_row(c.row as int, n, q) as usize,
                col: word_lo(
                    ls[forward_row(c.row as int, n, q)],
                    first_word_from(ls[forward_row(c.row as int, n, q)], 0)->0 as int,
                ) as usize,
            }) || ((forall|p: int|
            0 <= p < n ==> first_word_from(#[trigger] ls[forward_row(c.row as int, n, p)], 0) is None)
            && to == c),
    }
}

/// Where `jump_word_backward` moves the cursor `c` in `ls`.
pub open spec fn word_jump_backward(ls: Seq<Seq<BufElem>>, c: Cursor, to: Cursor) -> bool {
    let s = ls[c.row as int];
    let n = ls.len() as int;
    match last_word_before(s, prev_word_until(s, Some(c.col))) {
        Some(i) => to == Cursor { row: c.row, col: word_lo(s, i as int) as usize },
        None => (exists|q: int|
            0 <= q < n && last_word_before(
                ls[backward_row(c.row as int, n, q)],
                ls[backward_row(c.row as int, n, q)].len() as int,
            ) is Some && (forall|p: int|
                0 <= p < q ==> last_word_before(
                    #[trigger] ls[backward_row(c.row as int, n, p)],
                    ls[backward_row(c.row as int, n, p)].len() as int,
                ) is None) && to == Cursor {
                row: backward_row(c.row as int, n, q) as usize,
                col: word_lo(
                    ls[backward_row(c.row as int, n, q)],
                    last_word_before(
                        ls[backward_row(c.row as int, n, q)],
                        ls[backward_row(c.row as int, n, q)].len() as int,
                    )->0 as int,
                ) as usize,
            }) || ((forall|p: int|
            0 <= p < n ==> last_word_before(
                #[trigger] ls[backward_row(c.row as int, n, p)],
                ls[backward_row(c.row as int, n, p)].len() as int,
            ) is None) && to == c),
    }
}

proof fn lemma_digits_prefix_le(s: Seq<char>, i: int)
    requires
        0 <= i <= s.len(),
        forall|j: int| 0 <= j < s.len() ==> is_digit(#[trigger] s[j]),
    ensures
        0 <= digits_value(s.take(i)) <= digits_value(s),
    decreases s.len(),
{
    if s.len() > 0 {
        lemma_digits_nonneg(s.drop_last());
        if i == s.len() {
            assert(s.take(i) == s);
        } else {
            assert(s.take(i) == s.drop_last().take(i));
            lemma_digits_prefix_le(s.drop_last(), i);
        }
    } else {
        assert(s.take(i) == s);
    }
}

proof fn lemma_digits_nonneg(s: Seq<char>)
    requires
        forall|j: int| 0 <= j < s.len() ==> is_digit(#[trigger] s[j]),
    ensures
        0 <= digits_value(s),
    decreases s.len(),
{
    if s.len() > 0 {
        lemma_digits_nonneg(s.drop_last());
    }
}

} // verus!
