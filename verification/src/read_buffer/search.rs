use vstd::prelude::*;
use crate::read_buffer::{BufElem, Cursor, rows};
use crate::message_box::MessageBox;
use crate::screen::Color;
use crate::view;

verus! {

/// The lower-case form of a character, as `char::to_lowercase` gives it.
pub uninterp spec fn char_lowercase(c: char) -> Seq<char>;

/// Calls `char::to_lowercase`: the contract states that the characters returned
/// are the character's lower-case mapping, named `char_lowercase`, and, as the
/// documentation of `to_lowercase` and `to_ascii_lowercase` gives it for ASCII,
/// that 'A'..='Z' map to 'a'..='z' and every other ASCII character maps to
/// itself. What the mapping is beyond ASCII (Unicode's tables) is not stated.
#[verifier::external_body]
fn lowercase(c: char) -> (r: Vec<char>)
    ensures
        r@ == char_lowercase(c),
        'A' <= c <= 'Z' ==> r@ == seq![((c as u32) + 32) as char],
        (c as u32) < 128 && !('A' <= c <= 'Z') ==> r@ == seq![c],
{
    c.to_lowercase().collect()
}

/// The ASCII lower-case form of an ASCII character.
pub open spec fn ascii_lower(c: char) -> char {
    if 'A' <= c <= 'Z' {
        ((c as u32) + 32) as char
    } else {
        c
    }
}

/// Whether two characters are equal ignoring case: for two ASCII characters,
/// their ASCII lower-case forms are equal; otherwise their lower-case mappings.
#[verifier::opaque]
pub open spec fn same_ignoring_case(x: char, c: char) -> bool {
    if (x as u32) < 128 && (c as u32) < 128 {
        ascii_lower(x) == ascii_lower(c)
    } else {
        char_lowercase(x) == char_lowercase(c)
    }
}

/// Whether a buffer element matches a searched character, ignoring case.
pub open spec fn ceq(e: BufElem, c: char) -> bool {
    match e {
        BufElem::Eol => false,
        BufElem::Char(x) => same_ignoring_case(x, c),
    }
}

fn same_chars(a: &Vec<char>, b: &Vec<char>) -> (r: bool)
    ensures
        r == (a@ == b@),
{
    if a.len() != b.len() {
        return false;
    }
    let mut i: usize = 0;
    while i < a.len()
        invariant
            i <= a@.len() == b@.len(),
            forall|j: int| 0 <= j < i ==> a@[j] == b@[j],
        decreases a.len() - i,
    {
        if a[i] != b[i] {
            return false;
        }
        i = i + 1;
    }
    assert(a@ =~= b@);
    true
}

/// Whether the element is the character `c`, ignoring case.
pub fn eq(e: &BufElem, c: char) -> (r: bool)
    ensures
        r == ceq(*e, c),
{
    match e {
        BufElem::Eol => false,
        BufElem::Char(x) => {
            let a = lowercase(*x);
            let b = lowercase(c);
            let r = same_chars(&a, &b);
            proof {
                reveal(same_ignoring_case);
                if (*x as u32) < 128 && (c as u32) < 128 {
                    assert(a@ == seq![ascii_lower(*x)]);
                    assert(b@ == seq![ascii_lower(c)]);
                    if ascii_lower(*x) == ascii_lower(c) {
                        assert(a@ =~= b@);
                    } else {
                        assert(a@[0] != b@[0]);
                    }
                }
            }
            r
        },
    }
}

/// `w` occurs in `line` at column `i` (ignoring case).
pub open spec fn is_hit(line: Seq<BufElem>, w: Seq<char>, i: int) -> bool {
    &&& w.len() > 0
    &&& 0 <= i
    &&& i + w.len() <= line.len()
    &&& forall|j: int| 0 <= j < w.len() ==> ceq(#[trigger] line[i + j], w[j])
}

pub open spec fn increasing(s: Seq<usize>) -> bool {
    forall|a: int, b: int| 0 <= a < b < s.len() ==> s[a] < s[b]
}

/// `hits` lists, in increasing order, every column where `w` occurs in `line`.
pub open spec fn all_hits(line: Seq<BufElem>, w: Seq<char>, hits: Seq<usize>) -> bool {
    &&& increasing(hits)
    &&& forall|k: int| 0 <= k < hits.len() ==> is_hit(line, w, #[trigger] hits[k] as int)
    &&& forall|i: int| is_hit(line, w, i) ==> hits.contains(i as usize)
}

/// Two increasing lists with the same elements are the same list.
proof fn lemma_increasing_same_elements(a: Seq<usize>, b: Seq<usize>)
    requires
        increasing(a),
        increasing(b),
        forall|x: usize| a.contains(x) <==> b.contains(x),
    ensures
        a == b,
    decreases a.len(),
{
    if a.len() == 0 {
        if b.len() > 0 {
            assert(b.contains(b[0]));
        }
        assert(a =~= b);
    } else {
        assert(a.contains(a.last()));
        assert(b.len() > 0);
        assert(b.contains(b.last()));
        let ia = choose|i: int| 0 <= i < b.len() && b[i] == a.last();
        let ib = choose|i: int| 0 <= i < a.len() && a[i] == b.last();
        assert(a.last() <= b.last()) by {
            if ia < b.len() - 1 {
                assert(b[ia] < b[b.len() - 1]);
            }
        }
        assert(b.last() <= a.last()) by {
            if ib < a.len() - 1 {
                assert(a[ib] < a[a.len() - 1]);
            }
        }
        let a1 = a.drop_last();
        let b1 = b.drop_last();
        assert forall|x: usize| a1.contains(x) <==> b1.contains(x) by {
            if a1.contains(x) {
                let i = choose|i: int| 0 <= i < a1.len() && a1[i] == x;
                assert(a[i] < a[a.len() - 1]);
                assert(b.contains(x));
                let j = choose|j: int| 0 <= j < b.len() && b[j] == x;
                assert(j != b.len() - 1);
                assert(b1[j] == x);
            }
            if b1.contains(x) {
                let i = choose|i: int| 0 <= i < b1.len() && b1[i] == x;
                assert(b[i] < b[b.len() - 1]);
                assert(a.contains(x));
                let j = choose|j: int| 0 <= j < a.len() && a[j] == x;
                assert(j != a.len() - 1);
                assert(a1[j] == x);
            }
        }
        lemma_increasing_same_elements(a1, b1);
        assert(a =~= a1.push(a.last()));
        assert(b =~= b1.push(b.last()));
    }
}

/// The hits of a word in a line are determined: two lists that each list,
/// in increasing order, every column where the word occurs are the same.
pub proof fn law_hits_unique(line: Seq<BufElem>, w: Seq<char>, a: Seq<usize>, b: Seq<usize>)
    requires
        all_hits(line, w, a),
        all_hits(line, w, b),
    ensures
        a == b,
{
    assert forall|x: usize| a.contains(x) <==> b.contains(x) by {
        if a.contains(x) {
            let i = choose|i: int| 0 <= i < a.len() && a[i] == x;
            assert(is_hit(line, w, a[i] as int));
        }
        if b.contains(x) {
            let i = choose|i: int| 0 <= i < b.len() && b[i] == x;
            assert(is_hit(line, w, b[i] as int));
        }
    }
    lemma_increasing_same_elements(a, b);
}

/// A line of a buffer: not empty, ending with its only end of line.
pub open spec fn line_wf(line: Seq<BufElem>) -> bool {
    &&& line.len() >= 1
    &&& line.last() == BufElem::Eol
    &&& forall|i: int| 0 <= i < line.len() - 1 ==> line[i] != BufElem::Eol
}

/// The search state of one line: for each prefix of the searched word, where it
/// occurs in the line.
#[derive(Debug)]
pub struct CacheLine {
    pub search_word: Vec<char>,
    pub results: Vec<Vec<usize>>,
}

impl CacheLine {
    /// The results are those of every prefix of the word in `line`.
    pub open spec fn valid_for(&self, line: Seq<BufElem>) -> bool {
        &&& self.results@.len() == self.search_word@.len()
        &&& forall|k: int|
            0 <= k < self.results@.len() ==> all_hits(
                line,
                self.search_word@.take(k + 1),
                #[trigger] self.results@[k]@,
            )
    }

    /// The hits of the whole word (none for the empty word).
    pub open spec fn spec_result(&self) -> Seq<usize> {
        if self.search_word@.len() == 0 {
            Seq::empty()
        } else {
            self.results@[self.search_word@.len() - 1]@
        }
    }

    pub fn new() -> (r: Self)
        ensures
            r.search_word@.len() == 0,
            r.results@.len() == 0,
            forall|line: Seq<BufElem>| r.valid_for(line),
    {
        CacheLine { search_word: Vec::new(), results: Vec::new() }
    }

    /// Keeps the longest common prefix of the word and `new_search_word`,
    /// with its results, and returns its length.
    pub fn rollback_search(&mut self, new_search_word: &[char]) -> (r: usize)
        requires
            old(self).results@.len() == old(self).search_word@.len(),
        ensures
            r <= old(self).search_word@.len(),
            r <= new_search_word@.len(),
            forall|j: int| 0 <= j < r ==> old(self).search_word@[j] == new_search_word@[j],
            r < old(self).search_word@.len() && r < new_search_word@.len() ==> old(self).search_word@[r as int] != new_search_word@[r as int],
            final(self).search_word@ == old(self).search_word@.take(r as int),
            final(self).results@ == old(self).results@.take(r as int),
    {
        let mut i: usize = 0;
        while i < self.search_word.len() && i < new_search_word.len() && self.search_word[i]
            == new_search_word[i]
            invariant
                i <= self.search_word@.len(),
                i <= new_search_word@.len(),
                forall|j: int| 0 <= j < i ==> self.search_word@[j] == new_search_word@[j],
            decreases self.search_word.len() - i,
        {
            i = i + 1;
        }
        let n_drop = self.search_word.len() - i;
        let mut k: usize = 0;
        while k < n_drop
            invariant
                k <= n_drop,
                n_drop == old(self).search_word@.len() - i,
                self.search_word@ == old(self).search_word@.take(old(self).search_word@.len() - k),
                self.results@ == old(self).results@.take(old(self).results@.len() - k),
                old(self).results@.len() == old(self).search_word@.len(),
            decreases n_drop - k,
        {
            self.search_word.pop();
            self.results.pop();
            k = k + 1;
        }
        assert(self.search_word@ =~= old(self).search_word@.take(i as int));
        assert(self.results@ =~= old(self).results@.take(i as int));
        i
    }

    /// Extends the word by `new_c`, keeping the results valid for `line`.
    pub fn inc_search(&mut self, new_c: char, line: &[BufElem])
        requires
            old(self).valid_for(line@),
            line_wf(line@),
        ensures
            final(self).valid_for(line@),
            final(self).search_word@ == old(self).search_word@.push(new_c),
            final(self).results@.drop_last() == old(self).results@,
    {
        let n_sw = self.search_word.len();
        let ll = line.len();
        assert(line@.len() == ll);
        let ghost w = self.search_word@.push(new_c);
        let mut v: Vec<usize> = Vec::new();
        if n_sw == 0 {
            let mut i: usize = 0;
            while i < line.len()
                invariant
                    i <= line@.len(),
                    w == seq![new_c],
                    increasing(v@),
                    forall|k: int| 0 <= k < v@.len() ==> #[trigger] v@[k] < i,
                    forall|k: int| 0 <= k < v@.len() ==> is_hit(line@, w, #[trigger] v@[k] as int),
                    forall|j: int| 0 <= j < i && is_hit(line@, w, j) ==> v@.contains(j as usize),
                decreases line.len() - i,
            {
                let ghost old_v = v@;
                if eq(&line[i], new_c) {
                    assert(line@[i + 0] == line@[i as int]);
                    v.push(i);
                    proof {
                        assert forall|j: int| 0 <= j < i && is_hit(line@, w, j) implies v@.contains(
                            j as usize,
                        ) by {
                            assert(old_v.contains(j as usize));
                            let k = choose|k: int| 0 <= k < old_v.len() && old_v[k] == j as usize;
                            assert(v@[k] == j as usize);
                        }
                        assert(v@[v@.len() - 1] == i);
                    }
                }
                proof {
                    if is_hit(line@, w, i as int) {
                        assert(ceq(line@[i + 0], w[0]));
                    }
                }
                i = i + 1;
            }
            proof {
                assert forall|j: int| is_hit(line@, w, j) implies v@.contains(j as usize) by {
                    assert(j < line@.len());
                }
            }
        } else {
            let last = &self.results[n_sw - 1];
            let ghost pw = self.search_word@.take(n_sw as int);
            assert(self.search_word@.take(n_sw - 1 + 1) == pw);
            assert(all_hits(line@, pw, last@));
            let mut idx: usize = 0;
            while idx < last.len()
                invariant
                    idx <= last@.len(),
                    n_sw == self.search_word@.len() >= 1,
                    pw == self.search_word@.take(n_sw as int),
                    pw == self.search_word@,
                    w == pw.push(new_c),
                    all_hits(line@, pw, last@),
                    line_wf(line@),
                    ll == line@.len(),
                    increasing(v@),
                    forall|k: int| 0 <= k < v@.len() ==> exists|m: int| 0 <= m < idx && #[trigger] v@[k] == last@[m],
                    idx > 0 ==> forall|k: int| 0 <= k < v@.len() ==> #[trigger] v@[k] <= last@[idx - 1],
                    forall|k: int| 0 <= k < v@.len() ==> is_hit(line@, w, #[trigger] v@[k] as int),
                    forall|m: int| 0 <= m < idx && is_hit(line@, w, last@[m] as int) ==> v@.contains(#[trigger] last@[m]),
                decreases last.len() - idx,
            {
                let i = last[idx];
                let ghost old_v = v@;
                proof {
                    assert(is_hit(line@, pw, i as int));
                    assert(ceq(line@[i + (n_sw - 1)], pw[n_sw - 1]));
                    assert(line@[i + (n_sw - 1)] != BufElem::Eol);
                    assert(i + n_sw - 1 < line@.len() - 1);
                }
                if eq(&line[i + n_sw], new_c) {
                    proof {
                        assert forall|j: int| 0 <= j < w.len() implies ceq(
                            #[trigger] line@[i + j],
                            w[j],
                        ) by {
                            if j < n_sw {
                                assert(ceq(line@[i + j], pw[j]));
                            }
                        }
                        if idx > 0 {
                            assert(last@[idx - 1] < last@[idx as int]);
                        }
                    }
                    v.push(i);
                    proof {
                        assert(v@.last() == last@[idx as int]);
                        assert forall|m: int| 0 <= m < idx + 1 && is_hit(line@, w, last@[m] as int)
                            implies v@.contains(#[trigger] last@[m]) by {
                            if m < idx {
                                assert(old_v.contains(last@[m]));
                                let k = choose|k: int| 0 <= k < old_v.len() && old_v[k] == last@[m];
                                assert(v@[k] == last@[m]);
                            } else {
                                assert(v@[v@.len() - 1] == last@[m]);
                            }
                        }
                    }
                }
                proof {
                    if idx > 0 && v@.len() > 0 {
                        assert(last@[idx - 1] < last@[idx as int]);
                    }
                    if is_hit(line@, w, i as int) {
                        assert(ceq(line@[i + n_sw], w[n_sw as int]));
                    }
                }
                idx = idx + 1;
            }
            proof {
                assert forall|j: int| is_hit(line@, w, j) implies v@.contains(j as usize) by {
                    assert forall|t: int| 0 <= t < pw.len() implies ceq(#[trigger] line@[j + t], pw[t]) by {
                        assert(ceq(line@[j + t], w[t]));
                    }
                    assert(is_hit(line@, pw, j));
                    assert(last@.contains(j as usize));
                    let m = choose|m: int| 0 <= m < last@.len() && last@[m] == j as usize;
                    assert(last@[m] as int == j);
                    assert(v@.contains(last@[m]));
                }
            }
        }
        self.search_word.push(new_c);
        self.results.push(v);
        proof {
            assert forall|k: int| 0 <= k < self.results@.len() implies all_hits(
                line@,
                self.search_word@.take(k + 1),
                #[trigger] self.results@[k]@,
            ) by {
                if k < n_sw {
                    assert(self.search_word@.take(k + 1) == old(self).search_word@.take(k + 1));
                    assert(self.results@[k] == old(self).results@[k]);
                } else {
                    assert(self.search_word@.take(k + 1) == w);
                }
            }
            assert(self.results@.drop_last() == old(self).results@);
        }
    }

    /// The hits of the whole word, or none when the word is empty.
    pub fn result(&self) -> (r: Vec<usize>)
        requires
            self.results@.len() == self.search_word@.len(),
        ensures
            r@ == self.spec_result(),
    {
        let n_sw = self.search_word.len();
        if n_sw == 0 {
            Vec::new()
        } else {
            let mut r: Vec<usize> = Vec::new();
            let src = &self.results[n_sw - 1];
            let mut i: usize = 0;
            while i < src.len()
                invariant
                    i <= src@.len(),
                    r@ == src@.take(i as int),
                decreases src.len() - i,
            {
                r.push(src[i]);
                i = i + 1;
                proof {
                    assert(src@.take(i as int) == src@.take(i - 1).push(src@[i - 1]));
                }
            }
            assert(src@.take(src@.len() as int) == src@);
            r
        }
    }

    /// The first hit after column `i`, or the first hit at all with `None`.
    pub fn next(&self, i: Option<usize>) -> (r: Option<usize>)
        requires
            self.results@.len() == self.search_word@.len(),
        ensures
            r == first_after(self.spec_result(), i),
    {
        let res = self.result();
        let mut k: usize = 0;
        while k < res.len()
            invariant
                k <= res@.len(),
                res@ == self.spec_result(),
                forall|m: int| 0 <= m < k ==> !after(#[trigger] res@[m], i),
            decreases res.len() - k,
        {
            let x = res[k];
            let ok = match i {
                Some(i) => x > i,
                None => true,
            };
            if ok {
                proof {
                    lemma_first_after_skip(res@, i, k as int);
                }
                return Some(x);
            }
            k = k + 1;
        }
        proof {
            lemma_first_after_skip(res@, i, k as int);
        }
        None
    }

    /// The last hit before column `i`, or the last hit at all with `None`.
    pub fn prev(&self, i: Option<usize>) -> (r: Option<usize>)
        requires
            self.results@.len() == self.search_word@.len(),
        ensures
            r == last_before(self.spec_result(), i),
    {
        let res = self.result();
        let mut k: usize = res.len();
        while k > 0
            invariant
                k <= res@.len(),
                res@ == self.spec_result(),
                forall|m: int| k <= m < res@.len() ==> !before(#[trigger] res@[m], i),
            decreases k,
        {
            let x = res[k - 1];
            let ok = match i {
                Some(i) => x < i,
                None => true,
            };
            if ok {
                proof {
                    lemma_last_before_skip(res@, i, k as int);
                    assert(res@.subrange(0, k as int).last() == x);
                }
                return Some(x);
            }
            k = k - 1;
        }
        proof {
            lemma_last_before_skip(res@, i, 0);
        }
        None
    }
}

pub open spec fn after(x: usize, i: Option<usize>) -> bool {
    match i {
        Some(i) => x > i,
        None => true,
    }
}

pub open spec fn before(x: usize, i: Option<usize>) -> bool {
    match i {
        Some(i) => x < i,
        None => true,
    }
}

/// The first element of `s` that comes after `i` (any, with `None`).
pub open spec fn first_after(s: Seq<usize>, i: Option<usize>) -> Option<usize>
    decreases s.len(),
{
    if s.len() == 0 {
        None
    } else if after(s[0], i) {
        Some(s[0])
    } else {
        first_after(s.drop_first(), i)
    }
}

/// The last element of `s` that comes before `i` (any, with `None`).
pub open spec fn last_before(s: Seq<usize>, i: Option<usize>) -> Option<usize>
    decreases s.len(),
{
    if s.len() == 0 {
        None
    } else if before(s.last(), i) {
        Some(s.last())
    } else {
        last_before(s.drop_last(), i)
    }
}

/// The incremental search of a buffer: the searched word and, per line, what
/// is known of its occurrences.
pub struct Search {
    pub cur_word: Vec<char>,
    pub cache: Vec<CacheLine>,
    pub show: bool,
}

/// Where a row comes in the forward search order from row `cur` of `n` rows:
/// the rows after `cur`, then from the top down to `cur` itself.
pub open spec fn forward_row(cur: int, n: int, q: int) -> int {
    if q < n - cur - 1 {
        cur + 1 + q
    } else {
        q - (n - cur - 1)
    }
}

/// Where a row comes in the backward search order from row `cur` of `n` rows:
/// the rows above `cur` upwards, then from the bottom up to `cur` itself.
pub open spec fn backward_row(cur: int, n: int, q: int) -> int {
    if q < cur {
        cur - 1 - q
    } else {
        n - 1 - (q - cur)
    }
}

impl Search {
    /// Every line's cache holds valid results for that line of `rs`.
    pub open spec fn inv_for(&self, rs: Seq<Seq<BufElem>>) -> bool {
        &&& self.cache@.len() == rs.len()
        &&& forall|r: int| 0 <= r < rs.len() ==> #[trigger] line_wf(rs[r])
        &&& forall|r: int| 0 <= r < rs.len() ==> (#[trigger] self.cache@[r]).valid_for(rs[r])
    }

    pub fn new(n_rows: usize) -> (r: Self)
        ensures
            r.cur_word@.len() == 0,
            r.cache@.len() == n_rows,
            forall|i: int| 0 <= i < n_rows ==> (#[trigger] r.cache@[i]).search_word@.len() == 0
                && r.cache@[i].results@.len() == 0,
            !r.show,
    {
        let mut cache: Vec<CacheLine> = Vec::new();
        let mut i: usize = 0;
        while i < n_rows
            invariant
                i <= n_rows,
                cache@.len() == i,
                forall|j: int| 0 <= j < i ==> (#[trigger] cache@[j]).search_word@.len() == 0
                    && cache@[j].results@.len() == 0,
            decreases n_rows - i,
        {
            cache.push(CacheLine::new());
            i = i + 1;
        }
        Search { cur_word: Vec::new(), cache, show: false }
    }

    pub fn hide_search(&mut self)
        ensures
            !final(self).show,
            final(self).cur_word == old(self).cur_word,
            final(self).cache == old(self).cache,
    {
        self.show = false;
    }

    pub fn show_search(&mut self)
        ensures
            final(self).show,
            final(self).cur_word == old(self).cur_word,
            final(self).cache == old(self).cache,
    {
        self.show = true;
    }

    /// Empties the searched word and the message that shows it.
    pub fn clear_search_word(&mut self, message_box: &mut MessageBox)
        ensures
            final(self).cur_word@.len() == 0,
            final(self).cache == old(self).cache,
            final(self).show == old(self).show,
            final(self).message_of(final(message_box).buf@),
    {
        self.cur_word.clear();
        self.show_search_word(message_box);
    }

    /// The message shows the searched word.
    pub open spec fn message_of(&self, msg: Seq<char>) -> bool {
        msg == self.cur_word@
    }

    /// Sends the searched word to the message box.
    pub fn show_search_word(&self, message_box: &mut MessageBox)
        ensures
            self.message_of(final(message_box).buf@),
    {
        if self.cur_word.len() == 0 {
            message_box.send("");
            proof {
                reveal_strlit("");
                assert(final(message_box).buf@ =~= self.cur_word@);
            }
        } else {
            message_box.send_chars(self.cur_word.as_slice());
        }
    }

    /// Appends `c` to the searched word and shows it.
    pub fn push_search_word(&mut self, c: char, message_box: &mut MessageBox)
        ensures
            final(self).cur_word@ == old(self).cur_word@.push(c),
            final(self).cache == old(self).cache,
            final(self).show == old(self).show,
            final(self).message_of(final(message_box).buf@),
    {
        self.cur_word.push(c);
        self.show_search_word(message_box);
    }

    /// Drops the last character of the searched word and shows it.
    pub fn pop_search_word(&mut self, message_box: &mut MessageBox)
        ensures
            old(self).cur_word@.len() > 0 ==> final(self).cur_word@ == old(self).cur_word@.drop_last(),
            old(self).cur_word@.len() == 0 ==> final(self).cur_word@.len() == 0,
            final(self).cache == old(self).cache,
            final(self).show == old(self).show,
            final(self).message_of(final(message_box).buf@),
    {
        self.cur_word.pop();
        self.show_search_word(message_box);
    }

    /// Replaces the caches of `deleted` lines at `row` with `inserted` fresh ones.
    pub fn restruct_cache(&mut self, row: usize, deleted: usize, inserted: usize)
        requires
            row + deleted <= old(self).cache@.len(),
        ensures
            final(self).cache@.len() == old(self).cache@.len() - deleted + inserted,
            forall|i: int| 0 <= i < row ==> final(self).cache@[i] == old(self).cache@[i],
            forall|i: int|
                row <= i < row + inserted ==> (#[trigger] final(self).cache@[i]).search_word@.len()
                    == 0 && final(self).cache@[i].results@.len() == 0,
            forall|i: int|
                row + inserted <= i < final(self).cache@.len() ==> #[trigger] final(self).cache@[i]
                    == old(self).cache@[i - inserted + deleted],
            final(self).cur_word == old(self).cur_word,
            final(self).show == old(self).show,
    {
        let mut k: usize = 0;
        while k < deleted
            invariant
                k <= deleted,
                row + deleted <= old(self).cache@.len(),
                self.cache@ == old(self).cache@.take(row as int) + old(self).cache@.skip(row + k),
                self.cur_word == old(self).cur_word,
                self.show == old(self).show,
            decreases deleted - k,
        {
            self.cache.remove(row);
            k = k + 1;
            assert(self.cache@ =~= old(self).cache@.take(row as int) + old(self).cache@.skip(
                row + k,
            ));
        }
        let ghost rest = self.cache@;
        let mut k: usize = 0;
        while k < inserted
            invariant
                k <= inserted,
                rest == old(self).cache@.take(row as int) + old(self).cache@.skip(row + deleted),
                row <= rest.len(),
                self.cache@.len() == rest.len() + k,
                forall|i: int| 0 <= i < row ==> self.cache@[i] == rest[i],
                forall|i: int|
                    row <= i < row + k ==> (#[trigger] self.cache@[i]).search_word@.len() == 0
                        && self.cache@[i].results@.len() == 0,
                forall|i: int| row + k <= i < self.cache@.len() ==> #[trigger] self.cache@[i] == rest[i - k],
                self.cur_word == old(self).cur_word,
                self.show == old(self).show,
            decreases inserted - k,
        {
            self.cache.insert(row, CacheLine::new());
            k = k + 1;
        }
        assert forall|i: int| 0 <= i < row implies final(self).cache@[i] == old(self).cache@[i] by {
            assert(rest[i] == old(self).cache@.take(row as int)[i]);
        }
    }

    /// A fresh cache for a line inserted at `row`.
    pub fn cache_insert_new_line(&mut self, row: usize)
        requires
            row <= old(self).cache@.len(),
        ensures
            final(self).cache@.len() == old(self).cache@.len() + 1,
            forall|i: int| 0 <= i < row ==> final(self).cache@[i] == old(self).cache@[i],
            final(self).cache@[row as int].search_word@.len() == 0,
            final(self).cache@[row as int].results@.len() == 0,
            forall|i: int|
                row < i < final(self).cache@.len() ==> #[trigger] final(self).cache@[i] == old(self).cache@[i - 1],
            final(self).cur_word == old(self).cur_word,
            final(self).show == old(self).show,
    {
        self.cache.insert(row, CacheLine::new());
    }

    /// Drops the cache of the line at `row`, which was removed.
    pub fn cache_remove_line(&mut self, row: usize)
        requires
            row < old(self).cache@.len(),
        ensures
            final(self).cache@ == old(self).cache@.remove(row as int),
            final(self).cur_word == old(self).cur_word,
            final(self).show == old(self).show,
    {
        self.cache.remove(row);
    }

    /// Forgets every line's results: `n_rows` fresh caches.
    pub fn clear_cache(&mut self, n_rows: usize)
        ensures
            final(self).cache@.len() == n_rows,
            forall|i: int| 0 <= i < n_rows ==> (#[trigger] final(self).cache@[i]).search_word@.len()
                == 0 && final(self).cache@[i].results@.len() == 0,
            final(self).cur_word == old(self).cur_word,
            final(self).show == old(self).show,
    {
        let fresh = Search::new(n_rows);
        self.cache = fresh.cache;
    }

    /// Brings the cache of `row` up to the current word.
    fn update_cache_line(&mut self, row: usize, buf: &[Vec<BufElem>])
        requires
            old(self).inv_for(rows(buf@)),
            row < buf@.len(),
        ensures
            final(self).inv_for(rows(buf@)),
            final(self).cache@[row as int].search_word@ == old(self).cur_word@,
            forall|i: int| 0 <= i < buf@.len() && i != row ==> final(self).cache@[i] == old(self).cache@[i],
            final(self).cur_word == old(self).cur_word,
            final(self).show == old(self).show,
    {
        let ghost rs = rows(buf@);
        assert(rs[row as int] == buf@[row as int]@);
        let n = self.cache[row].rollback_search(self.cur_word.as_slice());
        proof {
            let cl = self.cache@[row as int];
            let ocl = old(self).cache@[row as int];
            assert forall|k: int| 0 <= k < cl.results@.len() implies all_hits(
                rs[row as int],
                cl.search_word@.take(k + 1),
                #[trigger] cl.results@[k]@,
            ) by {
                assert(cl.search_word@.take(k + 1) == ocl.search_word@.take(k + 1));
                assert(cl.results@[k] == ocl.results@[k]);
            }
            assert(cl.search_word@ =~= self.cur_word@.take(n as int));
        }
        let mut k: usize = n;
        while k < self.cur_word.len()
            invariant
                n <= k <= self.cur_word@.len(),
                row < buf@.len(),
                rs == rows(buf@),
                line_wf(rs[row as int]),
                rs[row as int] == buf@[row as int]@,
                self.cur_word == old(self).cur_word,
                self.show == old(self).show,
                self.cache@.len() == old(self).cache@.len(),
                old(self).cache@.len() == buf@.len(),
                self.cache@[row as int].valid_for(rs[row as int]),
                self.cache@[row as int].search_word@ == self.cur_word@.take(k as int),
                forall|i: int| 0 <= i < buf@.len() && i != row ==> self.cache@[i] == old(self).cache@[i],
            decreases self.cur_word.len() - k,
        {
            let c = self.cur_word[k];
            self.cache[row].inc_search(c, buf[row].as_slice());
            k = k + 1;
            assert(self.cur_word@.take(k as int) == self.cur_word@.take(k - 1).push(c));
        }
        assert(self.cur_word@.take(k as int) == self.cur_word@);
        proof {
            assert forall|r: int| 0 <= r < rs.len() implies (#[trigger] self.cache@[r]).valid_for(
                rs[r],
            ) by {
                if r != row {
                    assert(self.cache@[r] == old(self).cache@[r]);
                }
            }
        }
    }

    /// Brings the caches of the rows in `range` up to the current word.
    pub fn update_cache(&mut self, range: core::ops::Range<usize>, buf: &[Vec<BufElem>])
        requires
            old(self).inv_for(rows(buf@)),
            range.end <= buf@.len(),
        ensures
            final(self).inv_for(rows(buf@)),
            forall|i: int|
                range.start <= i < range.end ==> (#[trigger] final(self).cache@[i]).search_word@
                    == old(self).cur_word@,
            forall|i: int|
                range.start <= i < range.end ==> if old(self).cur_word@.len() > 0 {
                    all_hits(rows(buf@)[i], old(self).cur_word@, (#[trigger] final(self).cache@[i]).spec_result())
                } else {
                    final(self).cache@[i].spec_result().len() == 0
                },
            forall|i: int|
                0 <= i < buf@.len() && !(range.start <= i < range.end) ==> final(self).cache@[i]
                    == old(self).cache@[i],
            final(self).cur_word == old(self).cur_word,
            final(self).show == old(self).show,
    {
        if range.start >= range.end {
            return ;
        }
        let mut row = range.start;
        while row < range.end
            invariant
                range.start <= row <= range.end,
                range.end <= buf@.len(),
                self.inv_for(rows(buf@)),
                self.cur_word == old(self).cur_word,
                self.show == old(self).show,
                forall|i: int|
                    range.start <= i < row ==> (#[trigger] self.cache@[i]).search_word@ == old(self).cur_word@,
                forall|i: int|
                    0 <= i < buf@.len() && !(range.start <= i < row) ==> self.cache@[i] == old(self).cache@[i],
            decreases range.end - row,
        {
            self.update_cache_line(row, buf);
            row = row + 1;
        }
        proof {
            assert forall|i: int| range.start <= i < range.end implies if old(self).cur_word@.len() > 0 {
                all_hits(rows(buf@)[i], old(self).cur_word@, (#[trigger] self.cache@[i]).spec_result())
            } else {
                self.cache@[i].spec_result().len() == 0
            } by {
                let c = self.cache@[i];
                assert(c.valid_for(rows(buf@)[i]));
                let n = c.search_word@.len();
                if n > 0 {
                    assert(c.search_word@.take(n as int) == c.search_word@);
                    assert(all_hits(rows(buf@)[i], c.search_word@.take(n - 1 + 1), c.results@[n - 1]@));
                }
            }
        }
    }
}

/// `c` is the first occurrence of `w` in `line`.
pub open spec fn is_first_hit(line: Seq<BufElem>, w: Seq<char>, c: int) -> bool {
    is_hit(line, w, c) && forall|j: int| j < c ==> !is_hit(line, w, j)
}

/// `c` is the last occurrence of `w` in `line`.
pub open spec fn is_last_hit(line: Seq<BufElem>, w: Seq<char>, c: int) -> bool {
    is_hit(line, w, c) && forall|j: int| j > c ==> !is_hit(line, w, j)
}

pub open spec fn no_hit(line: Seq<BufElem>, w: Seq<char>) -> bool {
    forall|j: int| !is_hit(line, w, j)
}

proof fn lemma_hits_ends(line: Seq<BufElem>, w: Seq<char>, hits: Seq<usize>)
    requires
        all_hits(line, w, hits),
        line.len() <= usize::MAX,
    ensures
        hits.len() == 0 <==> no_hit(line, w),
        hits.len() == 0 ==> first_after(hits, None) is None && last_before(hits, None) is None,
        hits.len() > 0 ==> first_after(hits, None) == Some(hits[0]) && is_first_hit(
            line,
            w,
            hits[0] as int,
        ),
        hits.len() > 0 ==> last_before(hits, None) == Some(hits.last()) && is_last_hit(
            line,
            w,
            hits.last() as int,
        ),
{
    if hits.len() > 0 {
        assert(is_hit(line, w, hits[0] as int));
        assert forall|j: int| j < hits[0] implies !is_hit(line, w, j) by {
            if is_hit(line, w, j) {
                assert(hits.contains(j as usize));
                let k = choose|k: int| 0 <= k < hits.len() && hits[k] == j as usize;
                if k > 0 {
                    assert(hits[0] < hits[k]);
                }
            }
        }
        assert(is_hit(line, w, hits.last() as int));
        assert forall|j: int| j > hits.last() implies !is_hit(line, w, j) by {
            if is_hit(line, w, j) {
                assert(hits.contains(j as usize));
                let k = choose|k: int| 0 <= k < hits.len() && hits[k] == j as usize;
                if k < hits.len() - 1 {
                    assert(hits[k] < hits[hits.len() - 1]);
                }
            }
        }
    } else {
        assert forall|j: int| !is_hit(line, w, j) by {
            if is_hit(line, w, j) {
                assert(hits.contains(j as usize));
            }
        }
    }
}

/// What `Search::next` gives from `cur` in `lines`: on the cursor's row, the
/// first occurrence after the cursor that the row's cache knows; otherwise, in
/// forward search order, the first occurrence of the current word on the first
/// row that has one; `None` when no row has one.
pub open spec fn next_result(s: Search, cur: Cursor, lines: Seq<Seq<BufElem>>, r: Option<Cursor>) -> bool {
    let n = lines.len() as int;
    let w = s.cur_word@;
    match first_after(s.cache@[cur.row as int].spec_result(), Some(cur.col)) {
        Some(c) => r == Some(Cursor { row: cur.row, col: c }),
        None => match r {
            Some(c) => exists|q: int|
                0 <= q < n && c.row == forward_row(cur.row as int, n, q) && is_first_hit(
                    lines[c.row as int],
                    w,
                    c.col as int,
                ) && forall|p: int|
                    0 <= p < q ==> no_hit(#[trigger] lines[forward_row(cur.row as int, n, p)], w),
            None => forall|row: int| 0 <= row < n ==> no_hit(#[trigger] lines[row], w),
        },
    }
}

/// What `Search::prev` gives from `cur` in `lines`: on the cursor's row, the
/// last occurrence before the cursor that the row's cache knows; otherwise, in
/// backward search order, the last occurrence of the current word on the first
/// row that has one; `None` when no row has one.
pub open spec fn prev_result(s: Search, cur: Cursor, lines: Seq<Seq<BufElem>>, r: Option<Cursor>) -> bool {
    let n = lines.len() as int;
    let w = s.cur_word@;
    match last_before(s.cache@[cur.row as int].spec_result(), Some(cur.col)) {
        Some(c) => r == Some(Cursor { row: cur.row, col: c }),
        None => match r {
            Some(c) => exists|q: int|
                0 <= q < n && c.row == backward_row(cur.row as int, n, q) && is_last_hit(
                    lines[c.row as int],
                    w,
                    c.col as int,
                ) && forall|p: int|
                    0 <= p < q ==> no_hit(#[trigger] lines[backward_row(cur.row as int, n, p)], w),
            None => forall|row: int| 0 <= row < n ==> no_hit(#[trigger] lines[row], w),
        },
    }
}

impl Search {
    /// The next occurrence from `cur`: on the cursor's row, the first occurrence
    /// after the cursor that the row's cache knows; otherwise, taking the rows in
    /// forward search order and bringing each one's cache up to date, the first
    /// occurrence of the current word on the first row that has one.
    pub fn next(&mut self, cur: Cursor, buf: &[Vec<BufElem>]) -> (r: Option<Cursor>)
        requires
            old(self).inv_for(rows(buf@)),
            cur.row < buf@.len(),
        ensures
            final(self).inv_for(rows(buf@)),
            final(self).cur_word == old(self).cur_word,
            final(self).show == old(self).show,
            next_result(*old(self), cur, rows(buf@), r),
    {
        match self.cache[cur.row].next(Some(cur.col)) {
            Some(next_col) => Some(Cursor { row: cur.row, col: next_col }),
            None => {
                let n = self.cache.len();
                let ghost rs = rows(buf@);
                let mut q: usize = 0;
                while q < n
                    invariant
                        q <= n,
                        n == buf@.len(),
                        cur.row < n,
                        rs == rows(buf@),
                        self.inv_for(rs),
                        self.cur_word == old(self).cur_word,
                        self.show == old(self).show,
                        first_after(old(self).cache@[cur.row as int].spec_result(), Some(cur.col)) is None,
                        forall|p: int|
                            0 <= p < q ==> no_hit(
                                #[trigger] buf@[forward_row(cur.row as int, n as int, p)]@,
                                self.cur_word@,
                            ),
                    decreases n - q,
                {
                    let row = if q < n - cur.row - 1 {
                        cur.row + 1 + q
                    } else {
                        q - (n - cur.row - 1)
                    };
                    assert(row == forward_row(cur.row as int, n as int, q as int));
                    self.update_cache_line(row, buf);
                    assert(rs[row as int] == buf@[row as int]@);
                    let row_len = buf[row].len();
                    proof {
                        let cl = self.cache@[row as int];
                        assert(buf@[row as int]@.len() == row_len);
                        if self.cur_word@.len() > 0 {
                            assert(cl.search_word@.take(cl.search_word@.len() - 1 + 1)
                                == self.cur_word@);
                            lemma_hits_ends(rs[row as int], self.cur_word@, cl.spec_result());
                        } else {
                            assert(no_hit(rs[row as int], self.cur_word@));
                        }
                    }
                    let first0 = self.cache[row].next(None);
                    match first0 {
                        Some(first) => {
                            assert(row == forward_row(cur.row as int, buf@.len() as int, q as int));
                            return Some(Cursor { row, col: first });
                        },
                        None => {},
                    }
                    q = q + 1;
                }
                proof {
                    assert forall|row: int| 0 <= row < buf@.len() implies no_hit(
                        #[trigger] buf@[row]@,
                        old(self).cur_word@,
                    ) by {
                        let p = if row > cur.row {
                            row - cur.row - 1
                        } else {
                            row + (n - cur.row - 1)
                        };
                        assert(forward_row(cur.row as int, n as int, p) == row);
                    }
                }
                None
            },
        }
    }

    /// The previous occurrence from `cur`: on the cursor's row, the last
    /// occurrence before the cursor that the row's cache knows; otherwise, taking
    /// the rows in backward search order and bringing each one's cache up to
    /// date, the last occurrence of the current word on the first row that has
    /// one.
    pub fn prev(&mut self, cur: Cursor, buf: &[Vec<BufElem>]) -> (r: Option<Cursor>)
        requires
            old(self).inv_for(rows(buf@)),
            cur.row < buf@.len(),
        ensures
            final(self).inv_for(rows(buf@)),
            final(self).cur_word == old(self).cur_word,
            final(self).show == old(self).show,
            prev_result(*old(self), cur, rows(buf@), r),
    {
        match self.cache[cur.row].prev(Some(cur.col)) {
            Some(prev_col) => Some(Cursor { row: cur.row, col: prev_col }),
            None => {
                let n = self.cache.len();
                let ghost rs = rows(buf@);
                let mut q: usize = 0;
                while q < n
                    invariant
                        q <= n,
                        n == buf@.len(),
                        cur.row < n,
                        rs == rows(buf@),
                        self.inv_for(rs),
                        self.cur_word == old(self).cur_word,
                        self.show == old(self).show,
                        last_before(old(self).cache@[cur.row as int].spec_result(), Some(cur.col)) is None,
                        forall|p: int|
                            0 <= p < q ==> no_hit(
                                #[trigger] buf@[backward_row(cur.row as int, n as int, p)]@,
                                self.cur_word@,
                            ),
                    decreases n - q,
                {
                    let row = if q < cur.row {
                        cur.row - 1 - q
                    } else {
                        n - 1 - (q - cur.row)
                    };
                    assert(row == backward_row(cur.row as int, n as int, q as int));
                    self.update_cache_line(row, buf);
                    assert(rs[row as int] == buf@[row as int]@);
                    let row_len = buf[row].len();
                    proof {
                        let cl = self.cache@[row as int];
                        assert(buf@[row as int]@.len() == row_len);
                        if self.cur_word@.len() > 0 {
                            assert(cl.search_word@.take(cl.search_word@.len() - 1 + 1)
                                == self.cur_word@);
                            lemma_hits_ends(rs[row as int], self.cur_word@, cl.spec_result());
                        } else {
                            assert(no_hit(rs[row as int], self.cur_word@));
                        }
                    }
                    let last0 = self.cache[row].prev(None);
                    match last0 {
                        Some(last) => {
                            assert(row == backward_row(cur.row as int, buf@.len() as int, q as int));
                            return Some(Cursor { row, col: last });
                        },
                        None => {},
                    }
                    q = q + 1;
                }
                proof {
                    assert forall|row: int| 0 <= row < buf@.len() implies no_hit(
                        #[trigger] buf@[row]@,
                        old(self).cur_word@,
                    ) by {
                        let p = if row < cur.row {
                            cur.row - 1 - row
                        } else {
                            cur.row + (n - 1 - row)
                        };
                        assert(backward_row(cur.row as int, n as int, p) == row);
                    }
                }
                None
            },
        }
    }
}

proof fn lemma_first_after_skip(s: Seq<usize>, i: Option<usize>, k: int)
    requires
        0 <= k <= s.len(),
        forall|m: int| 0 <= m < k ==> !after(#[trigger] s[m], i),
    ensures
        first_after(s, i) == first_after(s.subrange(k, s.len() as int), i),
    decreases k,
{
    if k > 0 {
        assert(!after(s[0], i));
        let t = s.drop_first();
        assert forall|m: int| 0 <= m < k - 1 implies !after(#[trigger] t[m], i) by {
            assert(t[m] == s[m + 1]);
        }
        lemma_first_after_skip(t, i, k - 1);
        assert(t.subrange(k - 1, t.len() as int) == s.subrange(k, s.len() as int));
    } else {
        assert(s.subrange(0, s.len() as int) == s);
    }
}

proof fn lemma_last_before_skip(s: Seq<usize>, i: Option<usize>, k: int)
    requires
        0 <= k <= s.len(),
        forall|m: int| k <= m < s.len() ==> !before(#[trigger] s[m], i),
    ensures
        last_before(s, i) == last_before(s.subrange(0, k), i),
    decreases s.len() - k,
{
    if k < s.len() {
        assert(!before(s.last(), i));
        let t = s.drop_last();
        assert forall|m: int| k <= m < t.len() implies !before(#[trigger] t[m], i) by {
            assert(t[m] == s[m]);
        }
        lemma_last_before_skip(t, i, k);
        assert(t.subrange(0, k) == s.subrange(0, k));
    } else {
        assert(s.subrange(0, k) == s);
    }
}

/// Whether `col` lies in a hit, starting at one of `hits`, of a word `len`
/// long.
pub open spec fn in_hit(hits: Seq<usize>, col: usize, len: nat) -> bool {
    exists|i: int| 0 <= i < hits.len() && hits[i] <= col && col < hits[i] + len
}

/// The layer that marks the hits of a search in green, while they are shown.
pub struct DiffView<'a> {
    model: &'a Search,
}

impl<'a> DiffView<'a> {
    pub closed spec fn spec_model(&self) -> Search {
        *self.model
    }

    /// The layer of the search state `search`.
    pub fn new(search: &'a Search) -> (r: Self)
        ensures
            r.spec_model() == *search,
    {
        DiffView { model: search }
    }
}

/// What the layer of search state `m` shows at `(col, row)`.
pub open spec fn search_diff(m: Search, col: usize, row: usize) -> view::ViewElemDiff {
    if row < m.cache@.len() && m.show && in_hit(m.cache@[row as int].spec_result(), col, m.cur_word@.len()) {
        (None, None, Some(Color::Green))
    } else {
        (None, None, None)
    }
}

impl<'a> view::DiffView for DiffView<'a> {
    open spec fn diff_covers(&self, col: usize, row: usize) -> bool {
        row < self.spec_model().cache@.len() ==> self.spec_model().cache@[row as int].results@.len()
            == self.spec_model().cache@[row as int].search_word@.len()
    }

    open spec fn spec_diff(&self, col: usize, row: usize) -> view::ViewElemDiff {
        search_diff(self.spec_model(), col, row)
    }

    fn get(&self, col: usize, row: usize) -> (r: view::ViewElemDiff) {
        let len = self.model.cur_word.len();
        if row >= self.model.cache.len() {
            return (None, None, None);
        }
        let hits = self.model.cache[row].result();
        let mut found = false;
        let mut i: usize = 0;
        while i < hits.len()
            invariant
                i <= hits@.len(),
                found == exists|j: int| 0 <= j < i && hits@[j] <= col && col < hits@[j] + len,
            decreases hits@.len() - i,
        {
            let s = hits[i];
            if s <= col && col - s < len {
                found = true;
            }
            i = i + 1;
        }
        if found && self.model.show {
            (None, None, Some(Color::Green))
        } else {
            (None, None, None)
        }
    }
}

} // verus!
