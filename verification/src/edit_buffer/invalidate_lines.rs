use vstd::prelude::*;
use crate::read_buffer::BufElem;

verus! {

/// How many lines an edit takes out and puts in.
pub struct Result {
    pub n_delete: usize,
    pub n_insert: usize,
}

/// The lines that a run of elements spans.
#[derive(Debug, Clone, Copy, PartialEq, Eq, Structural)]
pub enum AffectRange {
    /// Nothing.
    Empty,
    /// `n` lines, the last one left open.
    Mid(usize),
    /// `n` lines, the last one ended.
    EndEol(usize),
}

/// The number of line ends in `s`.
pub open spec fn count_eol(s: Seq<BufElem>) -> nat
    decreases s.len(),
{
    if s.len() == 0 {
        0
    } else {
        count_eol(s.drop_last()) + if s.last() == BufElem::Eol { 1nat } else { 0nat }
    }
}

pub open spec fn spec_affect_range(s: Seq<BufElem>) -> AffectRange {
    if s.len() == 0 {
        AffectRange::Empty
    } else if s.last() == BufElem::Eol {
        AffectRange::EndEol(count_eol(s) as usize)
    } else {
        AffectRange::Mid((count_eol(s) + 1) as usize)
    }
}

proof fn lemma_count_eol_le(s: Seq<BufElem>)
    ensures
        count_eol(s) <= s.len(),
    decreases s.len(),
{
    if s.len() > 0 {
        lemma_count_eol_le(s.drop_last());
    }
}

/// The lines that `buf` spans.
pub fn affect_range_of(buf: &[BufElem]) -> (r: AffectRange)
    requires
        buf@.len() < usize::MAX,
    ensures
        r == spec_affect_range(buf@),
{
    if buf.len() == 0 {
        return AffectRange::Empty;
    }
    let mut n: usize = 1;
    let mut i: usize = 0;
    while i < buf.len()
        invariant
            i <= buf@.len() < usize::MAX,
            n == count_eol(buf@.take(i as int)) + 1,
        decreases buf@.len() - i,
    {
        proof {
            lemma_count_eol_le(buf@.take(i as int));
            assert(buf@.take(i as int + 1).drop_last() == buf@.take(i as int));
        }
        if buf[i] == BufElem::Eol {
            n = n + 1;
        }
        i = i + 1;
    }
    assert(buf@.take(buf@.len() as int) == buf@);
    proof {
        lemma_count_eol_le(buf@);
    }
    if buf[buf.len() - 1] == BufElem::Eol {
        AffectRange::EndEol(n - 1)
    } else {
        AffectRange::Mid(n)
    }
}

/// The lines that `r` takes, counting the line that it ends on.
pub open spec fn lines_taken(r: AffectRange) -> (int, int) {
    match r {
        AffectRange::Empty => (0, 1),
        AffectRange::Mid(n) => (n as int, n as int),
        AffectRange::EndEol(n) => (n as int, n + 1),
    }
}

/// The number of lines an edit deletes and inserts, given what it deleted and
/// what it inserted: the lines that each spans, and the line that an open end
/// shares with what follows.
pub fn calc_n_lines_affected(deleted: &[BufElem], inserted: &[BufElem]) -> (r: Result)
    requires
        deleted@.len() < usize::MAX,
        inserted@.len() < usize::MAX,
    ensures
        (r.n_delete as int, r.n_insert as int) == (match (spec_affect_range(deleted@), spec_affect_range(inserted@)) {
            (AffectRange::Empty, AffectRange::Empty) => (0, 0),
            (d, i) => (lines_taken(d).1, lines_taken(i).1),
        }),
{
    proof {
        lemma_count_eol_le(deleted@);
        lemma_count_eol_le(inserted@);
    }
    let (n_delete, n_insert): (usize, usize) = match (affect_range_of(deleted), affect_range_of(inserted)) {
        (AffectRange::Empty, AffectRange::Empty) => (0, 0),
        (AffectRange::Empty, AffectRange::Mid(n)) => (1, n),
        (AffectRange::Empty, AffectRange::EndEol(n)) => (1, n + 1),
        (AffectRange::Mid(n), AffectRange::Empty) => (n, 1),
        (AffectRange::Mid(n), AffectRange::Mid(m)) => (n, m),
        (AffectRange::Mid(n), AffectRange::EndEol(m)) => (n, m + 1),
        (AffectRange::EndEol(n), AffectRange::Empty) => (n + 1, 1),
        (AffectRange::EndEol(n), AffectRange::Mid(m)) => (n + 1, m),
        (AffectRange::EndEol(n), AffectRange::EndEol(m)) => (n + 1, m + 1),
    };
    Result { n_delete, n_insert }
}

} // verus!
