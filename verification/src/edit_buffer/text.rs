use vstd::prelude::*;
use crate::read_buffer::{BufElem, Cursor, flatten, lemma_flatten_push};
use crate::read_buffer::search::line_wf;

verus! {

/// The lines of a text: each ends after a line end, and the last one holds
/// what follows the last line end (possibly nothing).
pub open spec fn lines_of(t: Seq<BufElem>) -> Seq<Seq<BufElem>>
    decreases t.len(),
{
    if t.len() == 0 {
        seq![Seq::empty()]
    } else {
        let ls = lines_of(t.drop_last());
        let last = ls.len() - 1;
        if t.last() == BufElem::Eol {
            ls.update(last, ls[last].push(BufElem::Eol)).push(Seq::empty())
        } else {
            ls.update(last, ls[last].push(t.last()))
        }
    }
}

/// The text ends with a line end.
pub open spec fn ends_eol(t: Seq<BufElem>) -> bool {
    t.len() > 0 && t.last() == BufElem::Eol
}

/// The rows that hold a text: its lines, without the empty one after a final
/// line end.
pub open spec fn materialize(t: Seq<BufElem>) -> Seq<Seq<BufElem>> {
    if ends_eol(t) {
        lines_of(t).drop_last()
    } else {
        lines_of(t)
    }
}

/// Every row is a line that ends with its only line end.
pub open spec fn all_lines_wf(ls: Seq<Seq<BufElem>>) -> bool {
    forall|r: int| 0 <= r < ls.len() ==> #[trigger] line_wf(ls[r])
}

/// The rows of `lines_of`: all but the last end with their only line end, and
/// the last has none.
pub proof fn lemma_lines_of(t: Seq<BufElem>)
    ensures
        lines_of(t).len() >= 1,
        flatten(lines_of(t)) == t,
        all_lines_wf(lines_of(t).drop_last()),
        forall|i: int| 0 <= i < lines_of(t).last().len() ==> lines_of(t).last()[i] != BufElem::Eol,
        ends_eol(t) ==> lines_of(t).last().len() == 0,
        lines_of(t).len() <= t.len() + 1,
        forall|r: int| 0 <= r < lines_of(t).len() ==> (#[trigger] lines_of(t)[r]).len() <= t.len(),
    decreases t.len(),
{
    if t.len() == 0 {
        assert(lines_of(t).drop_last() == Seq::<Seq<BufElem>>::empty());
        assert(flatten(lines_of(t)) == flatten(lines_of(t).drop_last()) + lines_of(t).last());
        assert(t == Seq::<BufElem>::empty());
    } else {
        let s = t.drop_last();
        lemma_lines_of(s);
        let ls = lines_of(s);
        let last = ls.len() - 1;
        let nl = ls[last].push(t.last());
        let u = ls.update(last, nl);
        assert(ls.drop_last() == u.drop_last());
        lemma_flatten_push(ls.drop_last(), ls[last]);
        assert(ls.drop_last().push(ls[last]) == ls);
        lemma_flatten_push(u.drop_last(), nl);
        assert(u.drop_last().push(nl) == u);
        assert(flatten(u) == t) by {
            assert(flatten(u) == flatten(ls.drop_last()) + nl);
            assert(flatten(ls) == flatten(ls.drop_last()) + ls[last]);
            assert(s.push(t.last()) == t);
        }
        if t.last() == BufElem::Eol {
            assert(lines_of(t) == u.push(Seq::<BufElem>::empty()));
            lemma_flatten_push(u, Seq::empty());
            assert(u.push(Seq::<BufElem>::empty()).drop_last() == u);
            assert(flatten(u) + Seq::<BufElem>::empty() == flatten(u));
            assert forall|r: int| 0 <= r < u.len() implies #[trigger] line_wf(u[r]) by {
                if r < last {
                    assert(u[r] == ls.drop_last()[r]);
                } else {
                    assert(u[r] == nl);
                    assert(nl.last() == BufElem::Eol);
                    assert forall|i: int| 0 <= i < nl.len() - 1 implies nl[i] != BufElem::Eol by {
                        assert(nl[i] == ls[last][i]);
                    }
                }
            }
        } else {
            assert(lines_of(t) == u);
            assert forall|r: int| 0 <= r < u.drop_last().len() implies #[trigger] line_wf(u.drop_last()[r]) by {
                assert(u.drop_last()[r] == ls.drop_last()[r]);
            }
            assert forall|i: int| 0 <= i < nl.len() implies nl[i] != BufElem::Eol by {
                if i < ls[last].len() {
                    assert(nl[i] == ls[last][i]);
                }
            }
        }
        assert forall|r: int| 0 <= r < lines_of(t).len() implies (#[trigger] lines_of(t)[r]).len() <= t.len() by {
            if r < last {
                assert(lines_of(t)[r] == ls[r]);
            }
        }
    }
}

/// A line that ends with its only line end is one line, and an empty one after.
pub proof fn lemma_lines_of_line(l: Seq<BufElem>)
    requires
        line_wf(l),
    ensures
        lines_of(l) == seq![l, Seq::<BufElem>::empty()],
{
    let s = l.drop_last();
    lemma_lines_of_open(s);
    assert(s.push(BufElem::Eol) == l);
}

/// A text without line end is a single line.
pub proof fn lemma_lines_of_open(s: Seq<BufElem>)
    requires
        forall|i: int| 0 <= i < s.len() ==> s[i] != BufElem::Eol,
    ensures
        lines_of(s) == seq![s],
    decreases s.len(),
{
    if s.len() == 0 {
        assert(s == Seq::<BufElem>::empty());
    } else {
        lemma_lines_of_open(s.drop_last());
        assert(s.drop_last().push(s.last()) == s);
        assert(s.last() != BufElem::Eol);
        assert(seq![s.drop_last()].update(0, s.drop_last().push(s.last())) == seq![s]);
    }
}

/// The lines of a text that follows a line end: the lines before, then its own.
pub proof fn lemma_lines_of_concat(x: Seq<BufElem>, y: Seq<BufElem>)
    requires
        x.len() == 0 || ends_eol(x),
    ensures
        lines_of(x + y) == lines_of(x).drop_last() + lines_of(y),
    decreases y.len(),
{
    if y.len() == 0 {
        assert(x + y == x);
        if x.len() == 0 {
            assert(lines_of(x).drop_last() + lines_of(y) == lines_of(y));
        } else {
            lemma_lines_of(x);
            assert(lines_of(x).last() == Seq::<BufElem>::empty());
            assert(lines_of(x).drop_last().push(Seq::<BufElem>::empty()) == lines_of(x));
        }
    } else {
        lemma_lines_of_concat(x, y.drop_last());
        assert((x + y).drop_last() == x + y.drop_last());
        lemma_lines_of(y.drop_last());
        let a = lines_of(x).drop_last();
        let b = lines_of(y.drop_last());
        assert((a + b).len() - 1 == a.len() + b.len() - 1);
        let lb = b.len() - 1;
        if y.last() == BufElem::Eol {
            assert((a + b).update(a.len() + lb, (a + b)[a.len() + lb].push(BufElem::Eol)).push(Seq::empty())
                == a + b.update(lb, b[lb].push(BufElem::Eol)).push(Seq::empty()));
        } else {
            assert((a + b).update(a.len() + lb, (a + b)[a.len() + lb].push(y.last()))
                == a + b.update(lb, b[lb].push(y.last())));
        }
    }
}

/// The rows of the text of well-formed rows are those rows.
pub proof fn lemma_materialize_flatten(ls: Seq<Seq<BufElem>>)
    requires
        ls.len() >= 1,
        all_lines_wf(ls),
    ensures
        materialize(flatten(ls)) == ls,
        flatten(ls).len() == 0 || ends_eol(flatten(ls)),
    decreases ls.len(),
{
    let p = ls.drop_last();
    let l = ls.last();
    assert(line_wf(ls[ls.len() - 1]));
    lemma_flatten_push(p, l);
    assert(p.push(l) == ls);
    lemma_lines_of_line(l);
    if ls.len() == 1 {
        assert(flatten(p) == Seq::<BufElem>::empty());
        assert(flatten(ls) == l);
        assert(lines_of(l).drop_last() == ls);
    } else {
        assert(all_lines_wf(p)) by {
            assert forall|r: int| 0 <= r < p.len() implies #[trigger] line_wf(p[r]) by {
                assert(p[r] == ls[r]);
            }
        }
        lemma_materialize_flatten(p);
        assert(line_wf(p[p.len() - 1]));
        lemma_flatten_push(p.drop_last(), p.last());
        assert(p.drop_last().push(p.last()) == p);
        assert(flatten(p).len() > 0);
        lemma_lines_of_concat(flatten(p), l);
        let f = flatten(ls);
        assert(f == flatten(p) + l);
        assert(f.last() == l.last());
        assert(lines_of(flatten(p)).drop_last() == p);
        assert(lines_of(f) == p + seq![l, Seq::<BufElem>::empty()]);
        assert(lines_of(f).drop_last() == ls);
    }
}

/// The rows that a text ending with a line end materializes into are
/// well-formed, and hold the text.
pub proof fn lemma_materialize_wf(t: Seq<BufElem>)
    requires
        ends_eol(t),
    ensures
        all_lines_wf(materialize(t)),
        flatten(materialize(t)) == t,
        materialize(t).len() >= 1,
        materialize(t).len() <= t.len(),
        forall|r: int| 0 <= r < materialize(t).len() ==> (#[trigger] materialize(t)[r]).len() <= t.len(),
{
    lemma_lines_of(t);
    let ls = lines_of(t);
    lemma_flatten_push(ls.drop_last(), ls.last());
    assert(ls.drop_last().push(ls.last()) == ls);
    assert(flatten(ls.drop_last()) + Seq::<BufElem>::empty() == flatten(ls.drop_last()));
    if ls.len() == 1 {
        assert(flatten(ls.drop_last()) == Seq::<BufElem>::empty());
    }
    assert forall|r: int| 0 <= r < materialize(t).len() implies (#[trigger] materialize(t)[r]).len() <= t.len() by {
        assert(materialize(t)[r] == ls[r]);
    }
}

/// Flattening distributes over concatenation.
pub proof fn lemma_flatten_concat(a: Seq<Seq<BufElem>>, b: Seq<Seq<BufElem>>)
    ensures
        flatten(a + b) == flatten(a) + flatten(b),
    decreases b.len(),
{
    if b.len() == 0 {
        assert(a + b == a);
        assert(flatten(a) + Seq::<BufElem>::empty() == flatten(a));
    } else {
        lemma_flatten_concat(a, b.drop_last());
        assert((a + b).drop_last() == a + b.drop_last());
        assert(b.drop_last().push(b.last()) == b);
        lemma_flatten_push(b.drop_last(), b.last());
    }
}

/// The length of the first `k` rows.
pub open spec fn prefix_len(ls: Seq<Seq<BufElem>>, k: int) -> int {
    flatten(ls.take(k)).len() as int
}

pub proof fn lemma_prefix_step(ls: Seq<Seq<BufElem>>, k: int)
    requires
        0 <= k < ls.len(),
    ensures
        flatten(ls.take(k + 1)) == flatten(ls.take(k)) + ls[k],
        prefix_len(ls, k + 1) == prefix_len(ls, k) + ls[k].len(),
{
    assert(ls.take(k + 1) == ls.take(k).push(ls[k]));
    lemma_flatten_push(ls.take(k), ls[k]);
}

/// Longer prefixes are longer.
pub proof fn lemma_prefix_mono(ls: Seq<Seq<BufElem>>, j: int, k: int)
    requires
        0 <= j <= k <= ls.len(),
    ensures
        prefix_len(ls, j) <= prefix_len(ls, k),
        flatten(ls.take(k)).take(prefix_len(ls, j)) == flatten(ls.take(j)),
    decreases k - j,
{
    if j < k {
        lemma_prefix_mono(ls, j, k - 1);
        lemma_prefix_step(ls, k - 1);
        let f = flatten(ls.take(k - 1));
        assert((f + ls[k - 1]).take(prefix_len(ls, j)) == f.take(prefix_len(ls, j)));
    } else {
        assert(flatten(ls.take(k)).take(prefix_len(ls, j)) == flatten(ls.take(j)));
    }
}

/// The element at column `c` of row `r` stands at `prefix_len(r) + c` of the
/// flattened rows.
pub proof fn lemma_flatten_index(ls: Seq<Seq<BufElem>>, r: int, c: int)
    requires
        0 <= r < ls.len(),
        0 <= c < ls[r].len(),
    ensures
        prefix_len(ls, r) + c < flatten(ls).len(),
        flatten(ls)[prefix_len(ls, r) + c] == ls[r][c],
{
    lemma_prefix_step(ls, r);
    lemma_prefix_mono(ls, r + 1, ls.len() as int);
    assert(ls.take(ls.len() as int) == ls);
    let f = flatten(ls.take(r + 1));
    assert(f[prefix_len(ls, r) + c] == ls[r][c]);
    assert(flatten(ls).take(f.len() as int) == f);
    assert(flatten(ls)[prefix_len(ls, r) + c] == f[prefix_len(ls, r) + c]);
}

/// The offset of a cursor in the text of the rows.
pub open spec fn offset(ls: Seq<Seq<BufElem>>, c: Cursor) -> int {
    prefix_len(ls, c.row as int) + c.col
}

/// The text after an edit at offset `o`: `n` elements replaced by `ins`.
pub open spec fn replace(t: Seq<BufElem>, o: int, n: int, ins: Seq<BufElem>) -> Seq<BufElem> {
    t.take(o) + ins + t.skip(o + n)
}

/// Replacing back what was replaced gives back the text.
pub proof fn lemma_replace_back(t: Seq<BufElem>, o: int, del: Seq<BufElem>, ins: Seq<BufElem>)
    requires
        0 <= o,
        o + del.len() <= t.len(),
        t.subrange(o, o + del.len()) == del,
    ensures
        replace(replace(t, o, del.len() as int, ins), o, ins.len() as int, del) == t,
{
    let u = replace(t, o, del.len() as int, ins);
    assert(u.take(o) == t.take(o));
    assert(u.skip(o + ins.len()) == t.skip(o + del.len()));
    assert(t.take(o) + del + t.skip(o + del.len()) == t);
}


/// The first line of a text that has no line end among its first `c`
/// elements, and more than `c` elements, is longer than `c`.
pub proof fn lemma_first_line(t: Seq<BufElem>, c: int)
    requires
        0 <= c < t.len(),
        forall|i: int| 0 <= i < c ==> t[i] != BufElem::Eol,
    ensures
        lines_of(t)[0].len() > c,
        materialize(t)[0] == lines_of(t)[0],
    decreases t.len(),
{
    let s = t.drop_last();
    lemma_lines_of(s);
    lemma_lines_of(t);
    if t.len() == c + 1 {
        lemma_lines_of_open(s);
        assert(lines_of(s) == seq![s]);
        if t.last() == BufElem::Eol {
            assert(lines_of(t)[0] == s.push(BufElem::Eol));
        } else {
            assert(lines_of(t)[0] == s.push(t.last()));
        }
    } else {
        lemma_first_line(s, c);
        let ls = lines_of(s);
        if ls.len() == 1 {
            assert(lines_of(t)[0] == ls[0].push(t.last()));
        } else {
            assert(lines_of(t)[0] == ls[0]);
        }
    }
    if ends_eol(t) {
        assert(lines_of(t).len() >= 2);
    }
}

/// The rows of a text that follows the text of well-formed rows: those rows,
/// then its own.
pub proof fn lemma_materialize_concat(p: Seq<Seq<BufElem>>, t: Seq<BufElem>)
    requires
        all_lines_wf(p),
        t.len() > 0,
    ensures
        materialize(flatten(p) + t) == p + materialize(t),
{
    if p.len() == 0 {
        assert(flatten(p) == Seq::<BufElem>::empty());
        assert(flatten(p) + t == t);
    } else {
        lemma_materialize_flatten(p);
        assert(line_wf(p[p.len() - 1]));
        lemma_flatten_push(p.drop_last(), p.last());
        assert(p.drop_last().push(p.last()) == p);
        assert(ends_eol(flatten(p)));
        lemma_lines_of_concat(flatten(p), t);
        assert(lines_of(flatten(p)).drop_last() == p);
        assert((flatten(p) + t).last() == t.last());
        if ends_eol(t) {
            lemma_lines_of(t);
            assert((p + lines_of(t)).drop_last() == p + lines_of(t).drop_last());
        }
    }
}


/// The rows of a text ending with a line end, between the texts of
/// well-formed rows.
pub proof fn lemma_materialize_sandwich(p: Seq<Seq<BufElem>>, t: Seq<BufElem>, s: Seq<Seq<BufElem>>)
    requires
        all_lines_wf(p),
        all_lines_wf(s),
        ends_eol(t),
    ensures
        materialize(flatten(p) + t + flatten(s)) == p + materialize(t) + s,
        flatten(p + materialize(t) + s) == flatten(p) + t + flatten(s),
{
    let x = t + flatten(s);
    assert(flatten(p) + t + flatten(s) == flatten(p) + x);
    lemma_materialize_concat(p, x);
    if s.len() == 0 {
        assert(flatten(s) == Seq::<BufElem>::empty());
        assert(x == t);
        assert(p + materialize(t) + s == p + materialize(t));
    } else {
        lemma_materialize_flatten(s);
        assert(line_wf(s[s.len() - 1]));
        lemma_flatten_push(s.drop_last(), s.last());
        assert(s.drop_last().push(s.last()) == s);
        assert(flatten(s).len() > 0);
        lemma_lines_of_concat(t, flatten(s));
        lemma_lines_of(flatten(s));
        assert(x.last() == flatten(s).last());
        let a = lines_of(t).drop_last();
        let b = lines_of(flatten(s));
        assert((a + b).drop_last() == a + b.drop_last());
        assert(materialize(x) == materialize(t) + s);
        assert(p + (materialize(t) + s) == p + materialize(t) + s);
    }
    lemma_materialize_wf(t);
    lemma_flatten_concat(p + materialize(t), s);
    lemma_flatten_concat(p, materialize(t));
}


/// The leading indentation is part of the line.
pub proof fn lemma_leading_indent_le(s: Seq<BufElem>)
    ensures
        super::indent::indent_len(s) <= s.len(),
    decreases s.len(),
{
    if s.len() > 0 && super::indent::is_indent_char(s[0]) {
        lemma_leading_indent_le(s.drop_first());
    }
}

} // verus!
