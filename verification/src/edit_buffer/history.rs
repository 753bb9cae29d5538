use vstd::prelude::*;
use crate::read_buffer::{BufElem, flatten, max_size};
use crate::read_buffer::search::line_wf;
use super::change_log::{ChangeLog, LogView, swapped};
use super::text::{
    materialize, all_lines_wf, lemma_materialize_wf, lemma_materialize_flatten, lemma_first_line,
    lemma_materialize_concat, lemma_flatten_concat, prefix_len, offset, replace, lemma_replace_back,
};

verus! {

/// The edit can be applied to the rows: it starts on an element, what it
/// deletes is there and ends before the final line end, and the result fits.
pub open spec fn applicable(ls: Seq<Seq<BufElem>>, l: LogView) -> bool {
    let t = flatten(ls);
    let o = offset(ls, l.at);
    &&& l.at.row < ls.len()
    &&& l.at.col < ls[l.at.row as int].len()
    &&& o + l.deleted.len() < t.len()
    &&& t.subrange(o, o + l.deleted.len()) == l.deleted
    &&& t.len() + l.inserted.len() + 1 <= max_size()
}

/// The rows after the edit.
pub open spec fn apply_rows(ls: Seq<Seq<BufElem>>, l: LogView) -> Seq<Seq<BufElem>> {
    materialize(replace(flatten(ls), offset(ls, l.at), l.deleted.len() as int, l.inserted))
}

/// Well-formed rows of bounded size.
pub open spec fn rows_wf(ls: Seq<Seq<BufElem>>) -> bool {
    &&& ls.len() >= 1
    &&& all_lines_wf(ls)
    &&& flatten(ls).len() <= max_size()
}

/// Each edit of the undo queue, newest first, can be taken back from the rows
/// that the ones after it leave.
pub open spec fn undo_chain(ls: Seq<Seq<BufElem>>, q: Seq<ChangeLog>) -> bool
    decreases q.len(),
{
    q.len() == 0 || (applicable(ls, swapped(q.last()@)) && undo_chain(
        apply_rows(ls, swapped(q.last()@)),
        q.drop_last(),
    ))
}

/// Each edit of the redo stack, top first, can be made again on the rows that
/// the ones above it leave.
pub open spec fn redo_chain(ls: Seq<Seq<BufElem>>, r: Seq<ChangeLog>) -> bool
    decreases r.len(),
{
    r.len() == 0 || (applicable(ls, r.last()@) && redo_chain(apply_rows(ls, r.last()@), r.drop_last()))
}

/// Applying an edit keeps the rows well formed, keeps the rows before it, and
/// leaves an edit that takes it back.
pub proof fn lemma_apply_rows(ls: Seq<Seq<BufElem>>, l: LogView)
    requires
        rows_wf(ls),
        applicable(ls, l),
    ensures
        ({
            let ls2 = apply_rows(ls, l);
            &&& rows_wf(ls2)
            &&& flatten(ls2) == replace(flatten(ls), offset(ls, l.at), l.deleted.len() as int, l.inserted)
            &&& ls2.take(l.at.row as int) == ls.take(l.at.row as int)
            &&& offset(ls2, l.at) == offset(ls, l.at)
            &&& applicable(ls2, swapped(l))
            &&& apply_rows(ls2, swapped(l)) == ls
        }),
{
    let t = flatten(ls);
    let o = offset(ls, l.at);
    let d = l.deleted.len() as int;
    let a = l.at.row as int;
    let p = ls.take(a);
    let s = ls.skip(a);
    let t2 = replace(t, o, d, l.inserted);
    assert(ls == p + s);
    lemma_flatten_concat(p, s);
    assert(all_lines_wf(p)) by {
        assert forall|i: int| 0 <= i < p.len() implies #[trigger] line_wf(p[i]) by {
            assert(p[i] == ls[i]);
        }
    }
    let fp = flatten(p);
    assert(fp.len() == prefix_len(ls, a));
    let row = ls[a];
    assert(line_wf(row));
    assert(s[0] == row);
    assert(s == seq![row] + s.skip(1));
    lemma_flatten_concat(seq![row], s.skip(1));
    assert(seq![row].drop_last() == Seq::<Seq<BufElem>>::empty());
    assert(flatten(Seq::<Seq<BufElem>>::empty()) == Seq::<BufElem>::empty());
    assert(Seq::<BufElem>::empty() + row == row);
    assert(flatten(seq![row]) == row);
    let rest2 = t2.skip(fp.len() as int);
    assert(t2 == fp + rest2);
    assert(rest2.len() > l.at.col);
    assert forall|i: int| 0 <= i < l.at.col implies rest2[i] != BufElem::Eol by {
        assert(rest2[i] == t[fp.len() + i]);
        assert(t[fp.len() + i] == row[i]);
    }
    lemma_first_line(rest2, l.at.col as int);
    lemma_materialize_concat(p, rest2);
    let ls2 = apply_rows(ls, l);
    assert(ls2 == p + materialize(rest2));
    lemma_materialize_flatten(ls);
    assert(ends_eol_of(t));
    assert(t2.last() == t.last());
    lemma_materialize_wf(t2);
    assert(ls2.take(a) == p);
    assert(ls2[a] == materialize(rest2)[0]);
    assert(flatten(ls2) == t2);
    assert(offset(ls2, l.at) == o);
    assert(t2.subrange(o, o + l.inserted.len()) == l.inserted);
    lemma_replace_back(t, o, l.deleted, l.inserted);
    assert(apply_rows(ls2, swapped(l)) == materialize(t));
}

/// Whether the text ends with a line end.
pub open spec fn ends_eol_of(t: Seq<BufElem>) -> bool {
    t.len() > 0 && t.last() == BufElem::Eol
}

/// Dropping the oldest edits keeps the undo queue consistent.
pub proof fn lemma_undo_chain_suffix(ls: Seq<Seq<BufElem>>, q: Seq<ChangeLog>, k: int)
    requires
        undo_chain(ls, q),
        0 <= k <= q.len(),
    ensures
        undo_chain(ls, q.skip(k)),
    decreases q.len(),
{
    if k < q.len() {
        assert(q.skip(k).last() == q.last());
        assert(q.skip(k).drop_last() == q.drop_last().skip(k));
        lemma_undo_chain_suffix(apply_rows(ls, swapped(q.last()@)), q.drop_last(), k);
    } else {
        assert(q.skip(k).len() == 0);
    }
}

/// Undoing an edit and redoing it gives back the rows; redoing and undoing too.
pub proof fn law_undo_redo(ls: Seq<Seq<BufElem>>, l: LogView)
    requires
        rows_wf(ls),
        applicable(ls, l),
    ensures
        apply_rows(apply_rows(ls, l), swapped(l)) == ls,
        applicable(apply_rows(ls, l), swapped(l)),
{
    lemma_apply_rows(ls, l);
}

/// Taking back the latest edit `u` and then making it again gives back the
/// rows it started from: undo followed by redo is no change.
pub proof fn law_undo_then_redo(ls: Seq<Seq<BufElem>>, u: LogView)
    requires
        rows_wf(ls),
        applicable(ls, swapped(u)),
    ensures
        apply_rows(apply_rows(ls, swapped(u)), u) == ls,
        rows_wf(apply_rows(ls, swapped(u))),
        applicable(apply_rows(ls, swapped(u)), u),
{
    lemma_apply_rows(ls, swapped(u));
    super::change_log::law_swap_involutive(u);
}

} // verus!
