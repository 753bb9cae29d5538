use vstd::prelude::*;
use crate::read_buffer::{BufElem, flatten, pieces, text_rows, ended_rows, to_line, char_elems, strip_cr, spec_read_from_string};
use crate::read_buffer::search::line_wf;
use crate::edit_buffer::clipboard::text_of_elems;

verus! {

/// The characters of a row, without its line end.
pub open spec fn row_chars(row: Seq<BufElem>) -> Seq<char> {
    text_of_elems(row.drop_last())
}

/// A row that a file keeps as it is: a line with no newline character in
/// it and no carriage return just before its end.
pub open spec fn row_keeps(row: Seq<BufElem>) -> bool {
    &&& line_wf(row)
    &&& forall|i: int| 0 <= i < row.len() - 1 ==> row[i] != BufElem::Char('\n')
    &&& row.len() >= 2 ==> row[row.len() - 2] != BufElem::Char('\r')
}

proof fn lemma_text_concat(a: Seq<BufElem>, b: Seq<BufElem>)
    ensures
        text_of_elems(a + b) == text_of_elems(a) + text_of_elems(b),
{
    assert(text_of_elems(a + b) =~= text_of_elems(a) + text_of_elems(b));
}

/// Splitting a concatenation at the newlines: the last piece of the first
/// part joins the first piece of the second.
proof fn lemma_pieces_concat(x: Seq<char>, y: Seq<char>)
    ensures
        pieces(x + y) == pieces(x).drop_last() + seq![pieces(x).last() + pieces(y)[0]] + pieces(y).drop_first(),
    decreases y.len(),
{
    crate::read_buffer::lemma_pieces_nonempty(x);
    crate::read_buffer::lemma_pieces_nonempty(y);
    let px = pieces(x);
    if y.len() == 0 {
        assert(x + y == x);
        assert(pieces(y) == seq![Seq::<char>::empty()]);
        assert(px.last() + Seq::<char>::empty() == px.last());
        assert(px.drop_last() + seq![px.last()] == px);
        assert(pieces(y).drop_first() == Seq::<Seq<char>>::empty());
        assert(pieces(x + y) == px.drop_last() + seq![px.last() + pieces(y)[0]] + pieces(y).drop_first());
    } else {
        let y1 = y.drop_last();
        let c = y.last();
        lemma_pieces_concat(x, y1);
        crate::read_buffer::lemma_pieces_nonempty(y1);
        let py1 = pieces(y1);
        let a = px.drop_last();
        let m = px.last() + py1[0];
        let b1 = py1.drop_first();
        assert((x + y).drop_last() == x + y1);
        assert((x + y).last() == c);
        assert(y1.push(c) == y);
        let p1 = pieces(x + y1);
        assert(p1 == a + seq![m] + b1);
        if c == '\n' {
            assert(pieces(x + y) == p1.push(Seq::empty()));
            assert(pieces(y) == py1.push(Seq::empty()));
            assert(pieces(y)[0] == py1[0]);
            assert(pieces(y).drop_first() == b1.push(Seq::empty()));
            assert(pieces(x + y) =~= a + seq![px.last() + pieces(y)[0]] + pieces(y).drop_first());
        } else {
            assert(pieces(x + y) == p1.update(p1.len() - 1, p1.last().push(c)));
            assert(pieces(y) == py1.update(py1.len() - 1, py1.last().push(c)));
            if py1.len() == 1 {
                assert(p1.last() == m);
                assert(pieces(y)[0] == py1[0].push(c));
                assert(px.last() + py1[0].push(c) == m.push(c));
                assert(pieces(y).drop_first() =~= Seq::<Seq<char>>::empty());
                assert(pieces(x + y) =~= a + seq![px.last() + pieces(y)[0]] + pieces(y).drop_first());
            } else {
                assert(p1.last() == py1.last());
                assert(pieces(y)[0] == py1[0]);
                assert(pieces(y).drop_first() =~= b1.update(b1.len() - 1, b1.last().push(c)));
                assert(pieces(x + y) =~= a + seq![px.last() + pieces(y)[0]] + pieces(y).drop_first());
            }
        }
    }
}

/// Text without a newline is a single piece.
proof fn lemma_pieces_no_newline(cs: Seq<char>)
    requires
        forall|i: int| 0 <= i < cs.len() ==> cs[i] != '\n',
    ensures
        pieces(cs) == seq![cs],
    decreases cs.len(),
{
    if cs.len() > 0 {
        lemma_pieces_no_newline(cs.drop_last());
        assert(cs.drop_last().push(cs.last()) == cs);
    } else {
        assert(cs == Seq::<char>::empty());
    }
}

/// The characters of a row followed by a newline are the text of the row.
proof fn lemma_row_text(row: Seq<BufElem>)
    requires
        row_keeps(row),
    ensures
        text_of_elems(row) == row_chars(row).push('\n'),
        pieces(text_of_elems(row)) == seq![row_chars(row), Seq::<char>::empty()],
{
    assert(row == row.drop_last().push(BufElem::Eol));
    lemma_text_concat(row.drop_last(), seq![BufElem::Eol]);
    assert(text_of_elems(seq![BufElem::Eol]) =~= seq!['\n']);
    let cs = row_chars(row);
    assert forall|i: int| 0 <= i < cs.len() implies cs[i] != '\n' by {
        assert(row[i] != BufElem::Eol);
        assert(row[i] != BufElem::Char('\n'));
    }
    lemma_pieces_no_newline(cs);
    let t = cs.push('\n');
    assert(t.drop_last() == cs);
    assert(t.last() == '\n');
    assert(pieces(t) == pieces(cs).push(Seq::<char>::empty()));
    assert(pieces(t) =~= seq![cs, Seq::<char>::empty()]);
    assert(text_of_elems(row) =~= t);
}

/// The pieces of the text of the rows: the characters of each row, then an
/// empty piece after the last newline.
proof fn lemma_pieces_of_rows(rs: Seq<Seq<BufElem>>)
    requires
        forall|r: int| 0 <= r < rs.len() ==> #[trigger] row_keeps(rs[r]),
    ensures
        pieces(text_of_elems(flatten(rs))) == Seq::new(rs.len(), |i: int| row_chars(rs[i])).push(Seq::<char>::empty()),
    decreases rs.len(),
{
    if rs.len() == 0 {
        assert(text_of_elems(flatten(rs)) =~= Seq::<char>::empty());
        assert(Seq::new(rs.len(), |i: int| row_chars(rs[i])) =~= Seq::<Seq<char>>::empty());
    } else {
        let r1 = rs.drop_last();
        let l = rs.last();
        assert forall|r: int| 0 <= r < r1.len() implies #[trigger] row_keeps(r1[r]) by {
            assert(r1[r] == rs[r]);
        }
        lemma_pieces_of_rows(r1);
        assert(row_keeps(rs[rs.len() - 1]));
        lemma_row_text(l);
        lemma_text_concat(flatten(r1), l);
        let t1 = text_of_elems(flatten(r1));
        lemma_pieces_concat(t1, text_of_elems(l));
        let c1 = Seq::new(r1.len(), |i: int| row_chars(r1[i]));
        assert(pieces(t1).drop_last() == c1);
        assert(pieces(t1).last() == Seq::<char>::empty());
        assert(Seq::<char>::empty() + row_chars(l) == row_chars(l));
        assert(Seq::new(rs.len(), |i: int| row_chars(rs[i])) =~= c1.push(row_chars(l)));
        assert(pieces(text_of_elems(flatten(rs))) =~= c1.push(row_chars(l)).push(Seq::<char>::empty()));
    }
}

/// A row made of its characters is the row again.
proof fn lemma_char_elems_row(row: Seq<BufElem>)
    requires
        row_keeps(row),
    ensures
        to_line(strip_cr(row_chars(row))) == row,
{
    let cs = row_chars(row);
    assert(strip_cr(cs) == cs) by {
        if cs.len() > 0 {
            assert(row[row.len() - 2] != BufElem::Eol);
            assert(cs.last() != '\r');
        }
    }
    lemma_char_elems_prefix(row.drop_last(), cs.len() as int);
    assert(cs.take(cs.len() as int) == cs);
    assert(row.drop_last().take(cs.len() as int) == row.drop_last());
    assert(row.drop_last().push(BufElem::Eol) == row);
}

/// The elements of the first `k` characters of a row of characters.
proof fn lemma_char_elems_prefix(es: Seq<BufElem>, k: int)
    requires
        0 <= k <= es.len(),
        forall|i: int| 0 <= i < es.len() ==> es[i] != BufElem::Eol,
    ensures
        char_elems(text_of_elems(es).take(k)) == es.take(k),
    decreases k,
{
    if k > 0 {
        lemma_char_elems_prefix(es, k - 1);
        let t = text_of_elems(es).take(k);
        assert(t.drop_last() == text_of_elems(es).take(k - 1));
        let e = es[k - 1];
        match e {
            BufElem::Char(c) => {
                assert(t.last() == c);
            },
            BufElem::Eol => {},
        }
        assert(es.take(k) == es.take(k - 1).push(e));
    } else {
        assert(text_of_elems(es).take(0) == Seq::<char>::empty());
        assert(es.take(0) == Seq::<BufElem>::empty());
    }
}

/// The rows that the pieces give, piece by piece.
proof fn lemma_ended_rows(rs: Seq<Seq<BufElem>>)
    requires
        forall|r: int| 0 <= r < rs.len() ==> #[trigger] row_keeps(rs[r]),
    ensures
        ended_rows(Seq::new(rs.len(), |i: int| row_chars(rs[i]))) == rs,
    decreases rs.len(),
{
    if rs.len() > 0 {
        let r1 = rs.drop_last();
        assert forall|r: int| 0 <= r < r1.len() implies #[trigger] row_keeps(r1[r]) by {
            assert(r1[r] == rs[r]);
        }
        lemma_ended_rows(r1);
        let c = Seq::new(rs.len(), |i: int| row_chars(rs[i]));
        assert(c.drop_last() =~= Seq::new(r1.len(), |i: int| row_chars(r1[i])));
        assert(row_keeps(rs[rs.len() - 1]));
        lemma_char_elems_row(rs.last());
        assert(r1.push(rs.last()) == rs);
    } else {
        assert(Seq::new(rs.len(), |i: int| row_chars(rs[i])) =~= Seq::<Seq<char>>::empty());
    }
}

/// Reading back the text that a buffer is saved as gives back its rows,
/// when no row holds a newline character or ends with a carriage return:
/// `normalize::buffer_text` writes the rows `rs` as
/// `text_of_elems(flatten(rs))`, and `read_buffer::read_from_string` of that
/// text gives `spec_read_from_string` of it, which is `rs`.
pub proof fn law_save_then_read(rs: Seq<Seq<BufElem>>)
    requires
        rs.len() >= 1,
        forall|r: int| 0 <= r < rs.len() ==> #[trigger] row_keeps(rs[r]),
    ensures
        spec_read_from_string(Some(text_of_elems(flatten(rs)))) == rs,
{
    let t = text_of_elems(flatten(rs));
    lemma_pieces_of_rows(rs);
    lemma_ended_rows(rs);
    let c = Seq::new(rs.len(), |i: int| row_chars(rs[i]));
    assert(pieces(t).drop_last() == c);
    assert(pieces(t).last() == Seq::<char>::empty());
    assert(text_rows(t) == rs);
    assert(rs.len() >= 1);
    assert(row_keeps(rs[0]));
    assert(flatten(rs).len() >= 1) by {
        crate::edit_buffer::text::lemma_flatten_concat(seq![rs[0]], rs.skip(1));
        assert(seq![rs[0]] + rs.skip(1) == rs);
        assert(seq![rs[0]].drop_last() == Seq::<Seq<BufElem>>::empty());
    }
}

/// A text whose last line has no newline after it reads as the same rows
/// as the text with that newline: each line, the unterminated last one
/// included, is one row of its characters followed by a line end. Stated for
/// rows that a file keeps whose last row holds a character, so that the text
/// without its final newline is the saved text minus that newline.
pub proof fn law_read_unterminated_last_line(rs: Seq<Seq<BufElem>>)
    requires
        rs.len() >= 1,
        forall|r: int| 0 <= r < rs.len() ==> #[trigger] row_keeps(rs[r]),
        rs.last().len() >= 2,
    ensures
        spec_read_from_string(Some(text_of_elems(flatten(rs)).drop_last())) == rs,
        text_of_elems(flatten(rs)).last() == '\n',
{
    let t = text_of_elems(flatten(rs));
    let r1 = rs.drop_last();
    let l = rs.last();
    assert(r1.push(l) == rs);
    crate::read_buffer::lemma_flatten_push(r1, l);
    assert(row_keeps(rs[rs.len() - 1]));
    assert(flatten(rs).last() == BufElem::Eol);
    assert(t.last() == '\n');
    let t1 = t.drop_last();
    assert(t1.push('\n') =~= t);
    assert(pieces(t) == pieces(t1).push(Seq::<char>::empty()));
    lemma_pieces_of_rows(rs);
    let c = Seq::new(rs.len(), |i: int| row_chars(rs[i]));
    assert(pieces(t).drop_last() == pieces(t1));
    assert(c.push(Seq::<char>::empty()).drop_last() =~= c);
    assert(pieces(t1) == c);
    assert(c.last() == row_chars(l));
    assert(row_chars(l).len() >= 1);
    assert forall|r: int| 0 <= r < r1.len() implies #[trigger] row_keeps(r1[r]) by {
        assert(r1[r] == rs[r]);
    }
    lemma_ended_rows(r1);
    assert(c.drop_last() =~= Seq::new(r1.len(), |i: int| row_chars(r1[i])));
    lemma_char_elems_row(l);
    assert(strip_cr(row_chars(l)) == row_chars(l)) by {
        assert(l[l.len() - 2] != BufElem::Char('\r'));
        assert(row_chars(l).last() == match l[l.len() - 2] {
            BufElem::Char(x) => x,
            BufElem::Eol => '\n',
        });
    }
    assert(text_rows(t1) == r1.push(l));
    assert(t1.len() > 0);
}

/// The text of rows written with `\r\n` line ends: each row's characters,
/// then a carriage return and a newline.
pub open spec fn crlf_text(rs: Seq<Seq<BufElem>>) -> Seq<char>
    decreases rs.len(),
{
    if rs.len() == 0 {
        Seq::empty()
    } else {
        crlf_text(rs.drop_last()) + row_chars(rs.last()) + seq!['\r', '\n']
    }
}

/// The pieces of the `\r\n` text of a row: its characters and the carriage
/// return, then nothing after the newline.
proof fn lemma_crlf_row(row: Seq<BufElem>)
    requires
        row_keeps(row),
    ensures
        pieces(row_chars(row) + seq!['\r', '\n']) == seq![row_chars(row).push('\r'), Seq::<char>::empty()],
{
    let cs = row_chars(row);
    assert forall|i: int| 0 <= i < cs.len() implies cs[i] != '\n' by {
        assert(row[i] != BufElem::Eol);
        assert(row[i] != BufElem::Char('\n'));
    }
    let c1 = cs.push('\r');
    assert forall|i: int| 0 <= i < c1.len() implies c1[i] != '\n' by {
        if i < cs.len() {
            assert(c1[i] == cs[i]);
        }
    }
    lemma_pieces_no_newline(c1);
    let t = c1.push('\n');
    assert(t == cs + seq!['\r', '\n']);
    assert(t.drop_last() == c1);
    assert(pieces(t) == pieces(c1).push(Seq::<char>::empty()));
    assert(pieces(t) =~= seq![c1, Seq::<char>::empty()]);
}

proof fn lemma_pieces_of_crlf(rs: Seq<Seq<BufElem>>)
    requires
        forall|r: int| 0 <= r < rs.len() ==> #[trigger] row_keeps(rs[r]),
    ensures
        pieces(crlf_text(rs)) == Seq::new(rs.len(), |i: int| row_chars(rs[i]).push('\r')).push(Seq::<char>::empty()),
    decreases rs.len(),
{
    if rs.len() == 0 {
        assert(crlf_text(rs) =~= Seq::<char>::empty());
        assert(Seq::new(rs.len(), |i: int| row_chars(rs[i]).push('\r')) =~= Seq::<Seq<char>>::empty());
    } else {
        let r1 = rs.drop_last();
        let l = rs.last();
        assert forall|r: int| 0 <= r < r1.len() implies #[trigger] row_keeps(r1[r]) by {
            assert(r1[r] == rs[r]);
        }
        lemma_pieces_of_crlf(r1);
        assert(row_keeps(rs[rs.len() - 1]));
        lemma_crlf_row(l);
        let t1 = crlf_text(r1);
        let x = row_chars(l) + seq!['\r', '\n'];
        assert(crlf_text(rs) == t1 + x);
        lemma_pieces_concat(t1, x);
        let c1 = Seq::new(r1.len(), |i: int| row_chars(r1[i]).push('\r'));
        assert(pieces(t1).drop_last() == c1);
        assert(pieces(t1).last() == Seq::<char>::empty());
        assert(Seq::<char>::empty() + row_chars(l).push('\r') == row_chars(l).push('\r'));
        assert(Seq::new(rs.len(), |i: int| row_chars(rs[i]).push('\r')) =~= c1.push(row_chars(l).push('\r')));
        assert(pieces(crlf_text(rs)) =~= c1.push(row_chars(l).push('\r')).push(Seq::<char>::empty()));
    }
}

proof fn lemma_ended_crlf_rows(rs: Seq<Seq<BufElem>>)
    requires
        forall|r: int| 0 <= r < rs.len() ==> #[trigger] row_keeps(rs[r]),
    ensures
        ended_rows(Seq::new(rs.len(), |i: int| row_chars(rs[i]).push('\r'))) == rs,
    decreases rs.len(),
{
    if rs.len() > 0 {
        let r1 = rs.drop_last();
        assert forall|r: int| 0 <= r < r1.len() implies #[trigger] row_keeps(r1[r]) by {
            assert(r1[r] == rs[r]);
        }
        lemma_ended_crlf_rows(r1);
        let c = Seq::new(rs.len(), |i: int| row_chars(rs[i]).push('\r'));
        assert(c.drop_last() =~= Seq::new(r1.len(), |i: int| row_chars(r1[i]).push('\r')));
        assert(row_keeps(rs[rs.len() - 1]));
        lemma_char_elems_row(rs.last());
        assert(strip_cr(c.last()) == row_chars(rs.last()));
        assert(strip_cr(row_chars(rs.last())) == row_chars(rs.last())) by {
            let cs = row_chars(rs.last());
            let l = rs.last();
            if cs.len() > 0 {
                assert(l[l.len() - 2] != BufElem::Char('\r'));
                assert(cs.last() == match l[l.len() - 2] {
                    BufElem::Char(x) => x,
                    BufElem::Eol => '\n',
                });
            }
        }
        assert(r1.push(rs.last()) == rs);
    } else {
        assert(Seq::new(rs.len(), |i: int| row_chars(rs[i]).push('\r')) =~= Seq::<Seq<char>>::empty());
    }
}

/// A text with `\r\n` line ends reads as the same rows as with `\n`
/// ones: the carriage return before each newline is not part of the line.
pub proof fn law_read_crlf(rs: Seq<Seq<BufElem>>)
    requires
        rs.len() >= 1,
        forall|r: int| 0 <= r < rs.len() ==> #[trigger] row_keeps(rs[r]),
    ensures
        spec_read_from_string(Some(crlf_text(rs))) == rs,
{
    let t = crlf_text(rs);
    lemma_pieces_of_crlf(rs);
    lemma_ended_crlf_rows(rs);
    let c = Seq::new(rs.len(), |i: int| row_chars(rs[i]).push('\r'));
    assert(pieces(t).drop_last() == c);
    assert(pieces(t).last() == Seq::<char>::empty());
    assert(text_rows(t) == rs);
    assert(t.len() >= 2) by {
        assert(t == crlf_text(rs.drop_last()) + row_chars(rs.last()) + seq!['\r', '\n']);
    }
}

} // verus!
