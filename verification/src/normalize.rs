use vstd::prelude::*;
use crate::read_buffer::{BufElem, Cursor, Line, rows, flatten, is_blank, spec_read_from_string};
use crate::save_load::row_keeps;
use crate::read_buffer::search::line_wf;
use crate::edit_buffer::clipboard::text_of_elems;

verus! {

/// The last row longer than its line end, or the first row when none is.
pub open spec fn last_long_row(b: Seq<Seq<BufElem>>) -> int {
    if exists|r: int| 0 <= r < b.len() && b[r].len() > 1 {
        choose|r: int| 0 <= r < b.len() && b[r].len() > 1 && forall|q: int| r < q < b.len() ==> b[q].len() <= 1
    } else {
        0
    }
}

/// The first element of the line that is neither a space nor a tab.
pub open spec fn first_non_blank(l: Seq<BufElem>) -> int {
    choose|i: int| 0 <= i < l.len() && !is_blank(l[i]) && forall|j: int| 0 <= j < i ==> is_blank(l[j])
}

/// The cursor brought onto the text: no lower than the last row with text,
/// not left of the line's indentation, not right of its line end.
pub open spec fn spec_normalize_cursor(c: Cursor, b: Seq<Seq<BufElem>>) -> Cursor {
    let max_row = last_long_row(b);
    let row = if c.row > max_row { max_row } else { c.row as int };
    let l = b[row];
    let lo = first_non_blank(l);
    let col = if c.col < lo { lo } else { c.col as int };
    let col = if col > l.len() - 1 { l.len() - 1 } else { col };
    Cursor { row: row as usize, col: col as usize }
}

/// Brings the cursor onto the text of the buffer.
pub fn normalize_cursor(cursor: Cursor, buf: &Vec<Vec<BufElem>>) -> (r: Cursor)
    requires
        buf@.len() >= 1,
        forall|i: int| 0 <= i < buf@.len() ==> line_wf(#[trigger] rows(buf@)[i]),
    ensures
        r == spec_normalize_cursor(cursor, rows(buf@)),
{
    let ghost b = rows(buf@);
    let n = buf.len();
    let mut k: usize = n;
    while k > 0
        invariant
            k <= n,
            n == b.len(),
            b == rows(buf@),
            forall|q: int| k <= q < n ==> b[q].len() <= 1,
        ensures
            k == 0 || b[k - 1].len() > 1,
        decreases k,
    {
        if buf[k - 1].len() > 1 {
            assert(b[k - 1] == buf@[k - 1]@);
            break;
        }
        assert(b[k - 1] == buf@[k - 1]@);
        k = k - 1;
    }
    let max_row: usize = if k == 0 { 0 } else { k - 1 };
    proof {
        if k > 0 {
            assert(b[k - 1].len() > 1);
            let c = choose|r: int| 0 <= r < b.len() && b[r].len() > 1 && forall|q: int| r < q < b.len() ==> b[q].len() <= 1;
            if c < k - 1 {
                assert(b[k - 1].len() <= 1);
            }
            if c > k - 1 {
            }
            assert(last_long_row(b) == k - 1);
        } else {
            assert(last_long_row(b) == 0);
        }
    }
    let mut c = cursor;
    if c.row > max_row {
        c.row = max_row;
    }
    let line = Line::new(buf[c.row].as_slice());
    assert(line@ == b[c.row as int]);
    assert(line_wf(b[c.row as int]));
    assert(!is_blank(line@[line@.len() - 1]));
    let lo = line.first_non_space_index();
    proof {
        let l = b[c.row as int];
        let f = choose|i: int| 0 <= i < l.len() && !is_blank(l[i]) && forall|j: int| 0 <= j < i ==> is_blank(l[j]);
        if f < lo {
        }
        if f > lo {
        }
        assert(first_non_blank(l) == lo);
    }
    if c.col < lo {
        c.col = lo;
    }
    let len = buf[c.row].len();
    if c.col > len - 1 {
        c.col = len - 1;
    }
    c
}

/// What `buffer_text` writes for a buffer, `read_from_string` reads back as
/// the same rows, when no row holds a newline character or ends with a
/// carriage return; and no text, or an empty one, reads as one empty line.
pub proof fn law_buffer_text_then_read(buf: Seq<Vec<BufElem>>)
    requires
        buf.len() >= 1,
        forall|r: int| 0 <= r < buf.len() ==> #[trigger] row_keeps(buf[r]@),
    ensures
        spec_read_from_string(Some(text_of_elems(flatten(rows(buf))))) == rows(buf),
        spec_read_from_string(None) == seq![seq![BufElem::Eol]],
        spec_read_from_string(Some(Seq::<char>::empty())) == seq![seq![BufElem::Eol]],
{
    assert forall|r: int| 0 <= r < rows(buf).len() implies #[trigger] row_keeps(rows(buf)[r]) by {
        assert(rows(buf)[r] == buf[r]@);
    }
    crate::save_load::law_save_then_read(rows(buf));
}

/// The text of a buffer, a newline for each line end, as it is written to
/// its file.
pub fn buffer_text(buf: &Vec<Vec<BufElem>>) -> (r: Vec<char>)
    ensures
        r@ == text_of_elems(flatten(rows(buf@))),
{
    let mut out: Vec<char> = Vec::new();
    let mut i: usize = 0;
    while i < buf.len()
        invariant
            i <= buf@.len(),
            out@ == text_of_elems(flatten(rows(buf@).take(i as int))),
        decreases buf@.len() - i,
    {
        let line = &buf[i];
        let ghost base = out@;
        let mut j: usize = 0;
        while j < line.len()
            invariant
                j <= line@.len(),
                out@ == base + text_of_elems(line@.take(j as int)),
            decreases line@.len() - j,
        {
            let c = match line[j] {
                BufElem::Char(c) => c,
                BufElem::Eol => '\n',
            };
            out.push(c);
            j = j + 1;
            assert(out@ =~= base + text_of_elems(line@.take(j as int)));
        }
        proof {
            assert(line@.take(line@.len() as int) == line@);
            assert(rows(buf@).take(i + 1).drop_last() == rows(buf@).take(i as int));
            assert(rows(buf@).take(i + 1).last() == line@);
            assert(text_of_elems(flatten(rows(buf@).take(i as int)) + line@) =~= text_of_elems(
                flatten(rows(buf@).take(i as int)),
            ) + text_of_elems(line@));
        }
        i = i + 1;
    }
    assert(rows(buf@).take(buf@.len() as int) == rows(buf@));
    out
}

} // verus!
