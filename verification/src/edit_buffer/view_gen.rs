use vstd::prelude::*;
use crate::read_buffer::{BufElem, Cursor, max_size};
use crate::screen::Color;
use crate::view::{Area, DiffView, ViewElem, ViewElemDiff, CloneView, ToViewRef, OverlayView, AddCursor, TranslateView, elem_char};
use crate::view::View as _;
use super::snippet::{SnippetRepo, AddColor};
use super::EditBuffer;
use super::actions::{VisualRangeDiffView, compute_snippet_area, snippet_area_of, in_range};
use super::effects::{spec_visual_range, SNIPPET};
use crate::view::{LineNumber, MergeHorizontal, LINE_NUMBER_W, overlay};
use crate::read_buffer::search::{DiffView as SearchDiffView, search_diff, all_hits};
use vstd::math::min;

verus! {

/// The largest offset that a view can be moved by.
pub const I32_MAX: usize = 2147483647;

/// The area and a window at `(wcol, wrow)` of its size stay within the range
/// of the offsets that views are moved by.
pub open spec fn fits_offsets(area: Area, wcol: usize, wrow: usize) -> bool {
    &&& area.col + area.width <= I32_MAX
    &&& area.row + area.height <= I32_MAX
    &&& wcol + area.width <= I32_MAX
    &&& wrow + area.height <= I32_MAX
}

pub(crate) fn check_offsets(area: &Area, wcol: usize, wrow: usize) -> (r: bool)
    ensures
        r == fits_offsets(*area, wcol, wrow),
{
    area.col <= I32_MAX && area.width <= I32_MAX - area.col && area.row <= I32_MAX && area.height <= I32_MAX - area.row
        && wcol <= I32_MAX && area.width <= I32_MAX - wcol && wrow <= I32_MAX && area.height <= I32_MAX - wrow
}

/// The character that rows `ls` show at `(c, w)`: a blank off the text.
pub open spec fn buf_char(ls: Seq<Seq<BufElem>>, c: int, w: int) -> char {
    if 0 <= w < ls.len() && 0 <= c < ls[w].len() {
        elem_char(ls[w][c])
    } else {
        ' '
    }
}

/// The layer that shows a tab as a blank on red.
pub struct TabDiffView<'a> {
    pub buf: &'a [Vec<BufElem>],
}

/// Whether rows `ls` hold a tab at `(c, w)`.
pub open spec fn tab_at(ls: Seq<Vec<BufElem>>, c: usize, w: usize) -> bool {
    w < ls.len() && c < ls[w as int]@.len() && ls[w as int]@[c as int] == BufElem::Char('\t')
}

impl<'a> DiffView for TabDiffView<'a> {
    open spec fn diff_covers(&self, col: usize, row: usize) -> bool {
        true
    }

    open spec fn spec_diff(&self, col: usize, row: usize) -> ViewElemDiff {
        if tab_at(self.buf@, col, row) {
            (Some(' '), None, Some(Color::Red))
        } else {
            (None, None, None)
        }
    }

    fn get(&self, col: usize, row: usize) -> (r: ViewElemDiff) {
        if row < self.buf.len() && col < self.buf[row].len() {
            match self.buf[row][col] {
                BufElem::Char(c) => {
                    if c == '\t' {
                        return (Some(' '), None, Some(Color::Red));
                    }
                },
                BufElem::Eol => {},
            }
        }
        (None, None, None)
    }
}

/// A view shown over another in its own area, as a layer.
pub struct PopupDiffView {
    pub view: Option<CloneView>,
}

/// What a popup puts over a cell.
pub open spec fn popup_diff(view: Option<CloneView>, col: usize, row: usize) -> ViewElemDiff {
    match view {
        Some(v) => if v.covers(col, row) {
            let e = v.spec_get(col, row);
            (Some(e.0), Some(e.1), Some(e.2))
        } else {
            (None, None, None)
        },
        None => (None, None, None),
    }
}

impl DiffView for PopupDiffView {
    open spec fn diff_covers(&self, col: usize, row: usize) -> bool {
        self.view matches Some(v) ==> v.inv()
    }

    open spec fn spec_diff(&self, col: usize, row: usize) -> ViewElemDiff {
        popup_diff(self.view, col, row)
    }

    fn get(&self, col: usize, row: usize) -> (r: ViewElemDiff) {
        match &self.view {
            Some(v) => {
                if v.holds(col, row) {
                    let e = v.get(col, row);
                    (Some(e.0), Some(e.1), Some(e.2))
                } else {
                    (None, None, None)
                }
            },
            None => (None, None, None),
        }
    }
}

/// `v` shows the list of `repo` in `area`: black on white, from the corner
/// of the list's window, with the list's cursor.
pub open spec fn popup_shows(v: CloneView, repo: SnippetRepo, area: Area) -> bool {
    let wc = repo.rb.window.col_low;
    let wr = repo.rb.window.row_low;
    &&& v.inv()
    &&& v.spec_area() == area
    &&& v.spec_cursor() == Some(
        Cursor { row: (repo.rb.cursor.row - wr + area.row) as usize, col: (repo.rb.cursor.col - wc + area.col) as usize },
    )
    &&& forall|c: usize, w: usize|
        area.col <= c < area.col + area.width && area.row <= w < area.row + area.height ==> #[trigger] v.covers(c, w)
            && v.spec_get(c, w) == (buf_char(repo.rb.lines(), c - area.col + wc, w - area.row + wr), Color::Black, Color::White)
}

impl SnippetRepo {
    /// The list of snippets drawn in `area`, black on white, with its cursor;
    /// `None` when the area or the list's window reach past the offsets
    /// that views are moved by.
    pub fn gen_view(&mut self, area: Area) -> (r: Option<CloneView>)
        requires
            old(self).inv(),
            1 <= area.width <= max_size(),
            1 <= area.height <= max_size(),
        ensures
            final(self).inv(),
            final(self).trie == old(self).trie,
            final(self).snippets == old(self).snippets,
            final(self).current_matches == old(self).current_matches,
            final(self).message_box == old(self).message_box,
            final(self).rb.buf == old(self).rb.buf,
            final(self).rb.cursor_ok(),
            r is Some == fits_offsets(area, final(self).rb.window.col_low, final(self).rb.window.row_low),
            r matches Some(v) ==> popup_shows(v, *final(self), area),
    {
        proof {
            assert forall|q: int| 0 <= q < self.rb.buf@.len() implies (#[trigger] self.rb.buf@[q])@.len() >= 1 by {
                assert(self.rb.lines()[q] == self.rb.buf@[q]@);
                assert(crate::read_buffer::search::line_wf(self.rb.lines()[q]));
            }
        }
        self.rb.stabilize_cursor();
        self.rb.adjust_window(area.width, area.height);
        let wc = self.rb.window.col();
        let wr = self.rb.window.row();
        if !check_offsets(&area, wc, wr) {
            return None;
        }
        let cursor = self.rb.cursor;
        let dc: i32 = area.col as i32 - wc as i32;
        let dr: i32 = area.row as i32 - wr as i32;
        assert(dc == area.col - wc);
        assert(dr == area.row - wr);
        let ghost ls = self.rb.lines();
        let base = ToViewRef::new(self.rb.buf.as_slice());
        assert(base.back@ == self.rb.buf@);
        let v1 = OverlayView::new(base, AddColor {});
        let v2 = AddCursor::new(v1, Some(cursor));
        let v = TranslateView::new(v2, dc, dr);
        proof {
            assert(self.rb.window.contains(cursor));
            assert(v.has_cursor_pos());
            assert forall|c: usize, w: usize|
                area.col <= c < area.col + area.width && area.row <= w < area.row + area.height implies #[trigger] v.covers(c, w)
                    && v.spec_get(c, w) == (buf_char(ls, c - area.col + wc, w - area.row + wr), Color::Black, Color::White) by {
                let bc = (c - dc) as usize;
                let br = (w - dr) as usize;
                assert(bc == c - area.col + wc);
                assert(br == w - area.row + wr);
                if br < self.rb.buf@.len() {
                    assert(ls[br as int] == self.rb.buf@[br as int]@);
                }
                assert(base.covers(bc, br));
                assert(v1.covers(bc, br));
                assert(v1.spec_get(bc, br) == (buf_char(ls, bc as int, br as int), Color::Black, Color::White));
                assert(v2.covers(bc, br));
                assert(v2.spec_get(bc, br) == v1.spec_get(bc, br));
            }
        }
        let r = CloneView::new(v, area);
        proof {
            assert(v2.spec_cursor() == Some(cursor));
            assert forall|c: usize, w: usize|
                area.col <= c < area.col + area.width && area.row <= w < area.row + area.height implies #[trigger] r.covers(c, w)
                    && r.spec_get(c, w) == (buf_char(ls, c - area.col + wc, w - area.row + wr), Color::Black, Color::White) by {
                assert(v.covers(c, w));
                assert(r.covers(c, w));
                assert(r.spec_get(c, w) == v.spec_get(c, w));
            }
            assert(r.spec_cursor() == Some(
                Cursor { row: (cursor.row - wr + area.row) as usize, col: (cursor.col - wc + area.col) as usize },
            ));
        }
        assert(popup_shows(r, *self, area));
        Some(r)
    }
}

/// The colors of the editor's theme, white on black where it names none.
pub open spec fn theme_pair() -> (Color, Color) {
    (crate::view::theme_fg(), crate::view::theme_bg())
}

/// The width of the list of snippets.
pub const SNIPPET_LIST_W: usize = 15;

/// Where the list of snippets of `eb` goes, in the buffer area of `region`.
pub open spec fn popup_area(eb: EditBuffer, region: Area) -> Area {
    snippet_area_of(
        Area { col: 0, row: 0, width: (region.width - LINE_NUMBER_W) as usize, height: region.height },
        eb.rb.cursor,
        SNIPPET_LIST_W,
        eb.snippet_repo.current_matches@.len() as usize,
    )
}

/// Whether the list of snippets shows.
pub open spec fn popup_present(eb: EditBuffer, region: Area) -> bool {
    eb.snippet_repo.current_matches@.len() > 0 && fits_offsets(
        popup_area(eb, region),
        eb.snippet_repo.rb.window.col_low,
        eb.snippet_repo.rb.window.row_low,
    )
}

/// What the list of snippets puts over `(x, y)` of the buffer.
pub open spec fn popup_cell(eb: EditBuffer, region: Area, x: usize, y: usize) -> ViewElemDiff {
    let pa = popup_area(eb, region);
    let rb = eb.snippet_repo.rb;
    if popup_present(eb, region) && pa.col <= x < pa.col + pa.width && pa.row <= y < pa.row + pa.height {
        (
            Some(buf_char(rb.lines(), x - pa.col + rb.window.col_low, y - pa.row + rb.window.row_low)),
            Some(Color::Black),
            Some(Color::White),
        )
    } else {
        (None, None, None)
    }
}

/// What the buffer area shows at `(x, y)` of the buffer: its text in the
/// theme's colors, with the highlight, the tabs, the search hits, the
/// selection and the list of snippets over it, in that order.
pub open spec fn buffer_cell<H: DiffView>(eb: EditBuffer, h: H, region: Area, x: usize, y: usize) -> ViewElem {
    let base = (buf_char(eb.rb.lines(), x as int, y as int), theme_pair().0, theme_pair().1);
    let d_tab = if tab_at(eb.rb.buf@, x, y) {
        (Some(' '), None, Some(Color::Red))
    } else {
        (None, None, None)
    };
    let d_vis = if in_range(spec_visual_range(eb), x, y) {
        (None, None, Some(Color::Blue))
    } else {
        (None, None, None)
    };
    overlay(
        overlay(overlay(overlay(overlay(base, h.spec_diff(x, y)), d_tab), search_diff(eb.rb.search, x, y)), d_vis),
        popup_cell(eb, region, x, y),
    )
}

/// What the screen shows at `(c, w)` of `region`: the line numbers on the
/// left, then the buffer from the corner of its window.
pub open spec fn edit_cell<H: DiffView>(eb: EditBuffer, h: H, region: Area, c: usize, w: usize) -> ViewElem {
    let bcol = region.col + LINE_NUMBER_W;
    if c < bcol {
        (LineNumber {
            from: (eb.rb.window.row_low + 1) as usize,
            to: (if eb.rb.window.row_high + 1 <= eb.rb.buf@.len() {
                eb.rb.window.row_high + 1
            } else {
                eb.rb.buf@.len() as int
            }) as usize,
        }).spec_get((c - region.col) as usize, (w - region.row) as usize)
    } else {
        buffer_cell(
            eb,
            h,
            region,
            (c - bcol + eb.rb.window.col_low) as usize,
            (w - region.row + eb.rb.window.row_low) as usize,
        )
    }
}

/// `v` shows `eb` in `region` as `edit_cell` says.
pub open spec fn edit_view_shows<H: DiffView>(v: CloneView, eb: EditBuffer, h: H, region: Area) -> bool {
    &&& v.inv()
    &&& v.spec_area() == region
    &&& forall|c: usize, w: usize|
        region.col <= c < region.col + region.width && region.row <= w < region.row + region.height ==> #[trigger] v.covers(c, w)
            && v.spec_get(c, w) == edit_cell(eb, h, region, c, w)
}

proof fn lemma_shows<H: DiffView>(v: CloneView, eb: EditBuffer, h: H, region: Area)
    requires
        v.inv(),
        v.spec_area() == region,
        forall|c: usize, w: usize|
            region.col <= c < region.col + region.width && region.row <= w < region.row + region.height ==> #[trigger] v.covers(c, w)
                && v.spec_get(c, w) == edit_cell(eb, h, region, c, w),
    ensures
        edit_view_shows(v, eb, h, region),
{
}

impl EditBuffer {
    /// Draws the buffer into `region`: the line numbers in the first
    /// `LINE_NUMBER_W` columns, the buffer from its window (moved to take the
    /// cursor) in the rest, and the list of snippets next to the cursor while
    /// there are matches. `None` when the region or a window reach past the
    /// offsets that views are moved by.
    #[verifier::spinoff_prover]
    pub fn gen_view<H: DiffView>(&mut self, region: Area, highlight: H) -> (r: Option<CloneView>)
        requires
            old(self).wf(),
            LINE_NUMBER_W < region.width <= max_size(),
            1 <= region.height <= max_size(),
            region.col + region.width <= usize::MAX,
            old(self).visual_cursor matches Some(vc) ==> vc.col < usize::MAX,
            forall|c: usize, w: usize| #[trigger] highlight.diff_covers(c, w),
        ensures
            final(self).wf(),
            final(self).rb.buf == old(self).rb.buf,
            final(self).rb.cursor_ok(),
            final(self).edit_state == old(self).edit_state,
            final(self).change_log_buffer == old(self).change_log_buffer,
            final(self).visual_cursor == old(self).visual_cursor,
            final(self).snippet_repo.current_matches == old(self).snippet_repo.current_matches,
            final(self).snippet_repo.snippets == old(self).snippet_repo.snippets,
            final(self).rb.window.contains(final(self).rb.cursor),
            final(self).rb.window.spec_width() == region.width - LINE_NUMBER_W,
            final(self).rb.window.spec_height() == region.height,
            final(self).rb.search.cur_word == old(self).rb.search.cur_word,
            final(self).rb.search.show == old(self).rb.search.show,
            forall|i: int|
                final(self).rb.window.row_low <= i < min(final(self).rb.window.row_high + 1, final(self).rb.buf@.len() as int)
                    ==> (#[trigger] final(self).rb.search.cache@[i]).search_word@ == old(self).rb.search.cur_word@,
            forall|i: int|
                final(self).rb.window.row_low <= i < min(final(self).rb.window.row_high + 1, final(self).rb.buf@.len() as int)
                    ==> if old(self).rb.search.cur_word@.len() > 0 {
                    all_hits(old(self).rb.lines()[i], old(self).rb.search.cur_word@, (#[trigger] final(self).rb.search.cache@[i]).spec_result())
                } else {
                    final(self).rb.search.cache@[i].spec_result().len() == 0
                },
            forall|i: int|
                0 <= i < old(self).rb.buf@.len() && !(final(self).rb.window.row_low <= i < min(final(self).rb.window.row_high + 1, final(self).rb.buf@.len() as int))
                    ==> #[trigger] final(self).rb.search.cache@[i] == old(self).rb.search.cache@[i],
            r is None <==> !(fits_offsets(
                Area {
                    col: (region.col + LINE_NUMBER_W) as usize,
                    row: region.row,
                    width: (region.width - LINE_NUMBER_W) as usize,
                    height: region.height,
                },
                final(self).rb.window.col_low,
                final(self).rb.window.row_low,
            ) && fits_offsets(Area { col: region.col, row: region.row, width: LINE_NUMBER_W, height: region.height }, 0, 0)),
            r matches Some(v) ==> edit_view_shows(v, *final(self), highlight, region),
    {
        let (lineno_reg, buf_reg) = region.split_horizontal(LINE_NUMBER_W);
        proof {
            assert forall|q: int| 0 <= q < self.rb.buf@.len() implies (#[trigger] self.rb.buf@[q])@.len() >= 1 by {
                assert(self.rb.lines()[q] == self.rb.buf@[q]@);
                assert(crate::read_buffer::search::line_wf(self.rb.lines()[q]));
            }
        }
        self.rb.stabilize_cursor();
        self.rb.adjust_window(buf_reg.width, buf_reg.height);
        self.rb.update_cache();
        let wc = self.rb.window.col();
        let wr = self.rb.window.row();
        if !check_offsets(&buf_reg, wc, wr) || !check_offsets(&lineno_reg, 0, 0) {
            return None;
        }
        let cursor = self.rb.cursor;
        let n = self.snippet_repo.current_matches().len();
        let popup = if n == 0 {
            None
        } else {
            let buf_area = Area { col: 0, row: 0, width: buf_reg.width, height: buf_reg.height };
            let snippet_area = compute_snippet_area(&buf_area, &cursor, SNIPPET_LIST_W, n);
            self.snippet_repo.gen_view(snippet_area)
        };
        let vr = self.visual_range();
        let lr = self.rb.lineno_range();
        let lineno_view = LineNumber { from: lr.start + 1, to: lr.end };
        let lineno_view = TranslateView::new(lineno_view, lineno_reg.col as i32, lineno_reg.row as i32);
        let hide = self.rb.state == SNIPPET.to_owned();
        let shown_cursor = if hide { None } else { Some(cursor) };
        let dc: i32 = buf_reg.col as i32 - wc as i32;
        let dr: i32 = buf_reg.row as i32 - wr as i32;
        let b0 = ToViewRef::new(self.rb.buf.as_slice());
        let b1 = OverlayView::new(b0, highlight);
        let b2 = OverlayView::new(b1, TabDiffView { buf: self.rb.buf.as_slice() });
        let b3 = OverlayView::new(b2, SearchDiffView::new(&self.rb.search));
        let b4 = OverlayView::new(b3, VisualRangeDiffView::new(vr));
        let b5 = OverlayView::new(b4, PopupDiffView { view: popup });
        let b6 = AddCursor::new(b5, shown_cursor);
        let b7 = TranslateView::new(b6, dc, dr);
        let view = MergeHorizontal { left: lineno_view, right: b7, col_offset: buf_reg.col };
        let r = CloneView::new(view, region);
        proof {
            let eb = *self;
            assert(vr == spec_visual_range(eb));
            assert forall|c: usize, w: usize|
                region.col <= c < region.col + region.width && region.row <= w < region.row + region.height implies #[trigger] r.covers(c, w)
                    && r.spec_get(c, w) == edit_cell(eb, highlight, region, c, w) by {
                assert(r.covers(c, w));
                assert(r.spec_get(c, w) == view.spec_get(c, w));
                if c >= buf_reg.col {
                    let x = (c - dc) as usize;
                    let y = (w - dr) as usize;
                    assert(x == c - buf_reg.col + wc);
                    assert(y == w - region.row + wr);
                    assert(b7.spec_get(c, w) == b6.spec_get(x, y));
                    if y < self.rb.buf@.len() {
                        assert(self.rb.lines()[y as int] == self.rb.buf@[y as int]@);
                    }
                    assert(b0.spec_get(x, y) == (buf_char(eb.rb.lines(), x as int, y as int), theme_pair().0, theme_pair().1));
                    match popup {
                        Some(pv) => {
                            pv.lemma_covers(x, y);
                            assert(popup_diff(popup, x, y) == popup_cell(eb, region, x, y));
                        },
                        None => {
                            assert(popup_diff(popup, x, y) == popup_cell(eb, region, x, y));
                        },
                    }
                    assert(b6.spec_get(x, y) == buffer_cell(eb, highlight, region, x, y));
                } else {
                    assert(view.spec_get(c, w) == lineno_view.spec_get(c, w));
                }
            }
            lemma_shows(r, eb, highlight, region);
        }
        Some(r)
    }
}

} // verus!
