use vstd::prelude::*;
use crate::view::View as _;
use crate::read_buffer::{ReadBuffer, Cursor, max_size};
use crate::view::{Area, DiffView, ViewElem, ViewElemDiff, CloneView, ToViewRef, OverlayView, AddCursor, TranslateView};
use crate::view::{LineNumber, MergeHorizontal, LINE_NUMBER_W, overlay};
use crate::edit_buffer::view_gen::{buf_char, theme_pair, fits_offsets, check_offsets};
use crate::directory::{Directory, AddColor, Entry, EntryKind};
use crate::screen::Color;
use crate::navigator::Navigator;

verus! {

/// The layer that changes nothing.
pub struct NoLayer {}

impl DiffView for NoLayer {
    open spec fn diff_covers(&self, col: usize, row: usize) -> bool {
        true
    }

    open spec fn spec_diff(&self, col: usize, row: usize) -> ViewElemDiff {
        (None, None, None)
    }

    fn get(&self, col: usize, row: usize) -> (r: ViewElemDiff) {
        (None, None, None)
    }
}

/// What a layer puts over each cell.
pub type Layer = spec_fn(usize, usize) -> ViewElemDiff;

/// The layer that changes nothing.
pub open spec fn no_layer() -> Layer {
    |x: usize, y: usize| (None, None, None)
}

/// The layer of a directory page: its directories and its parent in light
/// red.
pub open spec fn dir_layer(entries: Seq<Entry>) -> Layer {
    |x: usize, y: usize|
        if y < entries.len() && entries[y as int].kind != EntryKind::File {
            (None, Some(Color::LightRed), None)
        } else {
            (None, None, None)
        }
}

/// What a list page shows at `(c, w)` of `region`: the line numbers on the
/// left, then the rows of `rb` from the corner of its window, in the theme's
/// colors with the layer `d` over them.
pub open spec fn list_cell(rb: ReadBuffer, d: Layer, region: Area, c: usize, w: usize) -> ViewElem {
    let bcol = region.col + LINE_NUMBER_W;
    if c < bcol {
        (LineNumber {
            from: (rb.window.row_low + 1) as usize,
            to: (if rb.window.row_high + 1 <= rb.buf@.len() {
                rb.window.row_high + 1
            } else {
                rb.buf@.len() as int
            }) as usize,
        }).spec_get((c - region.col) as usize, (w - region.row) as usize)
    } else {
        let x = (c - bcol + rb.window.col_low) as usize;
        let y = (w - region.row + rb.window.row_low) as usize;
        overlay((buf_char(rb.lines(), x as int, y as int), theme_pair().0, theme_pair().1), d(x, y))
    }
}

/// `v` shows `rb` in `region` as `list_cell` says, with the cursor of `rb`
/// where it is on the screen.
pub open spec fn list_view_shows(v: CloneView, rb: ReadBuffer, d: Layer, region: Area) -> bool {
    &&& v.inv()
    &&& v.spec_area() == region
    &&& v.spec_cursor() == Some(
        Cursor {
            row: (rb.cursor.row - rb.window.row_low + region.row) as usize,
            col: (rb.cursor.col - rb.window.col_low + region.col + LINE_NUMBER_W) as usize,
        },
    )
    &&& forall|c: usize, w: usize|
        region.col <= c < region.col + region.width && region.row <= w < region.row + region.height ==> #[trigger] v.covers(c, w)
            && v.spec_get(c, w) == list_cell(rb, d, region, c, w)
}

/// The line numbers' part of `region` and its text part, with a window at
/// `(wcol, wrow)`, stay within the offsets that views are moved by.
pub open spec fn region_fits(region: Area, wcol: usize, wrow: usize) -> bool {
    &&& fits_offsets(
        Area {
            col: (region.col + LINE_NUMBER_W) as usize,
            row: region.row,
            width: (region.width - LINE_NUMBER_W) as usize,
            height: region.height,
        },
        wcol,
        wrow,
    )
    &&& fits_offsets(Area { col: region.col, row: region.row, width: LINE_NUMBER_W, height: region.height }, 0, 0)
}

/// Whether `region` can hold a list page: line numbers and at least a column
/// of text, within the sizes of a buffer.
pub open spec fn list_region_ok(region: Area) -> bool {
    &&& LINE_NUMBER_W < region.width <= max_size()
    &&& 1 <= region.height <= max_size()
    &&& region.col + region.width <= usize::MAX
}

/// Whether `region` can hold a list page.
pub fn list_region_ok_exec(region: &Area) -> (r: bool)
    ensures
        r == list_region_ok(*region),
{
    LINE_NUMBER_W < region.width && region.width <= crate::edit_buffer::effects::MAX_SIZE && 1 <= region.height
        && region.height <= crate::edit_buffer::effects::MAX_SIZE && region.col <= usize::MAX - region.width
}

/// Draws `rb` into `region` with `d` over it, after putting the cursor on the
/// text and moving the window to take it. `None` when the region or the
/// window reach past the offsets that views are moved by.
fn list_view<D: DiffView>(rb: &mut ReadBuffer, region: Area, d: D) -> (r: Option<CloneView>)
    requires
        old(rb).wf(),
        list_region_ok(region),
        forall|c: usize, w: usize| #[trigger] d.diff_covers(c, w),
    ensures
        final(rb).wf(),
        final(rb).cursor_ok(),
        final(rb).buf == old(rb).buf,
        final(rb).window.contains(final(rb).cursor),
        final(rb).window.spec_width() == region.width - LINE_NUMBER_W,
        final(rb).window.spec_height() == region.height,
        r is None <==> !region_fits(region, final(rb).window.col_low, final(rb).window.row_low),
        r matches Some(v) ==> list_view_shows(v, *final(rb), (|x: usize, y: usize| d.spec_diff(x, y)), region),
{
    let (lineno_reg, buf_reg) = region.split_horizontal(LINE_NUMBER_W);
    proof {
        assert forall|q: int| 0 <= q < rb.buf@.len() implies (#[trigger] rb.buf@[q])@.len() >= 1 by {
            assert(rb.lines()[q] == rb.buf@[q]@);
            assert(crate::read_buffer::search::line_wf(rb.lines()[q]));
        }
    }
    rb.stabilize_cursor();
    rb.adjust_window(buf_reg.width, buf_reg.height);
    let wc = rb.window.col();
    let wr = rb.window.row();
    if !check_offsets(&buf_reg, wc, wr) || !check_offsets(&lineno_reg, 0, 0) {
        return None;
    }
    let cursor = rb.cursor;
    let lr = rb.lineno_range();
    let lineno_view = LineNumber { from: lr.start + 1, to: lr.end };
    let lineno_view = TranslateView::new(lineno_view, lineno_reg.col as i32, lineno_reg.row as i32);
    let dc: i32 = buf_reg.col as i32 - wc as i32;
    let dr: i32 = buf_reg.row as i32 - wr as i32;
    let b0 = ToViewRef::new(rb.buf.as_slice());
    let b1 = OverlayView::new(b0, d);
    let b2 = AddCursor::new(b1, Some(cursor));
    let b3 = TranslateView::new(b2, dc, dr);
    let view = MergeHorizontal { left: lineno_view, right: b3, col_offset: buf_reg.col };
    proof {
        assert(rb.buf@.len() > 0);
        assert forall|c: usize, w: usize|
            region.col <= c < region.col + region.width && region.row <= w < region.row + region.height implies #[trigger] view.covers(c, w) by {
            if c >= buf_reg.col {
                let x = (c - dc) as usize;
                let y = (w - dr) as usize;
                if y < rb.buf@.len() {
                    assert(rb.lines()[y as int] == rb.buf@[y as int]@);
                    assert(crate::read_buffer::search::line_wf(rb.lines()[y as int]));
                }
                assert(b3.covers(c, w));
            }
        }
    }
    let r = CloneView::new(view, region);
    proof {
        let rb1 = *rb;
        let dl: Layer = |x: usize, y: usize| d.spec_diff(x, y);
        assert forall|c: usize, w: usize|
            region.col <= c < region.col + region.width && region.row <= w < region.row + region.height implies #[trigger] r.covers(c, w)
                && r.spec_get(c, w) == list_cell(rb1, dl, region, c, w) by {
            assert(r.covers(c, w));
            assert(r.spec_get(c, w) == view.spec_get(c, w));
            if c >= buf_reg.col {
                let x = (c - dc) as usize;
                let y = (w - dr) as usize;
                assert(b3.spec_get(c, w) == b2.spec_get(x, y));
                if y < rb.buf@.len() {
                    assert(rb.lines()[y as int] == rb.buf@[y as int]@);
                }
                assert(b0.spec_get(x, y) == (buf_char(rb1.lines(), x as int, y as int), theme_pair().0, theme_pair().1));
            } else {
                assert(view.spec_get(c, w) == lineno_view.spec_get(c, w));
            }
        }
        assert(list_view_shows(r, rb1, dl, region));
    }
    Some(r)
}

impl Directory {
    /// Draws the directory into `region`: the line numbers, then the names of
    /// its entries with the directories in light red, and the cursor.
    pub fn gen_view(&mut self, region: Area) -> (r: Option<CloneView>)
        requires
            old(self).wf(),
            old(self).entries@.len() > 0,
            list_region_ok(region),
        ensures
            final(self).wf(),
            final(self).entries == old(self).entries,
            final(self).path == old(self).path,
            final(self).request == old(self).request,
            final(self).rb.buf == old(self).rb.buf,
            final(self).rb.cursor_ok(),
            final(self).rb.window.contains(final(self).rb.cursor),
            r is None <==> !region_fits(region, final(self).rb.window.col_low, final(self).rb.window.row_low),
            r matches Some(v) ==> list_view_shows(v, final(self).rb, dir_layer(old(self).entries@), region),
    {
        let color = AddColor::new(self);
        let ghost e = self.entries@;
        let r = list_view(&mut self.rb, region, color);
        assert(dir_layer(e) =~= (|x: usize, y: usize| color.spec_diff(x, y)));
        r
    }
}

impl Navigator {
    /// Draws the list of pages into `region`, listing them afresh from
    /// `statuses` first when they changed: the line numbers, then a status
    /// line per page, and the cursor.
    pub fn gen_view(&mut self, region: Area, statuses: &Vec<Vec<char>>) -> (r: Option<CloneView>)
        requires
            old(self).wf(),
            list_region_ok(region),
            statuses@.len() < max_size(),
            forall|i: int| 0 <= i < statuses@.len() ==> (#[trigger] statuses@[i])@.len() + 1 <= max_size(),
        ensures
            final(self).wf(),
            !final(self).needs_refresh,
            final(self).list == old(self).list,
            final(self).current == old(self).current,
            old(self).needs_refresh ==> final(self).rb.lines() == (if statuses@.len() == 0 {
                seq![seq![crate::read_buffer::BufElem::Eol]]
            } else {
                Seq::new(statuses@.len(), |i: int| crate::navigator::status_line(statuses@[i]@))
            }),
            !old(self).needs_refresh ==> final(self).rb.buf == old(self).rb.buf,
            final(self).rb.cursor_ok(),
            final(self).rb.window.contains(final(self).rb.cursor),
            r is None <==> !region_fits(region, final(self).rb.window.col_low, final(self).rb.window.row_low),
            r matches Some(v) ==> list_view_shows(v, final(self).rb, no_layer(), region),
    {
        if self.needs_refresh {
            self.refresh_buffer(statuses);
        }
        let r = list_view(&mut self.rb, region, NoLayer {});
        assert(no_layer() =~= (|x: usize, y: usize| (NoLayer {}).spec_diff(x, y)));
        r
    }
}

} // verus!
