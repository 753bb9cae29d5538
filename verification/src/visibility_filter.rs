use vstd::prelude::*;
use crate::read_buffer::Cursor;

verus! {

/// The part of a buffer that is on the screen, following the cursor.
pub struct VisibilityFilter {
    pub cur_cursor: Cursor,
    pub col_low: usize,
    pub col_high: usize,
    pub row_low: usize,
    pub row_high: usize,
}

impl VisibilityFilter {
    pub open spec fn contains(&self, c: Cursor) -> bool {
        &&& self.col_low <= c.col <= self.col_high
        &&& self.row_low <= c.row <= self.row_high
    }

    pub open spec fn spec_width(&self) -> int {
        self.col_high - self.col_low + 1
    }

    pub open spec fn spec_height(&self) -> int {
        self.row_high - self.row_low + 1
    }

    /// A one-cell filter at the origin, following `cursor`.
    pub fn new(cursor: Cursor) -> (r: VisibilityFilter)
        ensures
            r.cur_cursor == cursor,
            r.col_low == 0 && r.col_high == 0 && r.row_low == 0 && r.row_high == 0,
    {
        VisibilityFilter { cur_cursor: cursor, col_low: 0, col_high: 0, row_low: 0, row_high: 0 }
    }

    /// Gives the filter the size `width` x `height`, with its corner at the
    /// cursor it follows.
    pub fn resize(&mut self, width: usize, height: usize)
        requires
            width >= 1,
            height >= 1,
            old(self).cur_cursor.col + width <= usize::MAX,
            old(self).cur_cursor.row + height <= usize::MAX,
        ensures
            final(self).cur_cursor == old(self).cur_cursor,
            final(self).col_low == old(self).cur_cursor.col,
            final(self).row_low == old(self).cur_cursor.row,
            final(self).spec_width() == width,
            final(self).spec_height() == height,
    {
        self.col_low = self.cur_cursor.col;
        self.col_high = self.cur_cursor.col + width - 1;
        self.row_low = self.cur_cursor.row;
        self.row_high = self.cur_cursor.row + height - 1;
    }

    pub fn col(&self) -> (r: usize)
        ensures
            r == self.col_low,
    {
        self.col_low
    }

    pub fn row(&self) -> (r: usize)
        ensures
            r == self.row_low,
    {
        self.row_low
    }

    /// Moves the filter as little as needed to bring `cursor` into it,
    /// keeping its size: when the cursor went right (down) past the filter it
    /// becomes the last column (row); otherwise it becomes the first.
    pub fn adjust(&mut self, cursor: Cursor)
        requires
            old(self).col_low <= old(self).col_high,
            old(self).row_low <= old(self).row_high,
            old(self).contains(old(self).cur_cursor) || old(self).contains(cursor),
            cursor.col + old(self).spec_width() <= usize::MAX,
            cursor.row + old(self).spec_height() <= usize::MAX,
        ensures
            final(self).contains(cursor),
            final(self).cur_cursor == cursor,
            final(self).spec_width() == old(self).spec_width(),
            final(self).spec_height() == old(self).spec_height(),
            old(self).col_low <= cursor.col <= old(self).col_high ==> final(self).col_low == old(self).col_low,
            old(self).row_low <= cursor.row <= old(self).row_high ==> final(self).row_low == old(self).row_low,
            cursor.col > old(self).col_high ==> final(self).col_high == cursor.col,
            cursor.col < old(self).col_low ==> final(self).col_low == cursor.col,
            cursor.row > old(self).row_high ==> final(self).row_high == cursor.row,
            cursor.row < old(self).row_low ==> final(self).row_low == cursor.row,
    {
        let prev_cursor = self.cur_cursor;
        self.cur_cursor = cursor;
        let width_m1 = self.col_high - self.col_low;
        let height_m1 = self.row_high - self.row_low;
        let col_ok = self.col_low <= cursor.col && cursor.col <= self.col_high;
        let row_ok = self.row_low <= cursor.row && cursor.row <= self.row_high;
        if col_ok && row_ok {
            return ;
        }
        if !col_ok {
            if cursor.col > prev_cursor.col {
                self.col_high = cursor.col;
                self.col_low = cursor.col - width_m1;
            } else {
                self.col_low = cursor.col;
                self.col_high = cursor.col + width_m1;
            }
        }
        if !row_ok {
            if cursor.row > prev_cursor.row {
                self.row_high = cursor.row;
                self.row_low = cursor.row - height_m1;
            } else {
                self.row_low = cursor.row;
                self.row_high = cursor.row + height_m1;
            }
        }
    }
}

} // verus!
