use vstd::prelude::*;
use crate::view::Area;
use crate::read_buffer::Cursor;

verus! {

/// The part of a buffer that is on the screen, following the cursor.
pub struct VisibilityWindow {
    pub cur_cursor: Cursor,
    pub col_low: usize,
    pub col_high: usize,
    pub row_low: usize,
    pub row_high: usize,
}

impl VisibilityWindow {
    /// The window is not empty and holds the cursor it last followed.
    pub open spec fn inv(&self) -> bool {
        &&& self.col_low <= self.col_high
        &&& self.row_low <= self.row_high
        &&& self.contains(self.cur_cursor)
    }

    pub open spec fn contains(&self, c: Cursor) -> bool {
        &&& self.col_low <= c.col <= self.col_high
        &&& self.row_low <= c.row <= self.row_high
    }

    /// The window is not empty and holds the cursor it followed or the new one.
    pub open spec fn adjustable(&self, cursor: Cursor) -> bool {
        &&& self.col_low <= self.col_high
        &&& self.row_low <= self.row_high
        &&& (self.contains(self.cur_cursor) || self.contains(cursor))
    }

    pub open spec fn spec_width(&self) -> int {
        self.col_high - self.col_low + 1
    }

    pub open spec fn spec_height(&self) -> int {
        self.row_high - self.row_low + 1
    }

    /// A one-cell window at the origin, following `cursor`.
    pub fn new(cursor: Cursor) -> (r: Self)
        ensures
            r.cur_cursor == cursor,
            r.col_low == 0 && r.col_high == 0 && r.row_low == 0 && r.row_high == 0,
    {
        VisibilityWindow { cur_cursor: cursor, col_low: 0, col_high: 0, row_low: 0, row_high: 0 }
    }

    pub open spec fn area_spec(&self) -> Area {
        Area {
            col: self.col_low,
            row: self.row_low,
            width: self.spec_width() as usize,
            height: self.spec_height() as usize,
        }
    }

    pub fn area(&self) -> (r: Area)
        requires
            self.col_low <= self.col_high,
            self.row_low <= self.row_high,
            self.col_high - self.col_low + 1 <= usize::MAX,
            self.row_high - self.row_low + 1 <= usize::MAX,
        ensures
            r == self.area_spec(),
    {
        Area { col: self.col(), row: self.row(), width: self.width(), height: self.height() }
    }

    pub fn col(&self) -> (r: usize)
        ensures
            r == self.col_low,
    {
        self.col_low
    }

    pub fn row(&self) -> (r: usize)
        ensures
            r == self.row_low,
    {
        self.row_low
    }

    pub fn width(&self) -> (r: usize)
        requires
            self.col_low <= self.col_high,
            self.col_high - self.col_low + 1 <= usize::MAX,
        ensures
            r == self.spec_width(),
    {
        self.col_high - self.col_low + 1
    }

    pub fn height(&self) -> (r: usize)
        requires
            self.row_low <= self.row_high,
            self.row_high - self.row_low + 1 <= usize::MAX,
        ensures
            r == self.spec_height(),
    {
        self.row_high - self.row_low + 1
    }

    /// Gives the window the size `width` x `height`, placed at `cursor`, unless it
    /// has that size already.
    fn resize(&mut self, cursor: Cursor, width: usize, height: usize)
        requires
            old(self).inv(),
            width >= 1,
            height >= 1,
            cursor.col + width <= usize::MAX,
            cursor.row + height <= usize::MAX,
        ensures
            final(self).cur_cursor == old(self).cur_cursor,
            final(self).col_low <= final(self).col_high,
            final(self).row_low <= final(self).row_high,
            final(self).spec_width() == width,
            final(self).spec_height() == height,
            old(self).spec_width() == width && old(self).spec_height() == height ==> *final(self)
                == *old(self),
            !(old(self).spec_width() == width && old(self).spec_height() == height) ==> {
                &&& final(self).col_low == cursor.col
                &&& final(self).row_low == cursor.row
            },
    {
        let ow = self.col_high - self.col_low;
        let oh = self.row_high - self.row_low;
        if ow == width - 1 && oh == height - 1 {
            return;
        }
        self.col_low = cursor.col;
        self.col_high = cursor.col + width - 1;
        self.row_low = cursor.row;
        self.row_high = cursor.row + height - 1;
    }

    /// Moves the window as little as needed to bring `cursor` into it, keeping
    /// its size: when the cursor went right (down) past the window it becomes the
    /// last column (row); otherwise it becomes the first.
    pub fn adjust(&mut self, cursor: Cursor)
        requires
            old(self).adjustable(cursor),
            cursor.col + old(self).spec_width() <= usize::MAX,
            cursor.row + old(self).spec_height() <= usize::MAX,
        ensures
            final(self).inv(),
            final(self).cur_cursor == cursor,
            final(self).spec_width() == old(self).spec_width(),
            final(self).spec_height() == old(self).spec_height(),
            old(self).col_low <= cursor.col <= old(self).col_high ==> final(self).col_low == old(self).col_low,
            old(self).row_low <= cursor.row <= old(self).row_high ==> final(self).row_low == old(self).row_low,
            cursor.col > old(self).col_high ==> final(self).col_high == cursor.col,
            cursor.col < old(self).col_low ==> final(self).col_low == cursor.col,
            cursor.row > old(self).row_high ==> final(self).row_high == cursor.row,
            cursor.row < old(self).row_low ==> final(self).row_low == cursor.row,
    {
        let prev_cursor = self.cur_cursor;
        self.cur_cursor = cursor;
        let width_m1 = self.col_high - self.col_low;
        let height_m1 = self.row_high - self.row_low;
        let col_ok = self.col_low <= cursor.col && cursor.col <= self.col_high;
        let row_ok = self.row_low <= cursor.row && cursor.row <= self.row_high;
        if col_ok && row_ok {
            return ;
        }
        if !col_ok {
            if cursor.col > prev_cursor.col {
                self.col_high = cursor.col;
                self.col_low = cursor.col - width_m1;
            } else {
                self.col_low = cursor.col;
                self.col_high = cursor.col + width_m1;
            }
        }
        if !row_ok {
            if cursor.row > prev_cursor.row {
                self.row_high = cursor.row;
                self.row_low = cursor.row - height_m1;
            } else {
                self.row_low = cursor.row;
                self.row_high = cursor.row + height_m1;
            }
        }
    }

    /// Resizes the window to `w` x `h` and brings `cursor` into it.
    pub fn adjust_window(&mut self, cursor: Cursor, w: usize, h: usize)
        requires
            old(self).inv(),
            w >= 1,
            h >= 1,
            cursor.col + w <= usize::MAX,
            cursor.row + h <= usize::MAX,
        ensures
            final(self).inv(),
            final(self).cur_cursor == cursor,
            final(self).contains(cursor),
            final(self).spec_width() == w,
            final(self).spec_height() == h,
    {
        self.resize(cursor, w, h);
        self.adjust(cursor);
    }
}

} // verus!
