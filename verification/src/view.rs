use vstd::prelude::*;
use vstd::view::View as _;

use crate::screen::Color;
use crate::read_buffer::{BufElem, Cursor};

verus! {

/// What a screen cell shows: a character, its foreground and its background.
pub type ViewElem = (char, Color, Color);

/// What a layer changes of a cell: each part, if any.
pub type ViewElemDiff = (Option<char>, Option<Color>, Option<Color>);

/// Something that can be drawn: each cell it covers, and where the cursor is.
pub trait View {
    /// Whether the view has a cell at `(col, row)`.
    spec fn covers(&self, col: usize, row: usize) -> bool;

    spec fn spec_get(&self, col: usize, row: usize) -> ViewElem;

    /// Whether the view can say where its cursor is.
    spec fn has_cursor_pos(&self) -> bool;

    spec fn spec_cursor(&self) -> Option<Cursor>;

    fn get(&self, col: usize, row: usize) -> (r: ViewElem)
        requires
            self.covers(col, row),
        ensures
            r == self.spec_get(col, row),
    ;

    fn get_cursor_pos(&self) -> (r: Option<Cursor>)
        requires
            self.has_cursor_pos(),
        ensures
            r == self.spec_cursor(),
    ;
}

/// Something that makes a view for a region of the screen.
pub trait ViewGen {
    type Out: View;

    fn gen(&self, region: Area) -> (r: Self::Out);
}

/// A layer that changes some parts of some cells.
pub trait DiffView {
    /// Whether the layer has something to say at `(col, row)`.
    spec fn diff_covers(&self, col: usize, row: usize) -> bool;

    spec fn spec_diff(&self, col: usize, row: usize) -> ViewElemDiff;

    fn get(&self, col: usize, row: usize) -> (r: ViewElemDiff)
        requires
            self.diff_covers(col, row),
        ensures
            r == self.spec_diff(col, row),
    ;
}

/// A rectangle on the screen: its top-left corner and its size.
#[derive(Debug, Clone, Copy, PartialEq, Eq, Structural)]
pub struct Area {
    pub col: usize,
    pub row: usize,
    pub width: usize,
    pub height: usize,
}

impl Area {
    /// Splits the area into a left part `left_width` wide and the right rest.
    pub fn split_horizontal(&self, left_width: usize) -> (r: (Area, Area))
        requires
            left_width <= self.width,
            self.col + left_width <= usize::MAX,
        ensures
            r.0 == (Area { col: self.col, row: self.row, width: left_width, height: self.height }),
            r.1 == (Area {
                col: (self.col + left_width) as usize,
                row: self.row,
                width: (self.width - left_width) as usize,
                height: self.height,
            }),
    {
        let left = Area { col: self.col, row: self.row, width: left_width, height: self.height };
        let right = Area {
            col: self.col + left_width,
            row: self.row,
            width: self.width - left_width,
            height: self.height,
        };
        (left, right)
    }

    /// Splits the area into a top part `top_height` high and the bottom rest.
    pub fn split_vertical(&self, top_height: usize) -> (r: (Area, Area))
        requires
            top_height <= self.height,
            self.row + top_height <= usize::MAX,
        ensures
            r.0 == (Area { col: self.col, row: self.row, width: self.width, height: top_height }),
            r.1 == (Area {
                col: self.col,
                row: (self.row + top_height) as usize,
                width: self.width,
                height: (self.height - top_height) as usize,
            }),
    {
        let top = Area { col: self.col, row: self.row, width: self.width, height: top_height };
        let bottom = Area {
            col: self.col,
            row: self.row + top_height,
            width: self.width,
            height: self.height - top_height,
        };
        (top, bottom)
    }

    pub open spec fn spec_contains_area(self, other: Area) -> bool {
        &&& self.col <= other.col
        &&& self.row <= other.row
        &&& other.col + other.width <= self.col + self.width
        &&& other.row + other.height <= self.row + self.height
    }

    /// Whether `other` lies entirely inside this area.
    pub fn contains_area(&self, other: &Area) -> (r: bool)
        ensures
            r == self.spec_contains_area(*other),
    {
        self.col <= other.col && self.row <= other.row && (other.col as u128) + (
        other.width as u128) <= (self.col as u128) + (self.width as u128) && (other.row as u128)
            + (other.height as u128) <= (self.row as u128) + (self.height as u128)
    }
}


/// What a color theme of the bundled set names as its foreground and as its
/// background color, each if it names one; `None` when the set has no theme
/// of that name.
pub uninterp spec fn theme_colors_of(name: Seq<char>) -> Option<(Option<Color>, Option<Color>)>;

#[verifier::external_type_specification]
#[verifier::external_body]
pub struct ExTheme(syntect::highlighting::Theme);

/// Loads the theme set bundled with `syntect`
/// (`syntect::highlighting::ThemeSet::load_defaults`) and looks the theme
/// `name` up: a copy of it, with the foreground and the background of its
/// settings, each as the theme gives it; `None` when the set has no theme of
/// that name. The set is fixed in the crate, so the colors depend on `name`
/// alone and are named `theme_colors_of`; which colors a theme holds, and
/// anything else of the theme, is not stated.
#[verifier::external_body]
pub(crate) fn load_theme(name: &str) -> (r: Option<(syntect::highlighting::Theme, (Option<Color>, Option<Color>))>)
    ensures
        (match r {
            Some(x) => Some(x.1),
            None => None,
        }) == theme_colors_of(name@),
{
    let set = syntect::highlighting::ThemeSet::load_defaults();
    set.themes.get(name).map(|t| {
        let (f, b) = (t.settings.foreground, t.settings.background);
        (t.clone(), (f.map(|f| Color::Rgb(f.r, f.g, f.b)), b.map(|b| Color::Rgb(b.r, b.g, b.b))))
    })
}

/// The foreground color of the editor's theme, white where it names none.
pub open spec fn theme_fg() -> Color {
    match theme_colors_of("base16-ocean.dark"@) {
        Some((Some(f), _)) => f,
        _ => Color::White,
    }
}

/// The background color of the editor's theme, black where it names none.
pub open spec fn theme_bg() -> Color {
    match theme_colors_of("base16-ocean.dark"@) {
        Some((_, Some(b))) => b,
        _ => Color::Black,
    }
}

/// The foreground color of the editor's theme (white if the theme names none).
pub fn default_fg() -> (r: Color)
    ensures
        r == theme_fg(),
{
    match load_theme("base16-ocean.dark") {
        Some((_, (Some(f), _))) => f,
        _ => Color::White,
    }
}

/// The background color of the editor's theme (black if the theme names none).
pub fn default_bg() -> (r: Color)
    ensures
        r == theme_bg(),
{
    match load_theme("base16-ocean.dark") {
        Some((_, (_, Some(b)))) => b,
        _ => Color::Black,
    }
}

/// A view of blank black cells, with no cursor.
pub struct NullView {}

impl View for NullView {
    open spec fn covers(&self, col: usize, row: usize) -> bool {
        true
    }

    open spec fn spec_get(&self, col: usize, row: usize) -> ViewElem {
        (' ', Color::Black, Color::Black)
    }

    open spec fn has_cursor_pos(&self) -> bool {
        true
    }

    open spec fn spec_cursor(&self) -> Option<Cursor> {
        None
    }

    fn get(&self, col: usize, row: usize) -> (r: ViewElem) {
        (' ', Color::Black, Color::Black)
    }

    fn get_cursor_pos(&self) -> (r: Option<Cursor>) {
        None
    }
}

/// Makes a `NullView` for any region.
pub struct NullViewGen {}

impl ViewGen for NullViewGen {
    type Out = NullView;

    fn gen(&self, region: Area) -> (r: NullView) {
        NullView {}
    }
}

/// A copy of the cells of a view inside an area, and of its cursor.
pub struct CloneView {
    owned: Vec<Vec<ViewElem>>,
    cursor: Option<Cursor>,
    area: Area,
}

impl CloneView {
    /// The copy holds one row per row of the area, each as wide as the area.
    pub closed spec fn inv(&self) -> bool {
        &&& self.owned@.len() == self.area.height
        &&& forall|i: int| 0 <= i < self.owned@.len() ==> (#[trigger] self.owned@[i])@.len() == self.area.width
    }

    pub closed spec fn spec_area(&self) -> Area {
        self.area
    }

    /// Copies the cells of `orig` inside `area`, and its cursor.
    pub fn new<V: View>(orig: V, area: Area) -> (r: Self)
        requires
            area.height > 0,
            area.row + area.height <= usize::MAX + 1,
            area.col + area.width <= usize::MAX + 1,
            forall|c: usize, w: usize|
                area.col <= c < area.col + area.width && area.row <= w < area.row + area.height ==> #[trigger] orig.covers(c, w),
            orig.has_cursor_pos(),
        ensures
            r.inv(),
            r.spec_area() == area,
            r.spec_cursor() == orig.spec_cursor(),
            forall|c: usize, w: usize|
                area.col <= c < area.col + area.width && area.row <= w < area.row + area.height ==> #[trigger] r.covers(c, w)
                    && r.spec_get(c, w) == orig.spec_get(c, w),
    {
        let mut v: Vec<Vec<ViewElem>> = Vec::new();
        let mut i: usize = 0;
        while i < area.height
            invariant
                i <= area.height,
                area.row + area.height <= usize::MAX + 1,
                area.col + area.width <= usize::MAX + 1,
                forall|c: usize, w: usize|
                    area.col <= c < area.col + area.width && area.row <= w < area.row + area.height ==> #[trigger] orig.covers(c, w),
                v@.len() == i,
                forall|k: int| 0 <= k < i ==> (#[trigger] v@[k])@.len() == area.width,
                forall|k: int, j: int|
                    0 <= k < i && 0 <= j < area.width ==> #[trigger] v@[k]@[j] == orig.spec_get(
                        (area.col + j) as usize,
                        (area.row + k) as usize,
                    ),
            decreases area.height - i,
        {
            let mut vv: Vec<ViewElem> = Vec::new();
            let row = area.row + i;
            let mut j: usize = 0;
            while j < area.width
                invariant
                    j <= area.width,
                    i < area.height,
                    row == area.row + i,
                    area.row + area.height <= usize::MAX + 1,
                    area.col + area.width <= usize::MAX + 1,
                    forall|c: usize, w: usize|
                        area.col <= c < area.col + area.width && area.row <= w < area.row + area.height ==> #[trigger] orig.covers(c, w),
                    vv@.len() == j,
                    forall|q: int| 0 <= q < j ==> #[trigger] vv@[q] == orig.spec_get((area.col + q) as usize, row),
                decreases area.width - j,
            {
                let col = area.col + j;
                vv.push(orig.get(col, row));
                j = j + 1;
            }
            v.push(vv);
            i = i + 1;
        }
        let cursor = orig.get_cursor_pos();
        let r = CloneView { owned: v, cursor, area };
        assert forall|c: usize, w: usize|
            area.col <= c < area.col + area.width && area.row <= w < area.row + area.height implies #[trigger] r.covers(c, w)
                && r.spec_get(c, w) == orig.spec_get(c, w) by {
            assert(r.owned@[w - area.row]@[c - area.col] == orig.spec_get(
                (area.col + (c - area.col)) as usize,
                (area.row + (w - area.row)) as usize,
            ));
        }
        r
    }
}

impl CloneView {
    /// The copy has the cells of its area.
    pub proof fn lemma_covers(&self, col: usize, row: usize)
        ensures
            self.covers(col, row) == (self.inv() && self.spec_area().col <= col < self.spec_area().col
                + self.spec_area().width && self.spec_area().row <= row < self.spec_area().row + self.spec_area().height),
    {
    }

    /// Whether the copy has a cell at `(col, row)`.
    pub fn holds(&self, col: usize, row: usize) -> (r: bool)
        requires
            self.inv(),
        ensures
            r == self.covers(col, row),
    {
        self.area.col <= col && col - self.area.col < self.area.width && self.area.row <= row && row - self.area.row
            < self.area.height
    }
}

impl View for CloneView {
    closed spec fn covers(&self, col: usize, row: usize) -> bool {
        &&& self.inv()
        &&& self.area.col <= col < self.area.col + self.area.width
        &&& self.area.row <= row < self.area.row + self.area.height
    }

    closed spec fn spec_get(&self, col: usize, row: usize) -> ViewElem {
        self.owned@[row - self.area.row]@[col - self.area.col]
    }

    open spec fn has_cursor_pos(&self) -> bool {
        true
    }

    closed spec fn spec_cursor(&self) -> Option<Cursor> {
        self.cursor
    }

    fn get(&self, col: usize, row: usize) -> (r: ViewElem) {
        let i = row - self.area.row;
        let j = col - self.area.col;
        self.owned[i][j]
    }

    fn get_cursor_pos(&self) -> (r: Option<Cursor>) {
        self.cursor
    }
}

/// The part of each row in `area`, for the rows of `orig` that it reaches.
pub open spec fn clip<T>(orig: Seq<Seq<T>>, area: Area) -> Seq<Seq<T>> {
    let h = if area.height <= orig.len() - area.row { area.height as int } else { orig.len() - area.row };
    Seq::new(
        h as nat,
        |i: int|
            {
                let line = orig[area.row + i];
                if area.col < line.len() {
                    line.subrange(
                        area.col as int,
                        if area.col + area.width <= line.len() { area.col + area.width } else { line.len() as int },
                    )
                } else {
                    Seq::empty()
                }
            },
    )
}

/// The rows of a slice of rows.
pub open spec fn rows_of<T>(orig: Seq<Vec<T>>) -> Seq<Seq<T>> {
    orig.map_values(|v: Vec<T>| v@)
}

/// A copy of the part of a grid of items inside an area.
pub struct BufArea<T> {
    copy: Vec<Vec<T>>,
    area: Area,
}

impl<T: Copy> BufArea<T> {
    pub closed spec fn spec_copy(&self) -> Seq<Seq<T>> {
        rows_of(self.copy@)
    }

    pub closed spec fn spec_area(&self) -> Area {
        self.area
    }

    /// The item at `(col, row)`, if the copy holds one.
    pub open spec fn cell(&self, col: usize, row: usize) -> Option<T> {
        let i = row - self.spec_area().row;
        let j = col - self.spec_area().col;
        if i >= self.spec_copy().len() || j >= self.spec_copy()[i].len() {
            None
        } else {
            Some(self.spec_copy()[i][j])
        }
    }

    /// Whether `get` can answer at `(col, row)`: the position is not above or
    /// left of the area, and it is not on a row whose copy is empty.
    pub open spec fn get_ok(&self, col: usize, row: usize) -> bool {
        &&& self.spec_copy().len() > 0
        &&& row >= self.spec_area().row
        &&& col >= self.spec_area().col
        &&& row - self.spec_area().row < self.spec_copy().len() ==> self.spec_copy()[row - self.spec_area().row].len() > 0
    }

    /// Copies the part of `orig` inside `area`.
    pub fn new(orig: &[Vec<T>], area: Area) -> (r: Self)
        requires
            area.height > 0,
            area.row < orig@.len(),
            forall|i: int| area.row <= i < orig@.len() && i < area.row + area.height ==> (#[trigger] orig@[i])@.len() > 0,
        ensures
            r.spec_area() == area,
            r.spec_copy() == clip(rows_of(orig@), area),
            r.spec_copy().len() > 0,
    {
        let ghost src = rows_of(orig@);
        let ghost want = clip(src, area);
        let mut v: Vec<Vec<T>> = Vec::new();
        let n = orig.len();
        let mut i: usize = 0;
        while i < area.height
            invariant_except_break
                i <= area.height,
                area.row + i <= orig@.len(),
                rows_of(v@) == want.take(i as int),
            invariant
                n == orig@.len(),
                area.height > 0,
                area.row < orig@.len(),
                src == rows_of(orig@),
                want == clip(src, area),
                forall|k: int| area.row <= k < orig@.len() && k < area.row + area.height ==> (#[trigger] orig@[k])@.len() > 0,
            ensures
                rows_of(v@) == want,
            decreases area.height - i,
        {
            let row = area.row + i;
            if row > n - 1 {
                assert(want.len() == i);
                assert(want.take(i as int) == want);
                break;
            }
            let line = &orig[row];
            let ghost want_line = want[i as int];
            let ll = line.len();
            let mut vv: Vec<T> = Vec::new();
            let mut j: usize = 0;
            while j < area.width
                invariant_except_break
                    j <= area.width,
                    area.col + j <= line@.len() || j == 0,
                    vv@ == want_line.take(j as int),
                invariant
                    ll == line@.len(),
                    line@ == src[row as int],
                    line@.len() > 0,
                    want_line == (if area.col < line@.len() {
                        line@.subrange(
                            area.col as int,
                            if area.col + area.width <= line@.len() { area.col + area.width } else { line@.len() as int },
                        )
                    } else {
                        Seq::empty()
                    }),
                ensures
                    vv@ == want_line,
                decreases area.width - j,
            {
                let col = area.col + j;
                if col > ll - 1 {
                    assert(want_line.len() == j);
                    assert(want_line.take(j as int) =~= want_line);
                    break;
                }
                vv.push(line[col]);
                j = j + 1;
                proof {
                    if j == area.width {
                        assert(want_line.len() == j);
                        assert(want_line.take(j as int) =~= want_line);
                    }
                }
            }
            let ghost prev = rows_of(v@);
            v.push(vv);
            i = i + 1;
            proof {
                assert(rows_of(v@) =~= prev.push(want_line));
                assert(want.take(i as int) =~= want.take(i - 1).push(want_line));
                if i == area.height {
                    assert(want.len() == i);
                    assert(want.take(i as int) =~= want);
                }
            }
        }
        assert(want.len() > 0);
        BufArea { copy: v, area }
    }

    /// The item at `(col, row)`, if the copy holds one.
    pub fn get(&self, col: usize, row: usize) -> (r: Option<&T>)
        requires
            self.get_ok(col, row),
        ensures
            match r {
                Some(x) => self.cell(col, row) == Some(*x),
                None => self.cell(col, row) is None,
            },
    {
        let copy_row = row - self.area.row;
        let copy_col = col - self.area.col;
        if copy_row > self.copy.len() - 1 || copy_col > self.copy[copy_row].len() - 1 {
            None
        } else {
            Some(&self.copy[copy_row][copy_col])
        }
    }

    /// The last item of the last row of the copy.
    pub fn last_some(&self) -> (r: &T)
        requires
            self.spec_copy().len() > 0,
            self.spec_copy().last().len() > 0,
        ensures
            *r == self.spec_copy().last().last(),
    {
        let row = self.copy.len() - 1;
        let col = self.copy[row].len() - 1;
        &self.copy[row][col]
    }
}

/// The character a buffer element shows: the end of a line shows as a blank.
pub open spec fn elem_char(e: BufElem) -> char {
    match e {
        BufElem::Char(c) => c,
        BufElem::Eol => ' ',
    }
}

fn to_char(e: BufElem) -> (r: char)
    ensures
        r == elem_char(e),
{
    match e {
        BufElem::Char(c) => c,
        BufElem::Eol => ' ',
    }
}

/// A view of the rows of a buffer, in the colors of the theme.
pub struct ToViewRef<'a> {
    pub back: &'a [Vec<BufElem>],
    pub fg: Color,
    pub bg: Color,
}

impl<'a> ToViewRef<'a> {
    pub open spec fn colors(&self) -> (Color, Color) {
        (self.fg, self.bg)
    }

    /// Shows `back` in the theme's colors.
    pub fn new(back: &'a [Vec<BufElem>]) -> (r: Self)
        ensures
            r.back == back,
            r.colors() == (theme_fg(), theme_bg()),
    {
        ToViewRef { back, fg: default_fg(), bg: default_bg() }
    }
}

impl<'a> View for ToViewRef<'a> {
    open spec fn covers(&self, col: usize, row: usize) -> bool {
        &&& self.back@.len() > 0
        &&& row < self.back@.len() ==> self.back@[row as int]@.len() > 0
    }

    open spec fn spec_get(&self, col: usize, row: usize) -> ViewElem {
        let c = if row >= self.back@.len() || col >= self.back@[row as int]@.len() {
            ' '
        } else {
            elem_char(self.back@[row as int]@[col as int])
        };
        (c, self.colors().0, self.colors().1)
    }

    open spec fn has_cursor_pos(&self) -> bool {
        true
    }

    open spec fn spec_cursor(&self) -> Option<Cursor> {
        None
    }

    fn get(&self, col: usize, row: usize) -> (r: ViewElem) {
        if row > self.back.len() - 1 || col > self.back[row].len() - 1 {
            (' ', self.fg, self.bg)
        } else {
            (to_char(self.back[row][col]), self.fg, self.bg)
        }
    }

    fn get_cursor_pos(&self) -> (r: Option<Cursor>) {
        None
    }
}

/// A view of a copied area of a buffer, white on black.
pub struct ToView {
    buf_area: BufArea<BufElem>,
}

impl ToView {
    pub closed spec fn spec_buf_area(&self) -> BufArea<BufElem> {
        self.buf_area
    }

    /// Copies the part of `orig` inside `area`.
    pub fn new(orig: &[Vec<BufElem>], area: Area) -> (r: Self)
        requires
            area.height > 0,
            area.row < orig@.len(),
            forall|i: int| area.row <= i < orig@.len() && i < area.row + area.height ==> (#[trigger] orig@[i])@.len() > 0,
        ensures
            r.spec_buf_area().spec_area() == area,
            r.spec_buf_area().spec_copy() == clip(rows_of(orig@), area),
    {
        ToView { buf_area: BufArea::new(orig, area) }
    }
}

impl View for ToView {
    open spec fn covers(&self, col: usize, row: usize) -> bool {
        self.spec_buf_area().get_ok(col, row)
    }

    open spec fn spec_get(&self, col: usize, row: usize) -> ViewElem {
        match self.spec_buf_area().cell(col, row) {
            Some(e) => (elem_char(e), Color::White, Color::Black),
            None => (' ', Color::White, Color::Black),
        }
    }

    open spec fn has_cursor_pos(&self) -> bool {
        true
    }

    open spec fn spec_cursor(&self) -> Option<Cursor> {
        None
    }

    fn get(&self, col: usize, row: usize) -> (r: ViewElem) {
        match self.buf_area.get(col, row) {
            Some(e) => (to_char(*e), Color::White, Color::Black),
            None => (' ', Color::White, Color::Black),
        }
    }

    fn get_cursor_pos(&self) -> (r: Option<Cursor>) {
        None
    }
}

/// A view of blank cells in one color.
pub struct BgColor {
    bg: Color,
}

impl View for BgColor {
    closed spec fn covers(&self, col: usize, row: usize) -> bool {
        true
    }

    closed spec fn spec_get(&self, col: usize, row: usize) -> ViewElem {
        (' ', self.bg, self.bg)
    }

    closed spec fn has_cursor_pos(&self) -> bool {
        true
    }

    closed spec fn spec_cursor(&self) -> Option<Cursor> {
        None
    }

    fn get(&self, col: usize, row: usize) -> (r: ViewElem) {
        (' ', self.bg, self.bg)
    }

    fn get_cursor_pos(&self) -> (r: Option<Cursor>) {
        None
    }
}

/// How wide the column of line numbers is.
pub const LINE_NUMBER_W: usize = 7;

/// The character of a decimal digit.
pub open spec fn digit(d: int) -> char {
    (48 + d) as char
}

/// The decimal digits of `n`.
pub open spec fn decimal(n: nat) -> Seq<char>
    decreases n,
{
    if n < 10 {
        seq![digit(n as int)]
    } else {
        decimal(n / 10).push(digit((n % 10) as int))
    }
}

/// A line number as the column shows it: right-aligned in five places, then
/// two blanks.
pub open spec fn lineno_text(n: nat) -> Seq<char> {
    let d = decimal(n);
    let pad = if d.len() < 5 { 5 - d.len() } else { 0 };
    Seq::new(pad as nat, |i: int| ' ') + d + seq![' ', ' ']
}

fn decimal_digits(n: usize) -> (r: Vec<char>)
    ensures
        r@ == decimal(n as nat),
    decreases n,
{
    let d = ((n % 10) as u8 + 48u8) as char;
    if n < 10 {
        let mut v: Vec<char> = Vec::new();
        v.push(d);
        v
    } else {
        let mut v = decimal_digits(n / 10);
        v.push(d);
        v
    }
}

/// The numbers `from` to `to`, one per row from row 0.
pub struct LineNumber {
    pub from: usize,
    pub to: usize,
}

impl View for LineNumber {
    open spec fn covers(&self, col: usize, row: usize) -> bool {
        &&& self.from + row <= usize::MAX
        &&& self.from + row <= self.to ==> col < lineno_text((self.from + row) as nat).len()
    }

    open spec fn spec_get(&self, col: usize, row: usize) -> ViewElem {
        let n = self.from + row;
        let c = if n <= self.to { lineno_text(n as nat)[col as int] } else { ' ' };
        (c, Color::White, Color::Black)
    }

    open spec fn has_cursor_pos(&self) -> bool {
        true
    }

    open spec fn spec_cursor(&self) -> Option<Cursor> {
        None
    }

    fn get(&self, col: usize, row: usize) -> (r: ViewElem) {
        let n = self.from + row;
        let c = if n <= self.to {
            let digits = decimal_digits(n);
            let mut line: Vec<char> = Vec::new();
            let pad: usize = if digits.len() < 5 { 5 - digits.len() } else { 0 };
            let mut k: usize = 0;
            while k < pad
                invariant
                    k <= pad,
                    line@ == Seq::new(k as nat, |i: int| ' '),
                decreases pad - k,
            {
                line.push(' ');
                k = k + 1;
                assert(line@ == Seq::new(k as nat, |i: int| ' '));
            }
            let mut q: usize = 0;
            let ghost pad = line@;
            while q < digits.len()
                invariant
                    q <= digits@.len(),
                    line@ == pad + digits@.take(q as int),
                decreases digits@.len() - q,
            {
                line.push(digits[q]);
                q = q + 1;
            }
            assert(digits@.take(digits@.len() as int) == digits@);
            line.push(' ');
            line.push(' ');
            assert(line@ == lineno_text(n as nat));
            line[col]
        } else {
            ' '
        };
        (c, Color::White, Color::Black)
    }

    fn get_cursor_pos(&self) -> (r: Option<Cursor>) {
        None
    }
}

/// A view with its cursor replaced.
pub struct AddCursor<V> {
    x: V,
    cursor: Option<Cursor>,
}

impl<V: View> AddCursor<V> {
    pub closed spec fn inner(&self) -> V {
        self.x
    }

    /// `x` with the cursor at `cursor`.
    pub fn new(x: V, cursor: Option<Cursor>) -> (r: Self)
        ensures
            r.inner() == x,
            r.spec_cursor() == cursor,
    {
        AddCursor { x, cursor }
    }
}

impl<V: View> View for AddCursor<V> {
    open spec fn covers(&self, col: usize, row: usize) -> bool {
        self.inner().covers(col, row)
    }

    open spec fn spec_get(&self, col: usize, row: usize) -> ViewElem {
        self.inner().spec_get(col, row)
    }

    open spec fn has_cursor_pos(&self) -> bool {
        true
    }

    closed spec fn spec_cursor(&self) -> Option<Cursor> {
        self.cursor
    }

    fn get(&self, col: usize, row: usize) -> (r: ViewElem) {
        self.x.get(col, row)
    }

    fn get_cursor_pos(&self) -> (r: Option<Cursor>) {
        self.cursor
    }
}

/// A view moved by `diff_col` columns and `diff_row` rows.
pub struct TranslateView<V> {
    x: V,
    diff_col: i32,
    diff_row: i32,
}

/// `p` moved by `d`, where both fit the arithmetic of the move.
pub open spec fn moves(p: usize, d: i32) -> bool {
    p <= i32::MAX && 0 <= p + d <= i32::MAX
}

impl<V: View> TranslateView<V> {
    pub closed spec fn inner(&self) -> V {
        self.x
    }

    pub closed spec fn offset(&self) -> (i32, i32) {
        (self.diff_col, self.diff_row)
    }

    /// `x` moved right by `diff_col` and down by `diff_row`.
    pub fn new(x: V, diff_col: i32, diff_row: i32) -> (r: Self)
        ensures
            r.inner() == x,
            r.offset() == (diff_col, diff_row),
    {
        TranslateView { x, diff_col, diff_row }
    }
}

impl<V: View> View for TranslateView<V> {
    open spec fn covers(&self, col: usize, row: usize) -> bool {
        &&& col <= i32::MAX && 0 <= col - self.offset().0 <= i32::MAX
        &&& row <= i32::MAX && 0 <= row - self.offset().1 <= i32::MAX
        &&& self.inner().covers((col - self.offset().0) as usize, (row - self.offset().1) as usize)
    }

    open spec fn spec_get(&self, col: usize, row: usize) -> ViewElem {
        self.inner().spec_get((col - self.offset().0) as usize, (row - self.offset().1) as usize)
    }

    open spec fn has_cursor_pos(&self) -> bool {
        &&& self.inner().has_cursor_pos()
        &&& self.inner().spec_cursor() is Some ==> moves(self.inner().spec_cursor()->0.row, self.offset().1) && moves(
            self.inner().spec_cursor()->0.col,
            self.offset().0,
        )
    }

    open spec fn spec_cursor(&self) -> Option<Cursor> {
        match self.inner().spec_cursor() {
            Some(cur) => Some(
                Cursor {
                    row: (cur.row + self.offset().1) as usize,
                    col: (cur.col + self.offset().0) as usize,
                },
            ),
            None => None,
        }
    }

    fn get(&self, col: usize, row: usize) -> (r: ViewElem) {
        let c = (col as i32 - self.diff_col) as usize;
        let r = (row as i32 - self.diff_row) as usize;
        self.x.get(c, r)
    }

    fn get_cursor_pos(&self) -> (r: Option<Cursor>) {
        match self.x.get_cursor_pos() {
            Some(cur) => Some(
                Cursor {
                    row: (cur.row as i32 + self.diff_row) as usize,
                    col: (cur.col as i32 + self.diff_col) as usize,
                },
            ),
            None => None,
        }
    }
}

/// Two views, one above the other: rows from `row_offset` on come from the
/// bottom one.
pub struct MergeVertical<V1, V2> {
    pub top: V1,
    pub bottom: V2,
    pub row_offset: usize,
}

impl<V1: View, V2: View> View for MergeVertical<V1, V2> {
    open spec fn covers(&self, col: usize, row: usize) -> bool {
        if row < self.row_offset {
            self.top.covers(col, row)
        } else {
            self.bottom.covers(col, row)
        }
    }

    open spec fn spec_get(&self, col: usize, row: usize) -> ViewElem {
        if row < self.row_offset {
            self.top.spec_get(col, row)
        } else {
            self.bottom.spec_get(col, row)
        }
    }

    open spec fn has_cursor_pos(&self) -> bool {
        self.top.has_cursor_pos() && self.bottom.has_cursor_pos()
    }

    open spec fn spec_cursor(&self) -> Option<Cursor> {
        match self.top.spec_cursor() {
            Some(c) => Some(c),
            None => self.bottom.spec_cursor(),
        }
    }

    fn get(&self, col: usize, row: usize) -> (r: ViewElem) {
        if row < self.row_offset {
            self.top.get(col, row)
        } else {
            self.bottom.get(col, row)
        }
    }

    fn get_cursor_pos(&self) -> (r: Option<Cursor>) {
        let t = self.top.get_cursor_pos();
        let b = self.bottom.get_cursor_pos();
        match t {
            Some(c) => Some(c),
            None => b,
        }
    }
}

/// Two views side by side: columns from `col_offset` on come from the right
/// one.
pub struct MergeHorizontal<V1, V2> {
    pub left: V1,
    pub right: V2,
    pub col_offset: usize,
}

impl<V1: View, V2: View> View for MergeHorizontal<V1, V2> {
    open spec fn covers(&self, col: usize, row: usize) -> bool {
        if col < self.col_offset {
            self.left.covers(col, row)
        } else {
            self.right.covers(col, row)
        }
    }

    open spec fn spec_get(&self, col: usize, row: usize) -> ViewElem {
        if col < self.col_offset {
            self.left.spec_get(col, row)
        } else {
            self.right.spec_get(col, row)
        }
    }

    open spec fn has_cursor_pos(&self) -> bool {
        self.left.has_cursor_pos() && self.right.has_cursor_pos()
    }

    open spec fn spec_cursor(&self) -> Option<Cursor> {
        match self.left.spec_cursor() {
            Some(c) => Some(c),
            None => self.right.spec_cursor(),
        }
    }

    fn get(&self, col: usize, row: usize) -> (r: ViewElem) {
        if col < self.col_offset {
            self.left.get(col, row)
        } else {
            self.right.get(col, row)
        }
    }

    fn get_cursor_pos(&self) -> (r: Option<Cursor>) {
        let l = self.left.get_cursor_pos();
        let r = self.right.get_cursor_pos();
        match l {
            Some(c) => Some(c),
            None => r,
        }
    }
}

/// What a cell shows with a layer over it: each part that the layer names
/// replaces the cell's own.
pub open spec fn overlay(v: ViewElem, d: ViewElemDiff) -> ViewElem {
    (
        match d.0 {
            Some(x) => x,
            None => v.0,
        },
        match d.1 {
            Some(x) => x,
            None => v.1,
        },
        match d.2 {
            Some(x) => x,
            None => v.2,
        },
    )
}

/// A view with a layer over it.
pub struct OverlayView<V, D> {
    v: V,
    d: D,
}

impl<V: View, D: DiffView> OverlayView<V, D> {
    pub closed spec fn base(&self) -> V {
        self.v
    }

    pub closed spec fn layer(&self) -> D {
        self.d
    }

    /// `d` over `v`.
    pub fn new(v: V, d: D) -> (r: Self)
        ensures
            r.base() == v,
            r.layer() == d,
    {
        OverlayView { v, d }
    }
}

impl<V: View, D: DiffView> View for OverlayView<V, D> {
    open spec fn covers(&self, col: usize, row: usize) -> bool {
        self.base().covers(col, row) && self.layer().diff_covers(col, row)
    }

    open spec fn spec_get(&self, col: usize, row: usize) -> ViewElem {
        overlay(self.base().spec_get(col, row), self.layer().spec_diff(col, row))
    }

    open spec fn has_cursor_pos(&self) -> bool {
        self.base().has_cursor_pos()
    }

    open spec fn spec_cursor(&self) -> Option<Cursor> {
        self.base().spec_cursor()
    }

    fn get(&self, col: usize, row: usize) -> (r: ViewElem) {
        let (v0, v1, v2) = self.v.get(col, row);
        let (d0, d1, d2) = self.d.get(col, row);
        let c0 = match d0 {
            Some(x) => x,
            None => v0,
        };
        let c1 = match d1 {
            Some(x) => x,
            None => v1,
        };
        let c2 = match d2 {
            Some(x) => x,
            None => v2,
        };
        (c0, c1, c2)
    }

    fn get_cursor_pos(&self) -> (r: Option<Cursor>) {
        self.v.get_cursor_pos()
    }
}

} // verus!
