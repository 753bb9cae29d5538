use vstd::prelude::*;
use syntect::easy::HighlightLines;
use syntect::highlighting::{HighlightState, Theme};
use syntect::parsing::{ParseState, SyntaxReference, SyntaxSet};
use crate::read_buffer::BufElem;
use crate::screen::Color;
use crate::view::{DiffView, ViewElemDiff, load_theme};
use super::clipboard::{to_str, text_of_elems};
use crate::read_buffer::chars_of;

verus! {

/// A piece of a highlighted line as values: its foreground, its background
/// and its characters.
pub type PieceView = (Color, Color, Seq<char>);

/// The pieces as values.
pub open spec fn pieces_view(v: Seq<(Color, Color, String)>) -> Seq<PieceView> {
    Seq::new(v.len(), |i: int| (v[i].0, v[i].1, v[i].2@))
}

#[verifier::external_type_specification]
#[verifier::external_body]
pub struct ExSyntaxSet(SyntaxSet);

#[verifier::external_type_specification]
#[verifier::external_body]
pub struct ExSyntaxReference(SyntaxReference);

#[verifier::external_type_specification]
#[verifier::external_body]
pub struct ExHighlightState(HighlightState);

#[verifier::external_type_specification]
#[verifier::external_body]
pub struct ExParseState(ParseState);

/// The characters of the pieces, one after the other.
pub open spec fn concat_pieces(v: Seq<PieceView>) -> Seq<char>
    decreases v.len(),
{
    if v.len() == 0 {
        Seq::empty()
    } else {
        concat_pieces(v.drop_last()) + v.last().2
    }
}

/// Calls `SyntaxSet::load_defaults_newlines`: the syntaxes bundled with
/// syntect, for lines that keep their newline. Nothing is stated of them.
#[verifier::external_body]
fn load_syntaxes() -> (r: SyntaxSet) {
    SyntaxSet::load_defaults_newlines()
}

/// Calls `SyntaxSet::find_syntax_by_extension`: a copy of the syntax that
/// the set gives for files with the extension `ext`, if it has one. Nothing
/// is stated of which syntax that is.
#[verifier::external_body]
fn find_syntax_by_extension(set: &SyntaxSet, ext: &str) -> (r: Option<SyntaxReference>) {
    set.find_syntax_by_extension(ext).cloned()
}

/// Calls `SyntaxSet::find_syntax_by_name`: a copy of the syntax called
/// `name` in the set, if it has one. Nothing is stated of which syntax that is.
#[verifier::external_body]
fn find_syntax_by_name(set: &SyntaxSet, name: &str) -> (r: Option<SyntaxReference>) {
    set.find_syntax_by_name(name).cloned()
}

/// Calls `HighlightLines::new` with the syntax and the theme and takes its
/// state (`HighlightLines::state`): where highlighting a file starts.
/// Nothing is stated of it.
#[verifier::external_body]
fn start_state(syntax: &SyntaxReference, theme: &Theme) -> (r: (HighlightState, ParseState)) {
    HighlightLines::new(syntax, theme).state()
}

/// Calls `HighlightLines::highlight_line` on `line`, resumed from `state`
/// (`HighlightLines::from_state`) with the theme, and leaves in `state` where
/// it stopped (`HighlightLines::state`): the pieces of the line with their
/// colors, `None` when the line could not be parsed. The pieces depend on
/// the lines highlighted before, which `state` holds and the contract does
/// not describe; what is stated is what holds of every outcome: as the crate
/// documents, the pieces of a line make up the line.
#[verifier::external_body]
fn highlight_line(state: &mut (HighlightState, ParseState), theme: &Theme, set: &SyntaxSet, line: &str) -> (r: Option<
    Vec<(Color, Color, String)>,
>)
    ensures
        r matches Some(v) ==> concat_pieces(pieces_view(v@)) == line@,
{
    let (hs, ps) = state.clone();
    let mut h = HighlightLines::from_state(theme, hs, ps);
    let r = h.highlight_line(line, set).ok().map(|v| v.iter().map(|(s, p)| {
        let (f, b) = (s.foreground, s.background);
        (Color::Rgb(f.r, f.g, f.b), Color::Rgb(b.r, b.g, b.b), p.to_string())
    }).collect());
    *state = h.state();
    r
}

/// Where highlighting the file stands: the theme, and the state after the
/// rows highlighted so far.
pub struct LineStream {
    theme: Theme,
    state: (HighlightState, ParseState),
}

/// The colors of the rows of a buffer, element by element, as the syntax of
/// its file gives them. Rows are highlighted one after another, in the order
/// they are asked for, each from where the one before left off.
pub struct Highlighter {
    pub ext: String,
    pub cache: Vec<Vec<(Color, Color)>>,
    pub bg_default: Color,
    pub syntaxes: SyntaxSet,
    pub stream: Option<LineStream>,
}

/// Every row of the cache is empty.
pub open spec fn all_empty(c: Seq<Vec<(Color, Color)>>) -> bool {
    forall|i: int| 0 <= i < c.len() ==> (#[trigger] c[i])@.len() == 0
}

/// The colors of the pieces, one per character.
pub open spec fn piece_cells(v: Seq<PieceView>) -> Seq<(Color, Color)>
    decreases v.len(),
{
    if v.len() == 0 {
        Seq::empty()
    } else {
        piece_cells(v.drop_last()) + Seq::new(v.last().2.len(), |i: int| (v.last().0, v.last().1))
    }
}

/// The colors that highlighting a row with the text `t` leaves: none, where
/// it could not be parsed, or those of pieces that make up `t`, one pair per
/// character.
pub open spec fn highlight_cells(c: Seq<(Color, Color)>, t: Seq<char>) -> bool {
    c.len() == 0 || exists|p: Seq<PieceView>| concat_pieces(p) == t && c == piece_cells(p)
}

/// The syntax of files with the extension `ext`, plain text where the
/// bundled set has none for it.
fn syntax_for(set: &SyntaxSet, ext: &str) -> (r: Option<SyntaxReference>) {
    match find_syntax_by_extension(set, ext) {
        Some(s) => Some(s),
        None => find_syntax_by_name(set, "Plain Text"),
    }
}

fn empty_rows(n: usize) -> (r: Vec<Vec<(Color, Color)>>)
    ensures
        r@.len() == n,
        all_empty(r@),
{
    let mut v: Vec<Vec<(Color, Color)>> = Vec::new();
    let mut i: usize = 0;
    while i < n
        invariant
            i <= n,
            v@.len() == i,
            all_empty(v@),
        decreases n - i,
    {
        v.push(Vec::new());
        i = i + 1;
    }
    v
}

/// One color pair per character of the pieces.
pub fn cells_of(v: &Vec<(Color, Color, String)>) -> (r: Vec<(Color, Color)>)
    ensures
        r@ == piece_cells(pieces_view(v@)),
        r@.len() == concat_pieces(pieces_view(v@)).len(),
{
    let ghost pv = pieces_view(v@);
    let mut out: Vec<(Color, Color)> = Vec::new();
    let mut i: usize = 0;
    while i < v.len()
        invariant
            i <= v@.len(),
            pv == pieces_view(v@),
            out@ == piece_cells(pv.take(i as int)),
            out@.len() == concat_pieces(pv.take(i as int)).len(),
        decreases v@.len() - i,
    {
        let (fg, bg, s) = (v[i].0, v[i].1, &v[i].2);
        let cs = chars_of(s.as_str());
        let mut j: usize = 0;
        let ghost base = out@;
        while j < cs.len()
            invariant
                j <= cs@.len(),
                cs@ == s@,
                out@ == base + Seq::new(j as nat, |k: int| (fg, bg)),
            decreases cs@.len() - j,
        {
            out.push((fg, bg));
            j = j + 1;
            assert(out@ =~= base + Seq::new(j as nat, |k: int| (fg, bg)));
        }
        proof {
            let t = pv.take(i + 1);
            assert(t.drop_last() == pv.take(i as int));
            assert(t.last() == pv[i as int]);
            assert(pv[i as int] == (fg, bg, s@));
        }
        i = i + 1;
    }
    assert(pv.take(v@.len() as int) == pv);
    out
}

impl Highlighter {
    /// A highlighter for `n_rows` rows of a file with the extension `ext`
    /// (Rust's syntax where there is none; plain text where the bundled
    /// syntaxes have none for it), in the theme `base16-ocean.dark`, with
    /// nothing highlighted yet, whose cells without colors show the theme's
    /// background.
    pub fn new(n_rows: usize, ext: Option<&str>) -> (r: Self)
        ensures
            r.cache@.len() == n_rows,
            all_empty(r.cache@),
            r.ext@ == (match ext {
                Some(e) => e@,
                None => "rs"@,
            }),
            r.bg_default == crate::view::theme_bg(),
    {
        let ext = match ext {
            Some(e) => e.to_string(),
            None => "rs".to_string(),
        };
        let syntaxes = load_syntaxes();
        let stream = match (syntax_for(&syntaxes, ext.as_str()), load_theme("base16-ocean.dark")) {
            (Some(syntax), Some((theme, _))) => {
                let state = start_state(&syntax, &theme);
                Some(LineStream { theme, state })
            },
            _ => None,
        };
        Highlighter { ext, cache: empty_rows(n_rows), bg_default: crate::view::default_bg(), syntaxes, stream }
    }

    /// Forgets every row's colors; the buffer has `n_rows` rows now.
    pub fn clear_cache(&mut self, n_rows: usize)
        ensures
            final(self).cache@.len() == n_rows,
            all_empty(final(self).cache@),
            final(self).bg_default == old(self).bg_default,
            final(self).ext == old(self).ext,
    {
        self.cache = empty_rows(n_rows);
    }

    /// Highlights the text `t` of the next row: its colors, none where it
    /// could not be parsed or no syntax was found.
    fn next_row(&mut self, t: &str) -> (r: Vec<(Color, Color)>)
        ensures
            highlight_cells(r@, t@),
            r@.len() == 0 || r@.len() == t@.len(),
            final(self).cache == old(self).cache,
            final(self).bg_default == old(self).bg_default,
            final(self).ext == old(self).ext,
    {
        let mut stream: Option<LineStream> = None;
        core::mem::swap(&mut stream, &mut self.stream);
        match stream {
            Some(mut s) => {
                let res = highlight_line(&mut s.state, &s.theme, &self.syntaxes, t);
                self.stream = Some(s);
                match res {
                    Some(v) => {
                        let cells = cells_of(&v);
                        proof {
                            assert(concat_pieces(pieces_view(v@)) == t@);
                        }
                        cells
                    },
                    None => Vec::new(),
                }
            },
            None => Vec::new(),
        }
    }

    /// Highlights, one after another, the rows of `buf` from `lo` to `hi`
    /// (excluded) that have no colors yet: each gets the colors of pieces
    /// that make up its text, one pair per element, or none where it could
    /// not be parsed. The other rows keep theirs.
    pub fn update_cache(&mut self, lo: usize, hi: usize, buf: &[Vec<BufElem>])
        ensures
            final(self).cache@.len() == old(self).cache@.len(),
            final(self).bg_default == old(self).bg_default,
            final(self).ext == old(self).ext,
            forall|r: int|
                0 <= r < old(self).cache@.len() ==> if lo <= r < hi && r < buf@.len() && old(self).cache@[r]@.len() == 0 {
                    &&& highlight_cells((#[trigger] final(self).cache@[r])@, text_of_elems(buf@[r]@))
                    &&& final(self).cache@[r]@.len() == 0 || final(self).cache@[r]@.len() == buf@[r]@.len()
                } else {
                    final(self).cache@[r] == old(self).cache@[r]
                },
    {
        let n = self.cache.len();
        let mut m = if hi < buf.len() { hi } else { buf.len() };
        if n < m {
            m = n;
        }
        let mut row: usize = lo;
        while row < m
            invariant
                n == old(self).cache@.len(),
                self.cache@.len() == n,
                m <= n,
                m <= buf@.len(),
                m <= hi,
                m == hi || m == buf@.len() || m == n,
                lo <= row,
                row <= m || row == lo,
                forall|r: int| row <= r < n ==> #[trigger] self.cache@[r] == old(self).cache@[r],
                self.bg_default == old(self).bg_default,
                self.ext == old(self).ext,
                forall|r: int|
                    0 <= r < n ==> if lo <= r < row && r < buf@.len() && old(self).cache@[r]@.len() == 0 {
                        &&& highlight_cells((#[trigger] self.cache@[r])@, text_of_elems(buf@[r]@))
                        &&& self.cache@[r]@.len() == 0 || self.cache@[r]@.len() == buf@[r]@.len()
                    } else {
                        self.cache@[r] == old(self).cache@[r]
                    },
            decreases m - row,
        {
            let ghost c0 = self.cache@;
            if self.cache[row].len() == 0 {
                let text = crate::status::string_of(&to_str(buf[row].as_slice()));
                let cells = self.next_row(text.as_str());
                proof {
                    assert(self.cache@ == c0);
                    assert(text@ == text_of_elems(buf@[row as int]@));
                }
                self.cache.set(row, cells);
            }
            proof {
                assert forall|r: int|
                    0 <= r < n implies if lo <= r < row + 1 && r < buf@.len() && old(self).cache@[r]@.len() == 0 {
                    &&& highlight_cells((#[trigger] self.cache@[r])@, text_of_elems(buf@[r]@))
                    &&& self.cache@[r]@.len() == 0 || self.cache@[r]@.len() == buf@[r]@.len()
                } else {
                    self.cache@[r] == old(self).cache@[r]
                } by {
                    if r != row {
                        assert(self.cache@[r] == c0[r]);
                    } else {
                        assert(c0[r] == old(self).cache@[r]);
                    }
                }
            }
            row = row + 1;
        }
        proof {
            assert forall|r: int|
                0 <= r < n implies if lo <= r < hi && r < buf@.len() && old(self).cache@[r]@.len() == 0 {
                &&& highlight_cells((#[trigger] self.cache@[r])@, text_of_elems(buf@[r]@))
                &&& self.cache@[r]@.len() == 0 || self.cache@[r]@.len() == buf@[r]@.len()
            } else {
                self.cache@[r] == old(self).cache@[r]
            } by {
                if lo <= r < hi && r < buf@.len() && old(self).cache@[r]@.len() == 0 {
                    assert(r < row || r >= m);
                    assert(r < n);
                    assert(r < m);
                }
            }
        }
    }
}

/// The layer of a highlighter's colors; where a cell has none, the theme's
/// background.
pub struct HighlightDiffViewRef<'a> {
    pub back: &'a Highlighter,
}

impl<'a> HighlightDiffViewRef<'a> {
    pub fn new(x: &'a Highlighter) -> (r: Self)
        ensures
            r.back == x,
    {
        HighlightDiffViewRef { back: x }
    }
}

impl<'a> DiffView for HighlightDiffViewRef<'a> {
    open spec fn diff_covers(&self, col: usize, row: usize) -> bool {
        true
    }

    open spec fn spec_diff(&self, col: usize, row: usize) -> ViewElemDiff {
        let c = self.back.cache@;
        if row < c.len() && col < c[row as int]@.len() {
            (None, Some(c[row as int]@[col as int].0), Some(c[row as int]@[col as int].1))
        } else {
            (None, None, Some(self.back.bg_default))
        }
    }

    fn get(&self, col: usize, row: usize) -> (r: ViewElemDiff) {
        if row < self.back.cache.len() && col < self.back.cache[row].len() {
            let (fg, bg) = self.back.cache[row][col];
            (None, Some(fg), Some(bg))
        } else {
            (None, None, Some(self.back.bg_default))
        }
    }
}

} // verus!
