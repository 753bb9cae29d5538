use ijk::edit_buffer::highlight::{HighlightDiffViewRef, Highlighter};
use ijk::view::default_bg;
use ijk::read_buffer::BufElem;
use ijk::view::DiffView;

fn line(s: &str) -> Vec<BufElem> {
    let mut v: Vec<BufElem> = s.chars().map(BufElem::Char).collect();
    v.push(BufElem::Eol);
    v
}

#[test]
fn highlight_gives_a_color_per_element() {
    let buf = vec![line("fn main() {"), line("}")];
    let mut h = Highlighter::new(2, Some("rs"));
    assert!(h.cache.iter().all(|r| r.is_empty()));
    h.update_cache(0, 2, &buf);
    assert_eq!(h.cache[0].len(), buf[0].len());
    assert_eq!(h.cache[1].len(), buf[1].len());
    assert_ne!(h.cache[0][0].0, h.cache[0][3].0);
}

#[test]
fn highlight_only_the_rows_asked_for() {
    let buf = vec![line("fn main() {"), line("}"), line("")];
    let mut h = Highlighter::new(3, Some("rs"));
    h.update_cache(1, 2, &buf);
    assert!(h.cache[0].is_empty());
    assert_eq!(h.cache[1].len(), 2);
    assert!(h.cache[2].is_empty());
    h.clear_cache(3);
    assert!(h.cache.iter().all(|r| r.is_empty()));
}

#[test]
fn highlight_layer_falls_back_to_the_background() {
    let buf = vec![line("x")];
    let mut h = Highlighter::new(1, None);
    h.update_cache(0, 1, &buf);
    let layer = HighlightDiffViewRef::new(&h);
    let (c, fg, bg) = layer.get(0, 0);
    assert_eq!(c, None);
    assert_eq!(fg, Some(h.cache[0][0].0));
    assert_eq!(bg, Some(h.cache[0][0].1));
    assert_eq!(layer.get(5, 0), (None, None, Some(h.bg_default)));
    assert_eq!(layer.get(0, 9), (None, None, Some(h.bg_default)));
}

#[test]
fn highlighter_starts_with_the_extension_and_the_theme_background() {
    let h = Highlighter::new(2, None);
    assert_eq!(h.ext, "rs");
    assert_eq!(h.bg_default, default_bg());
    let h = Highlighter::new(0, Some("py"));
    assert_eq!(h.ext, "py");
    assert!(h.cache.is_empty());
}

#[test]
fn highlight_an_unknown_extension_as_plain_text() {
    let buf = vec![line("fn main() {")];
    let mut h = Highlighter::new(1, Some("no-such-extension"));
    h.update_cache(0, 1, &buf);
    assert_eq!(h.cache[0].len(), buf[0].len());
}
