use vstd::prelude::*;
use crate::Key;
use crate::read_buffer::{BufElem, max_size};
use super::EditBuffer;
use super::effects::{INSERT, SNIPPET, MAX_SIZE};
use super::diff_tree::{ChildComponent, ChildView, NodeView, child_view, child_views, flat, views_rolled_back, views_with_children};
use super::snippet::{Snippet, char_elems, elem_of, searched};
use super::snippet_parser::{ElemView, SnippetElem, elems_view};

verus! {

/// The order given to a tab stop numbered 0, and to the tab stop added at the
/// end of a snippet without one: after all others.
pub const LAST_TAB_STOP: usize = 10000000;

/// The piece that a parsed element of a snippet becomes.
pub open spec fn elem_child(e: ElemView) -> ChildView {
    match e {
        ElemView::TabStop(s, n) => ChildView::Dynamic(char_elems(s), if n == 0 { LAST_TAB_STOP } else { n as usize }),
        ElemView::Str(s) => ChildView::Fixed(char_elems(s)),
    }
}

/// The pieces of one line of a snippet.
pub open spec fn line_children(es: Seq<ElemView>) -> Seq<ChildView> {
    Seq::new(es.len(), |i: int| elem_child(es[i]))
}

/// The pieces of the lines of a snippet, each line followed by a line break.
pub open spec fn body_children(b: Seq<Seq<ElemView>>) -> Seq<ChildView>
    decreases b.len(),
{
    if b.len() == 0 {
        Seq::empty()
    } else {
        body_children(b.drop_last()) + line_children(b.last()).push(ChildView::Eol)
    }
}

/// The parsed lines of a snippet.
pub open spec fn body_views(sn: Snippet) -> Seq<Seq<ElemView>> {
    Seq::new(sn.body@.len(), |i: int| elems_view(sn.body@[i]@))
}

pub open spec fn has_tab_stop(cs: Seq<ChildView>) -> bool {
    exists|j: int| 0 <= j < cs.len() && (#[trigger] cs[j]) is Dynamic
}

/// The pieces that a snippet puts in: its lines without the last line break,
/// and an empty tab stop at the end where it has none.
pub open spec fn snippet_children(sn: Snippet) -> Seq<ChildView> {
    let all = body_children(body_views(sn));
    let c = if all.len() > 0 { all.drop_last() } else { all };
    if has_tab_stop(c) {
        c
    } else {
        c.push(ChildView::Dynamic(Seq::empty(), LAST_TAB_STOP))
    }
}

pub proof fn lemma_snippet_has_tab_stop(sn: Snippet)
    ensures
        has_tab_stop(snippet_children(sn)),
{
    let all = body_children(body_views(sn));
    let c = if all.len() > 0 { all.drop_last() } else { all };
    if !has_tab_stop(c) {
        let d = c.push(ChildView::Dynamic(Seq::empty(), LAST_TAB_STOP));
        assert(d[d.len() - 1] is Dynamic);
    }
}

/// The elements of the characters.
fn to_elems(s: &Vec<char>) -> (r: Vec<BufElem>)
    ensures
        r@ == char_elems(s@),
{
    let mut v: Vec<BufElem> = Vec::new();
    let mut i: usize = 0;
    while i < s.len()
        invariant
            i <= s@.len(),
            v@ == char_elems(s@.take(i as int)),
        decreases s@.len() - i,
    {
        v.push(BufElem::Char(s[i]));
        i = i + 1;
        assert(char_elems(s@.take(i as int)) == char_elems(s@.take(i - 1)).push(elem_of(s@[i - 1])));
    }
    assert(s@.take(s@.len() as int) == s@);
    v
}

/// The piece that an element of a snippet becomes.
fn to_child(e: &SnippetElem) -> (r: ChildComponent)
    ensures
        child_view(r) == elem_child(super::snippet_parser::elem_view(*e)),
{
    match e {
        SnippetElem::TabStop(s, order) => {
            let o = if *order == 0 { LAST_TAB_STOP } else { *order };
            ChildComponent::Dynamic(to_elems(s), o)
        },
        SnippetElem::Str(s) => ChildComponent::Fixed(to_elems(s)),
    }
}

/// The pieces that a snippet puts in.
pub fn children_of(sn: &Snippet) -> (r: Vec<ChildComponent>)
    ensures
        child_views(r@) == snippet_children(*sn),
{
    let ghost b = body_views(*sn);
    let mut children: Vec<ChildComponent> = Vec::new();
    let mut i: usize = 0;
    while i < sn.body.len()
        invariant
            i <= sn.body@.len(),
            b == body_views(*sn),
            child_views(children@) == body_children(b.take(i as int)),
        decreases sn.body@.len() - i,
    {
        let line = &sn.body[i];
        let ghost base = children@;
        let mut j: usize = 0;
        while j < line.len()
            invariant
                j <= line@.len(),
                i < sn.body@.len(),
                line == sn.body@[i as int],
                b == body_views(*sn),
                child_views(children@) == body_children(b.take(i as int)) + line_children(elems_view(line@).take(j as int)),
            decreases line@.len() - j,
        {
            let ghost before = children@;
            children.push(to_child(&line[j]));
            j = j + 1;
            proof {
                assert(child_views(children@) == child_views(before).push(child_view(children@.last())));
                assert(line_children(elems_view(line@).take(j as int)) == line_children(elems_view(line@).take(j - 1)).push(
                    elem_child(super::snippet_parser::elem_view(line@[j - 1])),
                ));
            }
        }
        let ghost before = children@;
        children.push(ChildComponent::Eol);
        i = i + 1;
        proof {
            assert(elems_view(line@).take(line@.len() as int) == elems_view(line@));
            assert(b.take(i as int).drop_last() == b.take(i - 1));
            assert(b.take(i as int).last() == elems_view(line@));
            assert(child_views(children@) == child_views(before).push(ChildView::Eol));
        }
    }
    assert(b.take(sn.body@.len() as int) == b);
    let ghost all = child_views(children@);
    if children.len() > 0 {
        children.pop();
        assert(child_views(children@) == all.drop_last());
    }
    let ghost c = child_views(children@);
    let mut found = false;
    let mut k: usize = 0;
    while k < children.len()
        invariant
            k <= children@.len(),
            c == child_views(children@),
            found == exists|j: int| 0 <= j < k && (#[trigger] c[j]) is Dynamic,
        decreases children@.len() - k,
    {
        match &children[k] {
            ChildComponent::Dynamic(_, _) => {
                found = true;
                assert(c[k as int] is Dynamic);
            },
            _ => {
                assert(!(c[k as int] is Dynamic));
            },
        }
        k = k + 1;
    }
    if !found {
        children.push(ChildComponent::Dynamic(Vec::new(), LAST_TAB_STOP));
        assert(child_views(children@) == c.push(ChildView::Dynamic(Seq::empty(), LAST_TAB_STOP)));
    }
    children
}

/// The snippet that the list's cursor is on.
pub open spec fn snippet_at_cursor(eb: EditBuffer) -> Snippet {
    eb.snippet_repo.snippets@[eb.snippet_repo.current_matches@[eb.snippet_repo.rb.cursor.row as int] as int]
}

/// The nodes of the edit's tree once the word being typed gives way to the
/// snippet at the list's cursor.
pub open spec fn snippet_result(eb: EditBuffer) -> Seq<NodeView> {
    let t = eb.edit_state->0.diff_buffer.diff_buf_raw;
    views_with_children(
        views_rolled_back(t.node_views(), t.cur()),
        t.cur(),
        t.pre_buffer@,
        snippet_children(snippet_at_cursor(eb)),
    )
}

/// The snippet at the list's cursor can go in: an edit is in progress, the
/// list's cursor is on a match, and the result fits.
pub open spec fn snippet_ready(eb: EditBuffer) -> bool {
    &&& eb.wf()
    &&& eb.edit_state is Some
    &&& eb.snippet_repo.rb.cursor.row < eb.snippet_repo.current_matches@.len()
    &&& eb.edit_state->0.diff_buffer.diff_buf_raw.nodes@.len() + snippet_children(snippet_at_cursor(eb)).len() < usize::MAX
    &&& ({
        let es = eb.edit_state->0;
        es.base_text().len() + es.diff_buffer.diff_buf_pre@.len() + flat(snippet_result(eb), 0).len()
            + es.diff_buffer.diff_buf_post@.len() + 1 <= max_size()
    })
}

impl EditBuffer {
    /// What `eff_enter_snippet_mode` does: the value `s1` and the state `r` it leaves from `s0` with the key `_k`.
    pub open spec fn eff_enter_snippet_mode_post(s0: EditBuffer, s1: EditBuffer, _k: Key, r: String) -> bool {
        &&& r@ == (if s0.snippet_repo.current_matches@.len() == 0 { INSERT@ } else { SNIPPET@ })
        &&& s1 == s0
    }

    /// Offers the matching snippets, if there are any.
    pub fn eff_enter_snippet_mode(&mut self, _k: Key) -> (r: String)
        ensures
            Self::eff_enter_snippet_mode_post(*old(self), *final(self), _k, r),
    {
        if self.snippet_repo.current_matches().len() == 0 {
            INSERT.to_owned()
        } else {
            SNIPPET.to_owned()
        }
    }

    /// What `eff_cursor_up_snippet_mode` does: the value `s1` and the state `r` it leaves from `s0` with the key `_k`.
    pub open spec fn eff_cursor_up_snippet_mode_post(s0: EditBuffer, s1: EditBuffer, _k: Key, r: String) -> bool {
        &&& r@ == SNIPPET@
        &&& s1.wf()
        &&& s1.snippet_repo.rb.cursor.row == (if s0.snippet_repo.rb.cursor.row > 0 {
            s0.snippet_repo.rb.cursor.row - 1
        } else {
            0
        })
        &&& s1.snippet_repo.rb.cursor.col == s0.snippet_repo.rb.cursor.col
        &&& s1.snippet_repo.rb.buf == s0.snippet_repo.rb.buf
        &&& s1.snippet_repo.current_matches == s0.snippet_repo.current_matches
        &&& s1.rb == s0.rb
        &&& s1.edit_state == s0.edit_state
        &&& s1.change_log_buffer == s0.change_log_buffer
    }

    /// Moves the list's cursor up.
    pub fn eff_cursor_up_snippet_mode(&mut self, _k: Key) -> (r: String)
        requires
            old(self).wf(),
        ensures
            Self::eff_cursor_up_snippet_mode_post(*old(self), *final(self), _k, r),
    {
        self.snippet_repo.rb.cursor_up();
        SNIPPET.to_owned()
    }

    /// What `eff_cursor_down_snippet_mode` does: the value `s1` and the state `r` it leaves from `s0` with the key `_k`.
    pub open spec fn eff_cursor_down_snippet_mode_post(s0: EditBuffer, s1: EditBuffer, _k: Key, r: String) -> bool {
        &&& r@ == SNIPPET@
        &&& s1.wf()
        &&& s1.snippet_repo.rb.cursor.row == (if s0.snippet_repo.rb.cursor.row
            < s0.snippet_repo.rb.buf@.len() - 1 {
            s0.snippet_repo.rb.cursor.row + 1
        } else {
            s0.snippet_repo.rb.cursor.row as int
        })
        &&& s1.snippet_repo.rb.cursor.col == s0.snippet_repo.rb.cursor.col
        &&& s1.snippet_repo.rb.buf == s0.snippet_repo.rb.buf
        &&& s1.snippet_repo.current_matches == s0.snippet_repo.current_matches
        &&& s1.rb == s0.rb
        &&& s1.edit_state == s0.edit_state
        &&& s1.change_log_buffer == s0.change_log_buffer
    }

    /// Moves the list's cursor down.
    pub fn eff_cursor_down_snippet_mode(&mut self, _k: Key) -> (r: String)
        requires
            old(self).wf(),
        ensures
            Self::eff_cursor_down_snippet_mode_post(*old(self), *final(self), _k, r),
    {
        self.snippet_repo.rb.cursor_down();
        SNIPPET.to_owned()
    }

    /// What `eff_leave_snippet_mode` does: the value `s1` and the state `r` it leaves from `s0` with the key `_k`.
    pub open spec fn eff_leave_snippet_mode_post(s0: EditBuffer, s1: EditBuffer, _k: Key, r: String) -> bool {
        &&& r@ == INSERT@
        &&& s1 == s0
    }

    /// Back to typing, with nothing inserted.
    pub fn eff_leave_snippet_mode(&mut self, _k: Key) -> (r: String)
        ensures
            Self::eff_leave_snippet_mode_post(*old(self), *final(self), _k, r),
    {
        INSERT.to_owned()
    }

    /// Whether the snippet at the list's cursor can go in.
    pub fn snippet_fits(&self) -> (r: bool)
        requires
            self.wf(),
            self.edit_state is Some,
            self.snippet_repo.rb.cursor.row < self.snippet_repo.current_matches@.len(),
        ensures
            r == snippet_ready(*self),
    {
        let es = match &self.edit_state {
            Some(es) => es,
            None => {
                return false;
            },
        };
        proof {
            super::lemma_edit_bounds(*es);
        }
        let t0 = &es.diff_buffer.diff_buf_raw;
        let mut t = t0.copy();
        let ghost tc = t;
        t.rollback_current_word();
        proof {
            super::diff_tree::lemma_views_rolled_back(tc, t);
            let c = t0.cur();
            let nd = t0.node_views()[c];
            if nd.buffer.len() > 0 {
                super::diff_tree::lemma_word_lo_le(nd.buffer, nd.buffer.len() - 1);
            }
            assert(t.node_views()[c].buffer.len() <= nd.buffer.len());
            super::diff_tree::lemma_flat_shrink(t0.node_views(), t.node_views(), c, 0);
        }
        let children = children_of(self.snippet_repo.current_snippet());
        if t.nodes.len() >= usize::MAX - children.len() {
            return false;
        }
        proof {
            lemma_snippet_has_tab_stop(snippet_at_cursor(*self));
            let j = choose|j: int| 0 <= j < child_views(children@).len() && (#[trigger] child_views(children@)[j]) is Dynamic;
            assert(child_view(children@[j]) is Dynamic);
            assert(children@[j] is Dynamic);
        }
        let ghost t1 = t;
        let ghost cs = children@;
        t.add_children(children);
        proof {
            super::diff_tree::lemma_views_with_children(t1, t, cs);
        }
        let tl = t.text_len_capped(MAX_SIZE);
        if tl >= MAX_SIZE {
            return false;
        }
        let base = self.base_len();
        let pre = es.diff_buffer.diff_buf_pre.len();
        let post = es.diff_buffer.diff_buf_post.len();
        base + pre + tl + post + 1 <= MAX_SIZE
    }

    /// Puts the snippet at the list's cursor in place of the word being typed,
    /// looks the snippets up by the word then being typed, and shows the
    /// result.
    #[verifier::rlimit(60)]
    /// What `eff_insert_snippet` does: the value `s1` and the state `r` it leaves from `s0` with the key `_k`.
    pub open spec fn eff_insert_snippet_post(s0: EditBuffer, s1: EditBuffer, _k: Key, r: String) -> bool {
        &&& r@ == INSERT@
        &&& s1.wf()
        &&& s1.edit_state matches Some(es) && {
            let es0 = s0.edit_state->0;
            &&& es.at == es0.at
            &&& es.removed == es0.removed
            &&& es.orig_buf == es0.orig_buf
            &&& es.diff_buffer.pre_buf_raw == es0.diff_buffer.pre_buf_raw
            &&& es.diff_buffer.diff_buf_pre == es0.diff_buffer.diff_buf_pre
            &&& es.diff_buffer.diff_buf_post == es0.diff_buffer.diff_buf_post
            &&& es.diff_buffer.post_buf_raw == es0.diff_buffer.post_buf_raw
            &&& es.diff_buffer.diff_buf_raw.node_views() == snippet_result(s0)
            &&& s1.rb.lines() == es.shown()
            &&& s1.rb.cursor == es.shown_cursor()
            &&& searched(s0.snippet_repo, s1.snippet_repo, es.diff_buffer.diff_buf_raw.spec_current_word())
        }
        &&& s1.change_log_buffer == s0.change_log_buffer
        &&& s1.clipboard == s0.clipboard
        &&& s1.config == s0.config
    }

    pub fn eff_insert_snippet(&mut self, _k: Key) -> (r: String)
        requires
            snippet_ready(*old(self)),
        ensures
            Self::eff_insert_snippet_post(*old(self), *final(self), _k, r),
    {
        let ghost es0 = self.edit_state->0;
        let ghost eb0 = *self;
        proof {
            super::lemma_edit_bounds(es0);
            super::lemma_es_log(es0);
        }
        let children = children_of(self.snippet_repo.current_snippet());
        proof {
            lemma_snippet_has_tab_stop(snippet_at_cursor(eb0));
            let j = choose|j: int| 0 <= j < child_views(children@).len() && (#[trigger] child_views(children@)[j]) is Dynamic;
            assert(child_view(children@[j]) is Dynamic);
            assert(children@[j] is Dynamic);
        }
        self.restore_buf_before_writeback();
        let mut es = self.edit_state.take().unwrap();
        let ghost t0 = es.diff_buffer.diff_buf_raw;
        es.diff_buffer.diff_buf_raw.rollback_current_word();
        let ghost t1 = es.diff_buffer.diff_buf_raw;
        proof {
            super::diff_tree::lemma_views_rolled_back(t0, t1);
            let c = t0.cur();
            let nd = t0.node_views()[c];
            if nd.buffer.len() > 0 {
                super::diff_tree::lemma_word_lo_le(nd.buffer, nd.buffer.len() - 1);
            }
            super::diff_tree::lemma_flat_shrink(t0.node_views(), t1.node_views(), c, 0);
        }
        let ghost cs = children@;
        es.diff_buffer.diff_buf_raw.add_children(children);
        proof {
            super::diff_tree::lemma_views_with_children(t1, es.diff_buffer.diff_buf_raw, cs);
        }
        let w = es.diff_buffer.diff_buf_raw.current_word();
        self.snippet_repo.set_searcher(w);
        self.edit_state = Some(es);
        proof {
            let es1 = self.edit_state->0;
            assert(es1.kept() == es0.kept());
            assert(es1.base_text() == es0.base_text());
            assert(es1.ok());
        }
        self.writeback_edit_state();
        proof {
            let es1 = self.edit_state->0;
            super::lemma_edit_bounds(es1);
            let a = es1.at.row as int;
            super::text::lemma_materialize_sandwich(es1.kept().take(a), es1.text(), es1.kept().skip(a));
            super::text::lemma_materialize_wf(es1.text());
            assert(es1.base() == es0.base());
        }
        INSERT.to_owned()
    }
}

} // verus!
