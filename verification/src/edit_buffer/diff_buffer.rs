use vstd::prelude::*;
use crate::Key;
use crate::read_buffer::BufElem;
use super::indent::IndentType;
use super::diff_tree::{DiffTree, input_effect};
use super::change_log::copy_elems;

verus! {

/// The text of an edit in progress: what survives before it, what it starts
/// with, what is typed, what it ends with, and what survives after it.
/// `pre_buf_raw + inserted() + post_buf_raw == pre_buf() + typed + post_buf()`.
pub struct DiffBuffer {
    pub pre_buf_raw: Vec<BufElem>,
    pub diff_buf_pre: Vec<BufElem>,
    pub diff_buf_raw: DiffTree,
    pub diff_buf_post: Vec<BufElem>,
    pub post_buf_raw: Vec<BufElem>,
    pub indent_type: IndentType,
}

/// The two vectors one after the other.
pub fn concat(x: Vec<BufElem>, y: Vec<BufElem>) -> (r: Vec<BufElem>)
    ensures
        r@ == x@ + y@,
{
    let mut x = x;
    let mut y = y;
    x.append(&mut y);
    x
}

impl DiffBuffer {
    /// The typing tree sees what comes before it.
    pub open spec fn inv(&self) -> bool {
        &&& self.diff_buf_raw.inv()
        &&& self.diff_buf_raw.pre_buffer@ == self.pre_buf_raw@ + self.diff_buf_pre@
        &&& self.diff_buf_raw.indent_type == self.indent_type
    }

    /// What the edit puts in.
    pub open spec fn spec_inserted(&self) -> Seq<BufElem> {
        self.diff_buf_pre@ + self.diff_buf_raw.text() + self.diff_buf_post@
    }

    /// The whole text of the rows under edit.
    pub open spec fn spec_text(&self) -> Seq<BufElem> {
        self.pre_buf_raw@ + self.spec_inserted() + self.post_buf_raw@
    }

    pub fn new(
        pre_buf: Vec<BufElem>,
        diff_buf_pre: Vec<BufElem>,
        diff_buf_post: Vec<BufElem>,
        post_buf: Vec<BufElem>,
        indent_type: IndentType,
    ) -> (r: Self)
        ensures
            r.inv(),
            r.pre_buf_raw@ == pre_buf@,
            r.diff_buf_pre@ == diff_buf_pre@,
            r.diff_buf_post@ == diff_buf_post@,
            r.post_buf_raw@ == post_buf@,
            r.indent_type == indent_type,
            r.diff_buf_raw.text().len() == 0,
            r.diff_buf_raw.cursor() == 0,
    {
        let mut pre_buffer: Vec<BufElem> = Vec::new();
        let mut a = copy_elems(&pre_buf);
        pre_buffer.append(&mut a);
        let mut b = copy_elems(&diff_buf_pre);
        pre_buffer.append(&mut b);
        let t = DiffTree::new(pre_buffer, indent_type);
        proof {
            super::diff_tree::lemma_root_only(t);
        }
        DiffBuffer {
            pre_buf_raw: pre_buf,
            diff_buf_pre: diff_buf_pre,
            diff_buf_raw: t,
            diff_buf_post: diff_buf_post,
            post_buf_raw: post_buf,
            indent_type,
        }
    }

    /// What survives before the edit, and what the edit starts with.
    pub fn pre_buf(&self) -> (r: Vec<BufElem>)
        ensures
            r@ == self.pre_buf_raw@ + self.diff_buf_pre@,
    {
        concat(copy_elems(&self.pre_buf_raw), copy_elems(&self.diff_buf_pre))
    }

    /// What the edit ends with, and what survives after it.
    pub fn post_buf(&self) -> (r: Vec<BufElem>)
        ensures
            r@ == self.diff_buf_post@ + self.post_buf_raw@,
    {
        concat(copy_elems(&self.diff_buf_post), copy_elems(&self.post_buf_raw))
    }

    /// What the edit puts in: what it starts with, what was typed, what it
    /// ends with.
    pub fn inserted(&self) -> (r: Vec<BufElem>)
        requires
            self.inv(),
            self.diff_buf_raw.text().len() <= usize::MAX,
        ensures
            r@ == self.spec_inserted(),
    {
        concat(concat(copy_elems(&self.diff_buf_pre), self.diff_buf_raw.flatten().0), copy_elems(&self.diff_buf_post))
    }

    /// The two ways to read the text under edit agree: what survives before,
    /// then `inserted()`, then what survives after, is `pre_buf()`, then the
    /// typed text (`diff_buf_raw.flatten()`), then `post_buf()`; and
    /// `inserted()` is what the edit starts with, the typed text, and what it
    /// ends with. Typing keeps the four surrounding parts (`input`).
    pub proof fn law_text_split(&self)
        ensures
            self.pre_buf_raw@ + self.spec_inserted() + self.post_buf_raw@ == (self.pre_buf_raw@ + self.diff_buf_pre@)
                + self.diff_buf_raw.text() + (self.diff_buf_post@ + self.post_buf_raw@),
            self.spec_inserted() == self.diff_buf_pre@ + self.diff_buf_raw.text() + self.diff_buf_post@,
    {
        assert(self.pre_buf_raw@ + self.spec_inserted() + self.post_buf_raw@ =~= (self.pre_buf_raw@ + self.diff_buf_pre@)
            + self.diff_buf_raw.text() + (self.diff_buf_post@ + self.post_buf_raw@));
    }

    /// What `input` leaves, `s1`, of `s0` with the key `k`.
    pub open spec fn input_post(s0: DiffBuffer, s1: DiffBuffer, k: Key) -> bool {
        &&& s1.inv()
        &&& s1.pre_buf_raw == s0.pre_buf_raw
        &&& s1.diff_buf_pre == s0.diff_buf_pre
        &&& s1.diff_buf_post == s0.diff_buf_post
        &&& s1.post_buf_raw == s0.post_buf_raw
        &&& s1.indent_type == s0.indent_type
        &&& s1.diff_buf_raw.node_views() == input_effect(s0.diff_buf_raw, k).0
        &&& s1.diff_buf_raw.stack@ == input_effect(s0.diff_buf_raw, k).1
    }

    /// Types a key.
    pub fn input(&mut self, k: Key)
        requires
            old(self).inv(),
            old(self).diff_buf_raw.pre_buffer@.len() + old(self).diff_buf_raw.text().len() <= usize::MAX,
        ensures
            Self::input_post(*old(self), *final(self), k),
    {
        self.diff_buf_raw.input(k);
    }
}

/// Whatever keys are typed into an edit, one after another, the parts around
/// the typed text stay those it started with, and at each step the text
/// reads the same both ways (`law_text_split`).
pub proof fn law_inputs_keep_parts(ss: Seq<DiffBuffer>, ks: Seq<Key>)
    requires
        ss.len() == ks.len() + 1,
        forall|i: int| 0 <= i < ks.len() ==> DiffBuffer::input_post(ss[i], ss[i + 1], #[trigger] ks[i]),
    ensures
        forall|i: int|
            0 <= i < ss.len() ==> {
                &&& (#[trigger] ss[i]).pre_buf_raw == ss[0].pre_buf_raw
                &&& ss[i].diff_buf_pre == ss[0].diff_buf_pre
                &&& ss[i].diff_buf_post == ss[0].diff_buf_post
                &&& ss[i].post_buf_raw == ss[0].post_buf_raw
                &&& ss[i].spec_text() == (ss[0].pre_buf_raw@ + ss[0].diff_buf_pre@) + ss[i].diff_buf_raw.text() + (
                ss[0].diff_buf_post@ + ss[0].post_buf_raw@)
            },
    decreases ks.len(),
{
    if ks.len() > 0 {
        let n = ks.len() - 1;
        law_inputs_keep_parts(ss.take(n + 1), ks.take(n));
        assert(DiffBuffer::input_post(ss[n], ss[n + 1], ks[n]));
        assert forall|i: int| 0 <= i < ss.len() implies {
            &&& (#[trigger] ss[i]).pre_buf_raw == ss[0].pre_buf_raw
            &&& ss[i].diff_buf_pre == ss[0].diff_buf_pre
            &&& ss[i].diff_buf_post == ss[0].diff_buf_post
            &&& ss[i].post_buf_raw == ss[0].post_buf_raw
            &&& ss[i].spec_text() == (ss[0].pre_buf_raw@ + ss[0].diff_buf_pre@) + ss[i].diff_buf_raw.text() + (
            ss[0].diff_buf_post@ + ss[0].post_buf_raw@)
        } by {
            if i <= n {
                assert(ss.take(n + 1)[i] == ss[i]);
                assert(ss.take(n + 1)[0] == ss[0]);
            } else {
                assert(ss.take(n + 1)[n] == ss[n]);
                assert(ss.take(n + 1)[0] == ss[0]);
                ss[i].law_text_split();
            }
        }
    } else {
        ss[0].law_text_split();
    }
}

} // verus!
