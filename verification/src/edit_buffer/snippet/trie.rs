use vstd::prelude::*;
use sequence_trie::SequenceTrie;

verus! {

/// A trie from character sequences to lists of indices. Every non-empty prefix
/// of a key that holds a value holds one too (possibly the empty list).
#[verifier::external_body]
pub struct Trie {
    trie: SequenceTrie<char, Vec<usize>>,
}

/// The keys of a trie and the values stored at them.
pub uninterp spec fn trie_entries(t: Trie) -> Map<Seq<char>, Seq<usize>>;

/// No key at all.
pub open spec fn no_entries() -> Map<Seq<char>, Seq<usize>> {
    Map::empty()
}

/// `k` is a prefix of `s`.
pub open spec fn is_prefix(k: Seq<char>, s: Seq<char>) -> bool {
    k.len() <= s.len() && s.take(k.len() as int) == k
}

/// The entries below `k`, keyed by what follows `k`.
pub open spec fn entries_below(m: Map<Seq<char>, Seq<usize>>, k: Seq<char>) -> Map<Seq<char>, Seq<usize>> {
    Map::new(|s: Seq<char>| m.contains_key(k + s), |s: Seq<char>| m[k + s])
}

/// The pairs as values.
pub open spec fn pairs_view(v: Seq<(Vec<char>, Vec<usize>)>) -> Seq<(Seq<char>, Seq<usize>)> {
    Seq::new(v.len(), |i: int| (v[i].0@, v[i].1@))
}

/// `SequenceTrie::new`: a trie with no value stored, not even at the root.
#[verifier::external_body]
fn trie_new() -> (r: Trie)
    ensures
        trie_entries(r) == no_entries(),
{
    Trie { trie: SequenceTrie::new() }
}

/// `SequenceTrie::get_node(k).is_some()`: a node stands at `k`, that is, `k` is
/// the root's key (empty) or a prefix of a key that holds a value (a trie's
/// leaves hold values, the crate's documented invariant).
#[verifier::external_body]
fn trie_has_node(t: &Trie, k: &[char]) -> (r: bool)
    ensures
        r == (k@.len() == 0 || exists|s: Seq<char>| #[trigger] trie_entries(*t).contains_key(s) && is_prefix(k@, s)),
{
    t.trie.get_node(k).is_some()
}

/// `SequenceTrie::insert`: stores `v` at `k`, replacing what was there.
#[verifier::external_body]
fn trie_insert(t: &mut Trie, k: &[char], v: Vec<usize>)
    ensures
        trie_entries(*final(t)) == trie_entries(*old(t)).insert(k@, v@),
{
    t.trie.insert(k, v);
}

/// `SequenceTrie::get`: the value stored at `k`, copied, if any.
#[verifier::external_body]
fn trie_get(t: &Trie, k: &[char]) -> (r: Option<Vec<usize>>)
    ensures
        r is Some == trie_entries(*t).contains_key(k@),
        r matches Some(v) ==> v@ == trie_entries(*t)[k@],
{
    t.trie.get(k).cloned()
}

/// `SequenceTrie::get_node` then `SequenceTrie::iter`: the entries below `k`,
/// keyed by what follows `k`, each once, in the order that the node's hash
/// maps are walked (which is left open).
#[verifier::external_body]
fn trie_entries_below(t: &Trie, k: &[char]) -> (r: Vec<(Vec<char>, Vec<usize>)>)
    ensures
        forall|i: int, j: int| 0 <= i < j < r@.len() ==> (#[trigger] r@[i]).0@ != (#[trigger] r@[j]).0@,
        forall|i: int|
            0 <= i < r@.len() ==> entries_below(trie_entries(*t), k@).contains_key((#[trigger] r@[i]).0@) && r@[i].1@
                == entries_below(trie_entries(*t), k@)[r@[i].0@],
        forall|s: Seq<char>|
            #[trigger] entries_below(trie_entries(*t), k@).contains_key(s) ==> exists|i: int|
                0 <= i < r@.len() && (#[trigger] r@[i]).0@ == s,
{
    match t.trie.get_node(k) {
        Some(node) => node.iter().map(|(key, v)| (key.into_iter().cloned().collect(), v.clone())).collect(),
        None => Vec::new(),
    }
}

impl Trie {
    /// Every non-empty prefix of a key holds a value too.
    pub open spec fn inv(&self) -> bool {
        forall|s: Seq<char>, i: int|
            #![trigger trie_entries(*self).contains_key(s), s.take(i)]
            trie_entries(*self).contains_key(s) && 1 <= i <= s.len() ==> trie_entries(*self).contains_key(s.take(i))
    }

    pub fn new() -> (r: Self)
        ensures
            trie_entries(r) == no_entries(),
            r.inv(),
    {
        trie_new()
    }

    /// Adds `v` to the values at `k`; the prefixes of `k` that held nothing
    /// get the empty list.
    pub fn insert(&mut self, k: &[char], v: usize)
        requires
            old(self).inv(),
            0 < k@.len() < usize::MAX,
        ensures
            final(self).inv(),
            trie_entries(*final(self)).contains_key(k@),
            trie_entries(*final(self))[k@] == (if trie_entries(*old(self)).contains_key(k@) {
                trie_entries(*old(self))[k@]
            } else {
                Seq::empty()
            }).push(v),
            forall|s: Seq<char>|
                s != k@ ==> (#[trigger] trie_entries(*final(self)).contains_key(s) == (trie_entries(
                    *old(self),
                ).contains_key(s) || (s.len() >= 1 && is_prefix(s, k@)))),
            forall|s: Seq<char>|
                s != k@ && #[trigger] trie_entries(*old(self)).contains_key(s) ==> trie_entries(*final(self))[s]
                    == trie_entries(*old(self))[s],
            forall|s: Seq<char>|
                s != k@ && !trie_entries(*old(self)).contains_key(s) && #[trigger] trie_entries(
                    *final(self),
                ).contains_key(s) ==> trie_entries(*final(self))[s] == Seq::<usize>::empty(),
    {
        let ghost m0 = trie_entries(*self);
        let n = k.len();
        let mut i: usize = 1;
        while i < n + 1
            invariant
                1 <= i <= n + 1,
                n == k@.len(),
                n < usize::MAX,
                self.inv(),
                forall|j: int| 1 <= j < i ==> #[trigger] trie_entries(*self).contains_key(k@.take(j)),
                forall|s: Seq<char>|
                    #[trigger] trie_entries(*self).contains_key(s) == (m0.contains_key(s) || (exists|j: int|
                        1 <= j < i && s == k@.take(j))),
                forall|s: Seq<char>| #[trigger] m0.contains_key(s) ==> trie_entries(*self)[s] == m0[s],
                forall|s: Seq<char>|
                    !m0.contains_key(s) && #[trigger] trie_entries(*self).contains_key(s) ==> trie_entries(*self)[s]
                        == Seq::<usize>::empty(),
            decreases n + 1 - i,
        {
            let prefix = &k[0..i];
            assert(prefix@ == k@.take(i as int));
            let exists = trie_has_node(self, prefix);
            if !exists {
                proof {
                    if trie_entries(*self).contains_key(prefix@) {
                        assert(prefix@.take(prefix@.len() as int) == prefix@);
                        assert(is_prefix(prefix@, prefix@));
                    }
                }
                trie_insert(self, prefix, Vec::new());
            } else {
                proof {
                    let s = choose|s: Seq<char>| #[trigger] trie_entries(*self).contains_key(s) && is_prefix(prefix@, s);
                    assert(s.take(i as int) == prefix@);
                }
            }
            proof {
                assert forall|s: Seq<char>, j: int|
                    #![trigger trie_entries(*self).contains_key(s), s.take(j)]
                    trie_entries(*self).contains_key(s) && 1 <= j <= s.len() implies trie_entries(*self).contains_key(
                    s.take(j),
                ) by {
                    if s == k@.take(i as int) {
                        assert(s.take(j) == k@.take(j));
                    } else if !m0.contains_key(s) {
                        let jj = choose|jj: int| 1 <= jj < i && s == k@.take(jj);
                        assert(s.take(j) == k@.take(j));
                    }
                }
            }
            i = i + 1;
        }
        assert(k@.take(n as int) == k@);
        let vv = trie_get(self, k);
        let mut vv = match vv {
            Some(x) => x,
            None => Vec::new(),
        };
        vv.push(v);
        trie_insert(self, k, vv);
        proof {
            assert forall|s: Seq<char>, j: int|
                #![trigger trie_entries(*self).contains_key(s), s.take(j)]
                trie_entries(*self).contains_key(s) && 1 <= j <= s.len() implies trie_entries(*self).contains_key(s.take(j)) by {
                if s == k@ {
                    assert(k@.take(j) == s.take(j));
                }
            }
            assert forall|s: Seq<char>|
                s != k@ implies (#[trigger] trie_entries(*self).contains_key(s) == (m0.contains_key(s) || (s.len()
                    >= 1 && is_prefix(s, k@)))) by {
                if s.len() >= 1 && is_prefix(s, k@) && s != k@ {
                    assert(s == k@.take(s.len() as int));
                }
            }
        }
    }

    /// The entries below `k`, if a node stands there.
    pub fn get_node(&self, k: &[char]) -> (r: Option<TrieView>)
        ensures
            r is Some == (k@.len() == 0 || exists|s: Seq<char>| #[trigger] trie_entries(*self).contains_key(s) && is_prefix(k@, s)),
            r matches Some(tv) ==> tv.searched_key@ == k@ && tv.entries_ok(entries_below(trie_entries(*self), k@)),
    {
        if !trie_has_node(self, k) {
            return None;
        }
        let mut s: Vec<char> = Vec::new();
        let mut i: usize = 0;
        while i < k.len()
            invariant
                i <= k@.len(),
                s@ == k@.take(i as int),
            decreases k@.len() - i,
        {
            s.push(k[i]);
            i = i + 1;
            assert(s@ == k@.take(i as int));
        }
        assert(k@.take(k@.len() as int) == k@);
        let entries = trie_entries_below(self, k);
        let ghost m = entries_below(trie_entries(*self), k@);
        let ghost ev = entries@;
        let tv = TrieView { searched_key: s, entries };
        assert(tv.entries@ == ev);
        assert forall|x: Seq<char>| #[trigger] m.contains_key(x) implies exists|i: int|
            0 <= i < tv.entries@.len() && (#[trigger] tv.entries@[i]).0@ == x by {
            let i = choose|i: int| 0 <= i < ev.len() && (#[trigger] ev[i]).0@ == x;
            assert(tv.entries@[i] == ev[i]);
        }
        assert(tv.entries_ok(m));
        Some(tv)
    }
}

/// The values below a key of a trie.
pub struct TrieView {
    pub searched_key: Vec<char>,
    pub entries: Vec<(Vec<char>, Vec<usize>)>,
}

impl TrieView {
    /// The entries are those of `m`, each once.
    pub open spec fn entries_ok(&self, m: Map<Seq<char>, Seq<usize>>) -> bool {
        &&& forall|i: int, j: int|
            0 <= i < j < self.entries@.len() ==> (#[trigger] self.entries@[i]).0@ != (#[trigger] self.entries@[j]).0@
        &&& forall|i: int|
            0 <= i < self.entries@.len() ==> m.contains_key((#[trigger] self.entries@[i]).0@) && self.entries@[i].1@
                == m[self.entries@[i].0@]
        &&& forall|s: Seq<char>|
            #[trigger] m.contains_key(s) ==> exists|i: int| 0 <= i < self.entries@.len() && (#[trigger] self.entries@[i]).0@ == s
    }

    /// The full keys below the searched key that hold values, with those
    /// values, shortest keys first; keys of one length keep the order of
    /// `entries`.
    pub fn list_values(&self) -> (r: Vec<(Vec<char>, Vec<usize>)>)
        ensures
            pairs_view(r@) == sort_by_len(with_values(self.searched_key@, pairs_view(self.entries@))),
    {
        let ghost ev = pairs_view(self.entries@);
        let ghost key = self.searched_key@;
        let mut vvv: Vec<(Vec<char>, Vec<usize>)> = Vec::new();
        let mut e: usize = 0;
        while e < self.entries.len()
            invariant
                e <= self.entries@.len(),
                ev == pairs_view(self.entries@),
                key == self.searched_key@,
                pairs_view(vvv@) == sort_by_len(with_values(key, ev.take(e as int))),
            decreases self.entries@.len() - e,
        {
            let ghost w = with_values(key, ev.take(e as int));
            proof {
                assert(ev.take(e + 1).drop_last() == ev.take(e as int));
                assert(ev.take(e + 1).last() == ev[e as int]);
            }
            let (k, vv) = &self.entries[e];
            assert(ev[e as int] == (k@, vv@));
            if vv.len() > 0 {
                let mut s = super::super::change_log::copy_chars(&self.searched_key);
                let mut kk = super::super::change_log::copy_chars(k);
                s.append(&mut kk);
                let vals = copy_usizes(vv);
                let len = s.len();
                let ghost item = (s@, vals@);
                let mut p: usize = 0;
                while p < vvv.len() && vvv[p].0.len() <= len
                    invariant
                        p <= vvv@.len(),
                        forall|q: int| 0 <= q < p ==> (#[trigger] vvv@[q]).0@.len() <= len,
                    decreases vvv@.len() - p,
                {
                    p = p + 1;
                }
                let ghost old_v = pairs_view(vvv@);
                proof {
                    lemma_insert_by_len(old_v, item, p as int);
                }
                vvv.insert(p, (s, vals));
                assert(pairs_view(vvv@) == old_v.insert(p as int, item));
                proof {
                    assert(item == (key + k@, vv@));
                    assert(with_values(key, ev.take(e + 1)) == w.push(item));
                    assert(w.push(item).drop_last() == w);
                    assert(sort_by_len(w.push(item)) == insert_by_len(sort_by_len(w), item));
                }
            } else {
                assert(with_values(key, ev.take(e + 1)) == w);
            }
            e = e + 1;
        }
        assert(ev.take(self.entries@.len() as int) == ev);
        vvv
    }
}

/// The entries that hold values, their keys after `key`.
pub open spec fn with_values(key: Seq<char>, es: Seq<(Seq<char>, Seq<usize>)>) -> Seq<(Seq<char>, Seq<usize>)>
    decreases es.len(),
{
    if es.len() == 0 {
        Seq::empty()
    } else {
        let rest = with_values(key, es.drop_last());
        if es.last().1.len() > 0 {
            rest.push((key + es.last().0, es.last().1))
        } else {
            rest
        }
    }
}

/// `x` put after every entry whose key is not longer.
pub open spec fn insert_by_len(s: Seq<(Seq<char>, Seq<usize>)>, x: (Seq<char>, Seq<usize>)) -> Seq<(Seq<char>, Seq<usize>)>
    decreases s.len(),
{
    if s.len() == 0 {
        seq![x]
    } else if s[0].0.len() <= x.0.len() {
        seq![s[0]] + insert_by_len(s.drop_first(), x)
    } else {
        seq![x] + s
    }
}

/// The entries ordered by the length of their keys, stably.
pub open spec fn sort_by_len(s: Seq<(Seq<char>, Seq<usize>)>) -> Seq<(Seq<char>, Seq<usize>)>
    decreases s.len(),
{
    if s.len() == 0 {
        Seq::empty()
    } else {
        insert_by_len(sort_by_len(s.drop_last()), s.last())
    }
}

/// Inserting by length puts `x` before the first entry with a longer key.
pub proof fn lemma_insert_by_len(s: Seq<(Seq<char>, Seq<usize>)>, x: (Seq<char>, Seq<usize>), p: int)
    requires
        0 <= p <= s.len(),
        forall|q: int| 0 <= q < p ==> (#[trigger] s[q]).0.len() <= x.0.len(),
        p == s.len() || s[p].0.len() > x.0.len(),
    ensures
        insert_by_len(s, x) == s.insert(p, x),
    decreases s.len(),
{
    if s.len() == 0 {
        assert(s.insert(p, x) == seq![x]);
    } else if p == 0 {
        assert(s.insert(0, x) == seq![x] + s);
    } else {
        let t = s.drop_first();
        assert forall|q: int| 0 <= q < p - 1 implies (#[trigger] t[q]).0.len() <= x.0.len() by {
            assert(t[q] == s[q + 1]);
        }
        if p < s.len() {
            assert(t[p - 1] == s[p]);
        }
        lemma_insert_by_len(t, x, p - 1);
        assert(seq![s[0]] + t.insert(p - 1, x) == s.insert(p, x));
    }
}

/// A copy of the indices.
pub fn copy_usizes(v: &[usize]) -> (r: Vec<usize>)
    ensures
        r@ == v@,
{
    let mut r: Vec<usize> = Vec::new();
    let mut i: usize = 0;
    while i < v.len()
        invariant
            i <= v@.len(),
            r@ == v@.take(i as int),
        decreases v@.len() - i,
    {
        r.push(v[i]);
        i = i + 1;
        assert(r@ == v@.take(i as int));
    }
    assert(v@.take(v@.len() as int) == v@);
    r
}

} // verus!
