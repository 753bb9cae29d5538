use vstd::prelude::*;
use crate::read_buffer::{BufElem, ReadBuffer, rows, buf_wf, max_size};
use crate::read_buffer::search::line_wf;
use crate::message_box::MessageBox;
use crate::screen::Color;
use crate::view::{DiffView, ViewElemDiff};
use super::snippet_parser::SnippetElem;
use self::trie::{Trie, trie_entries, entries_below, pairs_view, sort_by_len, with_values};

pub mod trie;
pub mod file_parser;

verus! {

/// A snippet: the prefix that calls it, its lines, and what it is.
pub struct Snippet {
    pub prefix: Vec<char>,
    pub body: Vec<Vec<SnippetElem>>,
    pub description: Vec<char>,
}

/// The characters as buffer elements.
pub open spec fn char_elems(s: Seq<char>) -> Seq<BufElem> {
    Seq::new(s.len(), |i: int| elem_of(s[i]))
}

/// The character as a buffer element.
pub open spec fn elem_of(c: char) -> BufElem {
    BufElem::Char(c)
}

/// The line that lists a snippet: `[prefix] description`.
pub open spec fn listing(s: Snippet) -> Seq<BufElem> {
    seq![BufElem::Char('[')] + char_elems(s.prefix@) + seq![BufElem::Char(']'), BufElem::Char(' ')] + char_elems(
        s.description@,
    ) + seq![BufElem::Eol]
}

/// The most matches that the list shows.
pub const MAX_MATCHES: usize = 1000000;

/// The first `MAX_MATCHES` of the matches.
pub open spec fn capped(v: Seq<usize>) -> Seq<usize> {
    if v.len() > MAX_MATCHES {
        v.take(MAX_MATCHES as int)
    } else {
        v
    }
}

/// Every entry of `with_values` comes from an entry with a value.
pub proof fn lemma_with_values_from(key: Seq<char>, es: Seq<(Seq<char>, Seq<usize>)>, x: (Seq<char>, Seq<usize>))
    requires
        with_values(key, es).contains(x),
    ensures
        exists|e: int| 0 <= e < es.len() && x == (key + es[e].0, es[e].1),
    decreases es.len(),
{
    let rest = with_values(key, es.drop_last());
    if es.last().1.len() > 0 && x == (key + es.last().0, es.last().1) {
        assert(x == (key + es[es.len() - 1].0, es[es.len() - 1].1));
    } else {
        if es.last().1.len() > 0 {
            let i = choose|i: int| 0 <= i < with_values(key, es).len() && with_values(key, es)[i] == x;
            assert(rest.push((key + es.last().0, es.last().1))[i] == x);
            assert(rest.contains(x));
        }
        lemma_with_values_from(key, es.drop_last(), x);
        let e = choose|e: int| 0 <= e < es.drop_last().len() && x == (key + es.drop_last()[e].0, es.drop_last()[e].1);
        assert(es.drop_last()[e] == es[e]);
    }
}

/// Inserting by length adds one entry.
pub proof fn lemma_insert_by_len_from(s: Seq<(Seq<char>, Seq<usize>)>, y: (Seq<char>, Seq<usize>), x: (Seq<char>, Seq<usize>))
    requires
        trie::insert_by_len(s, y).contains(x),
    ensures
        x == y || s.contains(x),
    decreases s.len(),
{
    if s.len() > 0 && s[0].0.len() <= y.0.len() {
        let t = trie::insert_by_len(s.drop_first(), y);
        let i = choose|i: int| 0 <= i < (seq![s[0]] + t).len() && (seq![s[0]] + t)[i] == x;
        if i == 0 {
            assert(s[0] == x);
        } else {
            assert(t[i - 1] == x);
            lemma_insert_by_len_from(s.drop_first(), y, x);
            if x != y {
                let j = choose|j: int| 0 <= j < s.drop_first().len() && s.drop_first()[j] == x;
                assert(s[j + 1] == x);
            }
        }
    } else if s.len() > 0 {
        let i = choose|i: int| 0 <= i < (seq![y] + s).len() && (seq![y] + s)[i] == x;
        if i > 0 {
            assert(s[i - 1] == x);
        }
    }
}

/// Sorting adds no entry.
pub proof fn lemma_sort_by_len_from(s: Seq<(Seq<char>, Seq<usize>)>, x: (Seq<char>, Seq<usize>))
    requires
        sort_by_len(s).contains(x),
    ensures
        s.contains(x),
    decreases s.len(),
{
    if s.len() > 0 {
        lemma_insert_by_len_from(sort_by_len(s.drop_last()), s.last(), x);
        if x != s.last() {
            lemma_sort_by_len_from(s.drop_last(), x);
            let j = choose|j: int| 0 <= j < s.drop_last().len() && s.drop_last()[j] == x;
            assert(s[j] == x);
        } else {
            assert(s[s.len() - 1] == x);
        }
    }
}

/// The values listed, one after the other.
pub open spec fn all_values(vs: Seq<(Seq<char>, Seq<usize>)>) -> Seq<usize>
    decreases vs.len(),
{
    if vs.len() == 0 {
        Seq::empty()
    } else {
        all_values(vs.drop_last()) + vs.last().1
    }
}

/// `es` lists the entries of `m`, each once.
pub open spec fn enumerates(es: Seq<(Seq<char>, Seq<usize>)>, m: Map<Seq<char>, Seq<usize>>) -> bool {
    &&& forall|i: int, j: int| 0 <= i < j < es.len() ==> (#[trigger] es[i]).0 != (#[trigger] es[j]).0
    &&& forall|i: int| 0 <= i < es.len() ==> m.contains_key((#[trigger] es[i]).0) && es[i].1 == m[es[i].0]
    &&& forall|s: Seq<char>| #[trigger] m.contains_key(s) ==> exists|i: int| 0 <= i < es.len() && (#[trigger] es[i]).0 == s
}

/// What a trie's view lists enumerates the entries it was checked against.
pub proof fn lemma_enumerates(tv: trie::TrieView, m: Map<Seq<char>, Seq<usize>>)
    requires
        tv.entries_ok(m),
    ensures
        enumerates(pairs_view(tv.entries@), m),
{
    let es = pairs_view(tv.entries@);
    assert forall|i: int, j: int| 0 <= i < j < es.len() implies (#[trigger] es[i]).0 != (#[trigger] es[j]).0 by {
        assert(tv.entries@[i].0@ != tv.entries@[j].0@);
    }
    assert forall|i: int| 0 <= i < es.len() implies m.contains_key((#[trigger] es[i]).0) && es[i].1 == m[es[i].0] by {
        assert(m.contains_key(tv.entries@[i].0@));
    }
    assert forall|s: Seq<char>| #[trigger] m.contains_key(s) implies exists|i: int| 0 <= i < es.len() && (#[trigger] es[i]).0 == s by {
        let i = choose|i: int| 0 <= i < tv.entries@.len() && (#[trigger] tv.entries@[i]).0@ == s;
        assert(es[i].0 == s);
    }
}

/// `after` is `before` after looking the snippets up by `s`: those whose
/// prefix starts with `s`, shortest prefixes first, at most `MAX_MATCHES` of
/// them; none for an empty `s`. The list's cursor is back at the top.
pub open spec fn searched(before: SnippetRepo, after: SnippetRepo, s: Seq<char>) -> bool {
    &&& after.inv()
    &&& after.trie == before.trie
    &&& after.snippets == before.snippets
    &&& after.message_box == before.message_box
    &&& s.len() == 0 ==> after.current_matches@.len() == 0
    &&& s.len() > 0 && !(exists|k: Seq<char>| #[trigger] trie_entries(before.trie).contains_key(k) && trie::is_prefix(s, k))
        ==> after.current_matches@.len() == 0
    &&& s.len() > 0 && (exists|k: Seq<char>| #[trigger] trie_entries(before.trie).contains_key(k) && trie::is_prefix(s, k))
        ==> exists|es: Seq<(Seq<char>, Seq<usize>)>|
        enumerates(es, entries_below(trie_entries(before.trie), s)) && after.current_matches@ == capped(
            all_values(sort_by_len(with_values(s, es))),
        )
    &&& after.rb.cursor == (crate::read_buffer::Cursor { row: 0, col: 0 })
}

/// The snippets that the editor offers, found by the prefix being typed.
pub struct SnippetRepo {
    pub trie: Trie,
    pub snippets: Vec<Snippet>,
    pub rb: ReadBuffer,
    pub current_matches: Vec<usize>,
    pub message_box: MessageBox,
}

impl SnippetRepo {
    /// The trie indexes the snippets by prefix, the matches are snippets, and
    /// the list shows them.
    pub open spec fn inv(&self) -> bool {
        &&& self.trie.inv()
        &&& forall|k: Seq<char>, i: int|
            #![trigger trie_entries(self.trie).contains_key(k), trie_entries(self.trie)[k][i]]
            trie_entries(self.trie).contains_key(k) && 0 <= i < trie_entries(self.trie)[k].len() ==> trie_entries(
                self.trie,
            )[k][i] < self.snippets@.len()
        &&& forall|i: int| 0 <= i < self.current_matches@.len() ==> #[trigger] self.current_matches@[i] < self.snippets@.len()
        &&& self.current_matches@.len() <= MAX_MATCHES
        &&& self.snippets@.len() < max_size()
        &&& forall|i: int|
            0 <= i < self.snippets@.len() ==> (#[trigger] self.snippets@[i]).prefix@.len()
                + self.snippets@[i].description@.len() + 4 <= max_size()
        &&& self.rb.wf()
    }

    /// A repository of the snippets, each found by its prefix.
    pub fn new(snippets: Vec<Snippet>, message_box: MessageBox) -> (r: Self)
        requires
            snippets@.len() < max_size(),
            forall|i: int| 0 <= i < snippets@.len() ==> (#[trigger] snippets@[i]).prefix@.len() + snippets@[i].description@.len() + 4
                <= max_size(),
        ensures
            r.inv(),
            r.snippets == snippets,
            r.current_matches@.len() == 0,
            forall|i: int|
                0 <= i < snippets@.len() && 0 < snippets@[i].prefix@.len() < usize::MAX ==> #[trigger] trie_entries(r.trie).contains_key(snippets@[i].prefix@),
    {
        let mut trie = Trie::new();
        let mut i: usize = 0;
        while i < snippets.len()
            invariant
                i <= snippets@.len(),
                trie.inv(),
                forall|k: Seq<char>, j: int|
                    #![trigger trie_entries(trie).contains_key(k), trie_entries(trie)[k][j]]
                    trie_entries(trie).contains_key(k) && 0 <= j < trie_entries(trie)[k].len() ==> trie_entries(trie)[k][j] < i,
                forall|j: int|
                    0 <= j < i && 0 < snippets@[j].prefix@.len() < usize::MAX ==> #[trigger] trie_entries(trie).contains_key(snippets@[j].prefix@),
            decreases snippets@.len() - i,
        {
            let p = &snippets[i].prefix;
            if p.len() > 0 && p.len() < usize::MAX {
                let ghost m0 = trie_entries(trie);
                trie.insert(p.as_slice(), i);
                proof {
                    assert forall|k: Seq<char>, j: int|
                        #![trigger trie_entries(trie).contains_key(k), trie_entries(trie)[k][j]]
                        trie_entries(trie).contains_key(k) && 0 <= j < trie_entries(trie)[k].len() implies trie_entries(trie)[k][j]
                            < i + 1 by {
                        if k == p@ {
                            if m0.contains_key(k) && j < m0[k].len() {
                                assert(trie_entries(trie)[k][j] == m0[k][j]);
                            }
                        } else if m0.contains_key(k) {
                            assert(trie_entries(trie)[k] == m0[k]);
                        }
                    }
                    assert forall|j: int|
                        0 <= j < i + 1 && 0 < snippets@[j].prefix@.len() < usize::MAX implies #[trigger] trie_entries(trie).contains_key(
                            snippets@[j].prefix@,
                        ) by {
                        if j < i && snippets@[j].prefix@ != p@ {
                            assert(m0.contains_key(snippets@[j].prefix@));
                        }
                    }
                }
            }
            i = i + 1;
        }
        let mut eol_row: Vec<BufElem> = Vec::new();
        eol_row.push(BufElem::Eol);
        let mut init: Vec<Vec<BufElem>> = Vec::new();
        init.push(eol_row);
        let rb = ReadBuffer::new(init, MessageBox::new());
        proof {
            assert(buf_wf(rows(rb.buf@))) by {
                assert(rows(rb.buf@)[0] == seq![BufElem::Eol]);
            }
        }
        SnippetRepo { trie, snippets, rb, current_matches: Vec::new(), message_box }
    }

    /// The list of the matched snippets, one line each; a single empty line
    /// when there is none.
    pub fn construct_rb(&self, matches: &Vec<usize>) -> (r: Vec<Vec<BufElem>>)
        requires
            self.inv(),
            forall|i: int| 0 <= i < matches@.len() ==> #[trigger] matches@[i] < self.snippets@.len(),
            matches@.len() <= MAX_MATCHES,
        ensures
            matches@.len() == 0 ==> rows(r@) == seq![seq![BufElem::Eol]],
            matches@.len() > 0 ==> rows(r@) == Seq::new(matches@.len(), |i: int| listing(self.snippets@[matches@[i] as int])),
            buf_wf(rows(r@)),
    {
        let mut v: Vec<Vec<BufElem>> = Vec::new();
        if matches.len() == 0 {
            let mut row: Vec<BufElem> = Vec::new();
            row.push(BufElem::Eol);
            v.push(row);
            assert(rows(v@) == seq![seq![BufElem::Eol]]);
            return v;
        }
        let mut i: usize = 0;
        while i < matches.len()
            invariant
                self.inv(),
                i <= matches@.len(),
                forall|j: int| 0 <= j < matches@.len() ==> #[trigger] matches@[j] < self.snippets@.len(),
                rows(v@) == Seq::new(i as nat, |j: int| listing(self.snippets@[matches@[j] as int])),
            decreases matches@.len() - i,
        {
            let snippet = &self.snippets[matches[i]];
            let mut line: Vec<BufElem> = Vec::new();
            line.push(BufElem::Char('['));
            let mut k: usize = 0;
            assert(line@ =~= seq![BufElem::Char('[')]);
            assert(char_elems(snippet.prefix@.take(0)) =~= Seq::<BufElem>::empty());
            assert(line@ == seq![BufElem::Char('[')] + char_elems(snippet.prefix@.take(0)));
            while k < snippet.prefix.len()
                invariant
                    k <= snippet.prefix@.len(),
                    line@ == seq![BufElem::Char('[')] + char_elems(snippet.prefix@.take(k as int)),
                decreases snippet.prefix@.len() - k,
            {
                line.push(BufElem::Char(snippet.prefix[k]));
                k = k + 1;
                assert(char_elems(snippet.prefix@.take(k as int)) == char_elems(snippet.prefix@.take(k - 1)).push(
                    elem_of(snippet.prefix@[k - 1]),
                ));
            }
            assert(snippet.prefix@.take(snippet.prefix@.len() as int) == snippet.prefix@);
            line.push(BufElem::Char(']'));
            line.push(BufElem::Char(' '));
            let ghost mid = line@;
            let mut k: usize = 0;
            assert(line@ == mid + char_elems(snippet.description@.take(0)));
            while k < snippet.description.len()
                invariant
                    k <= snippet.description@.len(),
                    line@ == mid + char_elems(snippet.description@.take(k as int)),
                decreases snippet.description@.len() - k,
            {
                line.push(BufElem::Char(snippet.description[k]));
                k = k + 1;
                assert(char_elems(snippet.description@.take(k as int))
                    == char_elems(snippet.description@.take(k - 1)).push(
                    elem_of(snippet.description@[k - 1]),
                ));
            }
            assert(snippet.description@.take(snippet.description@.len() as int) == snippet.description@);
            line.push(BufElem::Eol);
            assert(line@ == listing(self.snippets@[matches@[i as int] as int]));
            let ghost prev = rows(v@);
            v.push(line);
            proof {
                assert(rows(v@) == prev.push(listing(self.snippets@[matches@[i as int] as int])));
                assert(rows(v@) == Seq::new((i + 1) as nat, |j: int| listing(self.snippets@[matches@[j] as int])));
            }
            i = i + 1;
        }
        proof {
            let rs = rows(v@);
            assert forall|r: int| 0 <= r < rs.len() implies #[trigger] line_wf(rs[r]) && rs[r].len() <= max_size() by {
                let l = rs[r];
                let sn = self.snippets@[matches@[r] as int];
                assert(l == listing(sn));
                assert forall|q: int| 0 <= q < l.len() - 1 implies l[q] != BufElem::Eol by {
                    let a = 1 + sn.prefix@.len();
                    if q == 0 {
                    } else if q < a {
                        assert(l[q] == BufElem::Char(sn.prefix@[q - 1]));
                    } else if q < a + 2 {
                    } else {
                        assert(l[q] == BufElem::Char(sn.description@[q - a - 2]));
                    }
                }
            }
        }
        v
    }

    /// Looks the snippets up by `s`: those whose prefix starts with `s`,
    /// shortest prefixes first; none for an empty `s`. The list shows them (as
    /// many as a buffer holds).
    pub fn set_searcher(&mut self, s: Vec<char>)
        requires
            old(self).inv(),
        ensures
            searched(*old(self), *final(self), s@),
    {
        let mut new_list: Vec<usize> = Vec::new();
        if s.len() > 0 {
            match self.trie.get_node(s.as_slice()) {
                Some(node) => {
                    let vs = node.list_values();
                    let ghost ev = pairs_view(node.entries@);
                    let ghost sorted = sort_by_len(with_values(s@, ev));
                    let mut i: usize = 0;
                    while i < vs.len()
                        invariant
                            i <= vs@.len(),
                            pairs_view(vs@) == sorted,
                            sorted == sort_by_len(with_values(s@, ev)),
                            ev == pairs_view(node.entries@),
                            new_list@ == all_values(sorted.take(i as int)),
                            self.inv(),
                            node.entries_ok(entries_below(trie_entries(self.trie), s@)),
                            forall|q: int| 0 <= q < new_list@.len() ==> #[trigger] new_list@[q] < self.snippets@.len(),
                        decreases vs@.len() - i,
                    {
                        let vv = &vs[i].1;
                        proof {
                            assert(sorted[i as int] == (vs@[i as int].0@, vv@));
                            assert(sorted.contains(sorted[i as int]));
                            lemma_sort_by_len_from(with_values(s@, ev), sorted[i as int]);
                            lemma_with_values_from(s@, ev, sorted[i as int]);
                            let e = choose|e: int| 0 <= e < ev.len() && sorted[i as int] == (s@ + ev[e].0, ev[e].1);
                            assert(ev[e] == (node.entries@[e].0@, node.entries@[e].1@));
                            let key = s@ + ev[e].0;
                            assert(trie_entries(self.trie).contains_key(key));
                            assert(vv@ == trie_entries(self.trie)[key]);
                            assert forall|q: int| 0 <= q < vv@.len() implies #[trigger] vv@[q] < self.snippets@.len() by {
                                assert(trie_entries(self.trie)[key][q] == vv@[q]);
                            }
                        }
                        let mut j: usize = 0;
                        let ghost base = new_list@;
                        while j < vv.len()
                            invariant
                                j <= vv@.len(),
                                new_list@ == base + vv@.take(j as int),
                                forall|q: int| 0 <= q < vv@.len() ==> #[trigger] vv@[q] < self.snippets@.len(),
                                forall|q: int| 0 <= q < base.len() ==> #[trigger] base[q] < self.snippets@.len(),
                            decreases vv@.len() - j,
                        {
                            new_list.push(vv[j]);
                            j = j + 1;
                            assert(new_list@ == base + vv@.take(j as int));
                        }
                        proof {
                            assert(vv@.take(vv@.len() as int) == vv@);
                            assert(sorted.take(i + 1).drop_last() == sorted.take(i as int));
                            assert(sorted.take(i + 1).last() == sorted[i as int]);
                            assert forall|q: int| 0 <= q < new_list@.len() implies #[trigger] new_list@[q] < self.snippets@.len() by {
                                if q < base.len() {
                                    assert(new_list@[q] == base[q]);
                                } else {
                                    assert(new_list@[q] == vv@[q - base.len()]);
                                }
                            }
                        }
                        i = i + 1;
                    }
                    assert(sorted.take(vs@.len() as int) == sorted);
                    proof {
                        lemma_enumerates(node, entries_below(trie_entries(self.trie), s@));
                    }
                },
                None => {},
            }
        }
        if new_list.len() > MAX_MATCHES {
            new_list.truncate(MAX_MATCHES);
        }
        let rows_ = self.construct_rb(&new_list);
        self.rb = ReadBuffer::new(rows_, MessageBox::new());
        self.current_matches = new_list;
    }

    /// The matched snippets.
    pub fn current_matches(&self) -> (r: &Vec<usize>)
        ensures
            r == &self.current_matches,
    {
        &self.current_matches
    }

    /// The snippet that the list's cursor is on.
    pub fn current_snippet(&self) -> (r: &Snippet)
        requires
            self.inv(),
            self.rb.cursor.row < self.current_matches@.len(),
        ensures
            *r == self.snippets@[self.current_matches@[self.rb.cursor.row as int] as int],
    {
        let pos = self.rb.cursor.row;
        &self.snippets[self.current_matches[pos]]
    }
}

/// The colors of the snippet list: black on white.
pub struct AddColor {}

impl DiffView for AddColor {
    open spec fn diff_covers(&self, col: usize, row: usize) -> bool {
        true
    }

    open spec fn spec_diff(&self, col: usize, row: usize) -> ViewElemDiff {
        (None, Some(Color::Black), Some(Color::White))
    }

    fn get(&self, col: usize, row: usize) -> (r: ViewElemDiff) {
        (None, Some(Color::Black), Some(Color::White))
    }
}

} // verus!
