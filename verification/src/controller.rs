use vstd::prelude::*;
use crate::Key;

verus! {

/// What a key does to a target in a given state: `run` performs the action
/// and returns the state that the controller moves to.
pub trait Effect<A> {
    /// What every action keeps.
    spec fn inv(&self) -> bool;

    /// The action can run on this value with this key (elsewhere the editor
    /// would stop).
    spec fn can_run(&self, a: A, k: Key) -> bool;

    fn ready(&self, a: A, k: Key) -> (r: bool)
        requires
            self.inv(),
        ensures
            r == self.can_run(a, k),
    ;

    /// Running `a` with `k` on this value can leave `after`, with the
    /// controller moving to the state `to`.
    spec fn leads_to(&self, a: A, k: Key, after: Self, to: String) -> bool where Self: Sized;

    fn run(&mut self, a: A, k: Key) -> (r: String) where Self: Sized
        requires
            old(self).inv(),
            old(self).can_run(a, k),
        ensures
            final(self).inv(),
            old(self).leads_to(a, k, *final(self), r),
    ;
}

/// Whether a matcher accepts a key: a character range accepts the characters in
/// it, `Otherwise` accepts every key, and any other matcher accepts itself.
pub open spec fn key_matches(matcher: Key, k: Key) -> bool {
    match matcher {
        Key::CharRange(a, b) => match k {
            Key::Char(c) => a <= c && c <= b,
            _ => false,
        },
        Key::Otherwise => true,
        _ => k == matcher,
    }
}

/// An edge out of a state: the keys it matches and the action it triggers.
pub struct Edge<A> {
    pub matcher: Key,
    pub eff: A,
}

impl<A> Edge<A> {
    pub fn matches(&self, k: &Key) -> (r: bool)
        ensures
            r == key_matches(self.matcher, *k),
    {
        match self.matcher {
            Key::CharRange(a, b) => match *k {
                Key::Char(c) => a <= c && c <= b,
                _ => false,
            },
            Key::Otherwise => true,
            mhr => *k == mhr,
        }
    }
}

/// The first of `es` that matches `k`.
pub open spec fn first_match<A>(es: Seq<Edge<A>>, k: Key) -> Option<A>
    decreases es.len(),
{
    if es.len() == 0 {
        None
    } else if key_matches(es[0].matcher, k) {
        Some(es[0].eff)
    } else {
        first_match(es.drop_first(), k)
    }
}

/// A graph without states.
pub open spec fn no_edges<A>() -> Map<Seq<char>, Seq<Edge<A>>> {
    Map::empty()
}

/// The edges out of `s` in `m`, none when `s` has no entry.
pub open spec fn edges_out<A>(m: Map<Seq<char>, Seq<Edge<A>>>, s: Seq<char>) -> Seq<Edge<A>> {
    if m.contains_key(s) {
        m[s]
    } else {
        Seq::empty()
    }
}

/// The graph `m` with the rows of `t` added in turn: each `(state, matcher,
/// action)` as an edge after those out of its state.
pub open spec fn with_edges<A>(m: Map<Seq<char>, Seq<Edge<A>>>, t: Seq<(Seq<char>, Key, A)>) -> Map<
    Seq<char>,
    Seq<Edge<A>>,
>
    decreases t.len(),
{
    if t.len() == 0 {
        m
    } else {
        let p = with_edges(m, t.drop_last());
        let e = t.last();
        p.insert(e.0, edges_out(p, e.0).push(Edge { matcher: e.1, eff: e.2 }))
    }
}

/// A table of edges as plain values.
pub open spec fn table_view<'a, A>(t: Seq<(&'a str, Key, A)>) -> Seq<(Seq<char>, Key, A)> {
    Seq::new(t.len(), |i: int| (t[i].0@, t[i].1, t[i].2))
}

/// The transition graph: for each state, its edges in the order they were added.
pub struct Graph<A> {
    pub edges: Vec<(String, Vec<Edge<A>>)>,
}

impl<A: Copy> Graph<A> {
    /// No state is listed twice.
    pub open spec fn inv(&self) -> bool {
        forall|i: int, j: int|
            0 <= i < j < self.edges@.len() ==> (#[trigger] self.edges@[i]).0@ != (
            #[trigger] self.edges@[j]).0@
    }

    /// The edges out of each state.
    pub open spec fn view(&self) -> Map<Seq<char>, Seq<Edge<A>>> {
        Map::new(
            |s: Seq<char>| exists|i: int| 0 <= i < self.edges@.len() && self.edges@[i].0@ == s,
            |s: Seq<char>|
                self.edges@[choose|i: int| 0 <= i < self.edges@.len() && self.edges@[i].0@ == s].1@,
        )
    }

    /// The action that key `k` triggers in state `from`, if any.
    pub open spec fn spec_find(&self, from: Seq<char>, k: Key) -> Option<A> {
        if self@.contains_key(from) {
            first_match(self@[from], k)
        } else {
            None
        }
    }

    pub fn new() -> (r: Self)
        ensures
            r.inv(),
            r@ == no_edges::<A>(),
    {
        let r = Graph { edges: Vec::new() };
        assert(r@ =~= no_edges::<A>());
        r
    }

    fn position(&self, from: &str) -> (r: Option<usize>)
        requires
            self.inv(),
        ensures
            match r {
                Some(i) => i < self.edges@.len() && self.edges@[i as int].0@ == from@,
                None => !self@.contains_key(from@),
            },
    {
        let target = from.to_owned();
        let mut i: usize = 0;
        while i < self.edges.len()
            invariant
                i <= self.edges@.len(),
                target@ == from@,
                forall|j: int| 0 <= j < i ==> self.edges@[j].0@ != from@,
            decreases self.edges.len() - i,
        {
            if self.edges[i].0 == target {
                return Some(i);
            }
            i = i + 1;
        }
        None
    }

    proof fn lemma_lookup(&self, i: int)
        requires
            self.inv(),
            0 <= i < self.edges@.len(),
        ensures
            self@.contains_key(self.edges@[i].0@),
            self@[self.edges@[i].0@] == self.edges@[i].1@,
    {
        let s = self.edges@[i].0@;
        assert(self@.contains_key(s));
        let j = choose|j: int| 0 <= j < self.edges@.len() && self.edges@[j].0@ == s;
        if j != i {
            if i < j {
                assert(self.edges@[i].0@ != self.edges@[j].0@);
            } else {
                assert(self.edges@[j].0@ != self.edges@[i].0@);
            }
        }
    }

    /// Makes sure that state `from` has a (possibly empty) list of edges.
    fn ensure_edge_vec(&mut self, from: &str)
        requires
            old(self).inv(),
        ensures
            final(self).inv(),
            old(self)@.contains_key(from@) ==> final(self)@ == old(self)@,
            !old(self)@.contains_key(from@) ==> final(self)@ == old(self)@.insert(
                from@,
                Seq::empty(),
            ),
    {
        match self.position(from) {
            Some(_) => {},
            None => {
                let ghost old_edges = self.edges@;
                self.edges.push((from.to_owned(), Vec::new()));
                proof {
                    let n = old_edges.len() as int;
                    assert forall|i: int, j: int|
                        0 <= i < j < self.edges@.len() implies (#[trigger] self.edges@[i]).0@ != (
                        #[trigger] self.edges@[j]).0@ by {
                        if j == n {
                            assert(old_edges[i] == self.edges@[i]);
                        } else {
                            assert(old_edges[i] == self.edges@[i]);
                            assert(old_edges[j] == self.edges@[j]);
                        }
                    }
                    assert forall|s: Seq<char>| #[trigger] self@.contains_key(s) == old(self)@.insert(
                        from@,
                        Seq::empty(),
                    ).contains_key(s) by {
                        if old(self)@.contains_key(s) {
                            let j = choose|j: int|
                                0 <= j < old_edges.len() && old_edges[j].0@ == s;
                            assert(self.edges@[j] == old_edges[j]);
                        }
                        if s == from@ {
                            assert(self.edges@[n].0@ == s);
                        }
                        if self@.contains_key(s) && s != from@ {
                            let j = choose|j: int|
                                0 <= j < self.edges@.len() && self.edges@[j].0@ == s;
                            assert(j < n);
                            assert(self.edges@[j] == old_edges[j]);
                        }
                    }
                    assert forall|s: Seq<char>| #[trigger] self@.contains_key(s) implies self@[s]
                        == old(self)@.insert(from@, Seq::empty())[s] by {
                        let j = choose|j: int|
                            0 <= j < self.edges@.len() && self.edges@[j].0@ == s;
                        self.lemma_lookup(j);
                        if s != from@ {
                            assert(j < n);
                            assert(self.edges@[j] == old_edges[j]);
                            old(self).lemma_lookup(j);
                        } else {
                            if j < n {
                                assert(old_edges[j].0@ == from@);
                                assert(old(self)@.contains_key(from@));
                            }
                        }
                    }
                    assert(self@ =~= old(self)@.insert(from@, Seq::empty()));
                }
            },
        }
    }

    /// Adds an edge out of state `from`, after its other edges.
    pub fn add_edge(&mut self, from: &str, matcher: Key, eff: A)
        requires
            old(self).inv(),
        ensures
            final(self).inv(),
            final(self)@ == old(self)@.insert(
                from@,
                (if old(self)@.contains_key(from@) {
                    old(self)@[from@]
                } else {
                    Seq::empty()
                }).push(Edge { matcher, eff }),
            ),
    {
        self.ensure_edge_vec(from);
        let ghost mid = self@;
        let i = self.position(from).unwrap();
        proof {
            self.lemma_lookup(i as int);
        }
        let ghost old_edges = self.edges@;
        self.edges[i].1.push(Edge { matcher, eff });
        proof {
            assert forall|a: int, b: int|
                0 <= a < b < self.edges@.len() implies (#[trigger] self.edges@[a]).0@ != (
                #[trigger] self.edges@[b]).0@ by {
                assert(self.edges@[a].0 == old_edges[a].0);
                assert(self.edges@[b].0 == old_edges[b].0);
            }
            assert forall|s: Seq<char>| #[trigger] self@.contains_key(s) == mid.contains_key(s) by {
                if mid.contains_key(s) {
                    let j = choose|j: int| 0 <= j < old_edges.len() && old_edges[j].0@ == s;
                    assert(self.edges@[j].0 == old_edges[j].0);
                }
                if self@.contains_key(s) {
                    let j = choose|j: int| 0 <= j < self.edges@.len() && self.edges@[j].0@ == s;
                    assert(self.edges@[j].0 == old_edges[j].0);
                }
            }
            assert forall|s: Seq<char>| #[trigger] self@.contains_key(s) implies self@[s] == mid.insert(
                from@,
                mid[from@].push(Edge { matcher, eff }),
            )[s] by {
                let j = choose|j: int| 0 <= j < self.edges@.len() && self.edges@[j].0@ == s;
                self.lemma_lookup(j);
                if j != i {
                    assert(self.edges@[j] == old_edges[j]);
                    assert(self.edges@[j].0@ != from@);
                }
            }
            assert(self@ =~= mid.insert(from@, mid[from@].push(Edge { matcher, eff })));
        }
    }

    /// Adds the edges of the table, row by row.
    pub fn add_table(&mut self, table: &Vec<(&str, Key, A)>)
        requires
            old(self).inv(),
        ensures
            final(self).inv(),
            final(self)@ == with_edges(old(self)@, table_view(table@)),
    {
        let ghost tv = table_view(table@);
        let mut i: usize = 0;
        while i < table.len()
            invariant
                i <= table@.len(),
                tv == table_view(table@),
                self.inv(),
                self@ == with_edges(old(self)@, tv.take(i as int)),
            decreases table@.len() - i,
        {
            let (s, m, a) = table[i];
            self.add_edge(s, m, a);
            i = i + 1;
            proof {
                assert(tv.take(i as int).drop_last() == tv.take(i - 1));
                assert(tv.take(i as int).last() == tv[i - 1]);
            }
        }
        assert(tv.take(table@.len() as int) == tv);
    }

    /// The action of the first edge out of `from` that matches `k`.
    pub fn find_effect(&self, from: &str, k: &Key) -> (r: Option<A>)
        requires
            self.inv(),
        ensures
            r == self.spec_find(from@, *k),
    {
        match self.position(from) {
            None => None,
            Some(i) => {
                proof {
                    self.lemma_lookup(i as int);
                }
                let v = &self.edges[i].1;
                let mut j: usize = 0;
                assert(v@.subrange(0, v@.len() as int) == v@);
                while j < v.len()
                    invariant
                        j <= v@.len(),
                        self@.contains_key(from@),
                        self@[from@] == v@,
                        first_match(v@, *k) == first_match(v@.subrange(j as int, v@.len() as int), *k),
                    decreases v.len() - j,
                {
                    assert(v@.subrange(j as int, v@.len() as int).drop_first() == v@.subrange(
                        j + 1,
                        v@.len() as int,
                    ));
                    if v[j].matches(k) {
                        let e = v[j].eff;
                        proof {
                            let t = v@.subrange(j as int, v@.len() as int);
                            assert(t[0] == v@[j as int]);
                            assert(key_matches(t[0].matcher, *k));
                            assert(first_match(t, *k) == Some(t[0].eff));
                        }
                        return Some(e);
                    }
                    j = j + 1;
                }
                assert(v@.subrange(j as int, v@.len() as int).len() == 0);
                None
            },
        }
    }
}

/// A receiver of key strokes.
pub trait Controller<T> {
    /// Handles `k` for `target`; `false` when the action that `k` selects cannot
    /// run on `target` as it is.
    fn receive(&mut self, target: &mut T, k: Key) -> bool;
}

/// A controller that ignores every key.
pub struct NullController {}

impl<T> Controller<T> for NullController {
    fn receive(&mut self, target: &mut T, k: Key) -> bool {
        true
    }
}

/// A state machine: the current state and the graph of its transitions.
pub struct ControllerFSM<A> {
    pub cur: String,
    pub g: Graph<A>,
}

impl<A: Copy> ControllerFSM<A> {
    pub fn new(s: &str, g: Graph<A>) -> (r: Self)
        ensures
            r.cur@ == s@,
            r.g == g,
    {
        ControllerFSM { cur: s.to_owned(), g }
    }

    /// Looks up the action for `k` in the current state; when there is one and it
    /// can run, runs it on `target` and moves to the state it returns.
    pub fn receive_key<T: Effect<A>>(&mut self, target: &mut T, k: Key) -> (r: bool)
        requires
            old(self).g.inv(),
            old(target).inv(),
        ensures
            final(self).g == old(self).g,
            final(target).inv(),
            match old(self).g.spec_find(old(self).cur@, k) {
                None => r && final(self).cur@ == old(self).cur@ && *final(target) == *old(target),
                Some(a) => if old(target).can_run(a, k) {
                    r && old(target).leads_to(a, k, *final(target), final(self).cur)
                } else {
                    !r && final(self).cur@ == old(self).cur@ && *final(target) == *old(target)
                },
            },
    {
        let eff0 = self.g.find_effect(self.cur.as_str(), &k);
        match eff0 {
            Some(eff) => {
                if target.ready(eff, k) {
                    let to = target.run(eff, k);
                    self.cur = to;
                    true
                } else {
                    false
                }
            },
            None => true,
        }
    }
}

} // verus!
