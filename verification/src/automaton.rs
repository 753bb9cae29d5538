use vstd::prelude::*;
use crate::Key;
use crate::controller::key_matches;

verus! {

/// What a transition accepts.
#[derive(Debug, Clone, Copy)]
pub struct Edge {
    pub matcher: Key,
}

impl Edge {
    pub fn new(matcher: Key) -> (r: Edge)
        ensures
            r.matcher == matcher,
    {
        Edge { matcher }
    }

    /// Whether the edge accepts `k`: a character range accepts the characters
    /// in it, `Otherwise` every key, and any other matcher itself.
    pub fn matches(&self, k: &Key) -> (r: bool)
        ensures
            r == key_matches(self.matcher, *k),
    {
        match self.matcher {
            Key::CharRange(a, b) => match *k {
                Key::Char(c) => a <= c && c <= b,
                _ => false,
            },
            Key::Otherwise => true,
            m => *k == m,
        }
    }
}

/// A transition: the edge and the node it leads to.
#[derive(Debug, Clone, Copy)]
pub struct Trans {
    pub e: Edge,
    pub n: Node,
}

/// A node of an automaton: its name and its transitions, in the order they
/// were added.
pub struct NodeImpl {
    pub name: String,
    pub possible_trans: Vec<Trans>,
}

/// The nodes of an automaton; a `Node` is the place of one of them.
pub struct Automaton {
    pub nodes: Vec<NodeImpl>,
}

/// A node, by its place in its automaton.
#[derive(Debug, Clone, Copy, PartialEq, Eq, Structural)]
pub struct Node {
    pub id: usize,
}

/// The node that the first transition accepting `k` leads to.
pub open spec fn first_target(ts: Seq<Trans>, k: Key) -> Option<Node>
    decreases ts.len(),
{
    if ts.len() == 0 {
        None
    } else if key_matches(ts[0].e.matcher, k) {
        Some(ts[0].n)
    } else {
        first_target(ts.drop_first(), k)
    }
}

impl Automaton {
    /// Every transition leads to a node of the automaton.
    pub open spec fn wf(&self) -> bool {
        forall|i: int, j: int|
            0 <= i < self.nodes@.len() && 0 <= j < self.nodes@[i].possible_trans@.len() ==> (
            #[trigger] self.nodes@[i].possible_trans@[j]).n.id < self.nodes@.len()
    }

    pub open spec fn has(&self, n: Node) -> bool {
        n.id < self.nodes@.len()
    }

    /// The transitions out of `n`.
    pub open spec fn trans_of(&self, n: Node) -> Seq<Trans> {
        self.nodes@[n.id as int].possible_trans@
    }

    pub fn new() -> (r: Automaton)
        ensures
            r.wf(),
            r.nodes@.len() == 0,
    {
        Automaton { nodes: Vec::new() }
    }
}

impl Node {
    /// A new node of `g` named `name`, without transitions.
    pub fn new(g: &mut Automaton, name: &str) -> (r: Node)
        requires
            old(g).wf(),
            old(g).nodes@.len() < usize::MAX,
        ensures
            final(g).wf(),
            r.id == old(g).nodes@.len(),
            final(g).nodes@.len() == old(g).nodes@.len() + 1,
            final(g).nodes@[r.id as int].name@ == name@,
            final(g).trans_of(r).len() == 0,
            forall|i: int| 0 <= i < old(g).nodes@.len() ==> #[trigger] final(g).nodes@[i] == old(g).nodes@[i],
    {
        let id = g.nodes.len();
        g.nodes.push(NodeImpl { name: name.to_owned(), possible_trans: Vec::new() });
        proof {
            assert forall|i: int, j: int|
                0 <= i < g.nodes@.len() && 0 <= j < g.nodes@[i].possible_trans@.len() implies (
                #[trigger] g.nodes@[i].possible_trans@[j]).n.id < g.nodes@.len() by {
                if i < id {
                    assert(g.nodes@[i] == old(g).nodes@[i]);
                }
            }
        }
        Node { id }
    }

    /// The name of the node.
    pub fn name(&self, g: &Automaton) -> (r: String)
        requires
            g.has(*self),
        ensures
            r@ == g.nodes@[self.id as int].name@,
    {
        g.nodes[self.id].name.clone()
    }

    /// Adds a transition from this node along `e` to `n`, after the others.
    pub fn add_trans(&self, g: &mut Automaton, e: Edge, n: &Node)
        requires
            old(g).wf(),
            old(g).has(*self),
            old(g).has(*n),
        ensures
            final(g).wf(),
            final(g).nodes@.len() == old(g).nodes@.len(),
            final(g).trans_of(*self) == old(g).trans_of(*self).push(Trans { e, n: *n }),
            final(g).nodes@[self.id as int].name == old(g).nodes@[self.id as int].name,
            forall|i: int| 0 <= i < old(g).nodes@.len() && i != self.id ==> #[trigger] final(g).nodes@[i] == old(g).nodes@[i],
    {
        let i = self.id;
        let mut nd = g.nodes.remove(i);
        let ghost g1 = g.nodes@;
        nd.possible_trans.push(Trans { e, n: *n });
        g.nodes.insert(i, nd);
        proof {
            assert forall|a: int| 0 <= a < old(g).nodes@.len() && a != i implies #[trigger] g.nodes@[a] == old(g).nodes@[a] by {
                if a < i {
                    assert(g.nodes@[a] == g1[a]);
                } else {
                    assert(g.nodes@[a] == g1[a - 1]);
                }
            }
            assert forall|a: int, j: int|
                0 <= a < g.nodes@.len() && 0 <= j < g.nodes@[a].possible_trans@.len() implies (
                #[trigger] g.nodes@[a].possible_trans@[j]).n.id < g.nodes@.len() by {
                if a != i {
                    assert(g.nodes@[a] == old(g).nodes@[a]);
                } else if j < old(g).nodes@[a].possible_trans@.len() {
                    assert(g.nodes@[a].possible_trans@[j] == old(g).nodes@[a].possible_trans@[j]);
                }
            }
        }
    }

    /// The first transition out of this node that accepts `k`.
    pub fn find_trans(&self, g: &Automaton, k: &Key) -> (r: Option<Trans>)
        requires
            g.has(*self),
        ensures
            match r {
                Some(t) => first_target(g.trans_of(*self), *k) == Some(t.n),
                None => first_target(g.trans_of(*self), *k) is None,
            },
    {
        let ts = &g.nodes[self.id].possible_trans;
        let mut i: usize = 0;
        assert(ts@.skip(0) == ts@);
        while i < ts.len()
            invariant
                i <= ts@.len(),
                ts@ == g.trans_of(*self),
                first_target(ts@, *k) == first_target(ts@.skip(i as int), *k),
            decreases ts@.len() - i,
        {
            assert(ts@.skip(i as int)[0] == ts@[i as int]);
            if ts[i].e.matches(k) {
                return Some(ts[i]);
            }
            assert(ts@.skip(i as int).drop_first() == ts@.skip(i + 1));
            i = i + 1;
        }
        assert(ts@.skip(i as int).len() == 0);
        None
    }
}

/// Reads keys along the transitions of an automaton.
pub struct Parser {
    pub cur_node: Node,
    pub prev_node: Option<Node>,
    pub rec: Vec<Key>,
}

impl Parser {
    /// A parser at `init_node`, with nothing read.
    pub fn new(init_node: &Node) -> (r: Parser)
        ensures
            r.cur_node == *init_node,
            r.prev_node is None,
            r.rec@.len() == 0,
    {
        Parser { cur_node: *init_node, prev_node: None, rec: Vec::new() }
    }

    /// Forgets the keys read so far.
    pub fn clear_rec(&mut self)
        ensures
            final(self).rec@.len() == 0,
            final(self).cur_node == old(self).cur_node,
            final(self).prev_node == old(self).prev_node,
    {
        self.rec = Vec::new();
    }

    /// Follows the first transition that accepts `k`, and records `k`.
    pub fn feed(&mut self, g: &Automaton, k: Key)
        requires
            g.wf(),
            g.has(old(self).cur_node),
            first_target(g.trans_of(old(self).cur_node), k) is Some,
        ensures
            Some(final(self).cur_node) == first_target(g.trans_of(old(self).cur_node), k),
            g.has(final(self).cur_node),
            final(self).prev_node == Some(old(self).cur_node),
            final(self).rec@ == old(self).rec@.push(k),
    {
        let trans = self.cur_node.find_trans(g, &k);
        let t = match trans {
            Some(t) => t,
            None => {
                return;
            },
        };
        proof {
            lemma_first_target_in(g.trans_of(self.cur_node), k);
            let j = choose|j: int| 0 <= j < g.trans_of(self.cur_node).len() && g.trans_of(self.cur_node)[j].n == t.n;
            assert(g.nodes@[self.cur_node.id as int].possible_trans@[j].n.id < g.nodes@.len());
        }
        let cur = self.cur_node;
        self.cur_node = t.n;
        self.prev_node = Some(cur);
        self.rec.push(k);
    }
}

/// The node that a transition leads to is the target of one of them.
pub proof fn lemma_first_target_in(ts: Seq<Trans>, k: Key)
    requires
        first_target(ts, k) is Some,
    ensures
        exists|j: int| 0 <= j < ts.len() && ts[j].n == first_target(ts, k)->0,
    decreases ts.len(),
{
    if !key_matches(ts[0].e.matcher, k) {
        lemma_first_target_in(ts.drop_first(), k);
        let j = choose|j: int| 0 <= j < ts.drop_first().len() && ts.drop_first()[j].n == first_target(ts.drop_first(), k)->0;
        assert(ts[j + 1] == ts.drop_first()[j]);
    } else {
        assert(ts[0].n == first_target(ts, k)->0);
    }
}

} // verus!
