use vstd::prelude::*;
use crate::Key;
use crate::read_buffer::{BufElem, Line, spec_is_word_char, word_lo};
use super::indent::{AutoIndent, IndentType, leading_indent, opens_block, indent_elems};
use super::change_log::copy_elems;

verus! {

/// A piece of a snippet: a line break, fixed text, or a tab stop with its
/// placeholder and its place in the order of tab stops.
pub enum ChildComponent {
    Eol,
    Fixed(Vec<BufElem>),
    Dynamic(Vec<BufElem>, usize),
}

/// A node of the tree: its own text, and the nodes that follow it.
pub struct Node {
    pub is_placeholder: bool,
    pub buffer: Vec<BufElem>,
    pub children: Vec<usize>,
}

/// A node as a value.
pub struct NodeView {
    pub is_placeholder: bool,
    pub buffer: Seq<BufElem>,
    pub children: Seq<usize>,
}

impl View for Node {
    type V = NodeView;

    open spec fn view(&self) -> NodeView {
        NodeView { is_placeholder: self.is_placeholder, buffer: self.buffer@, children: self.children@ }
    }
}

/// The characters of the word that ends the text, if the text ends with a word
/// character.
pub open spec fn word_at_end(b: Seq<BufElem>) -> Seq<char> {
    if b.len() == 0 || !spec_is_word_char(b.last()) {
        Seq::empty()
    } else {
        let lo = word_lo(b, b.len() - 1);
        Seq::new((b.len() - lo) as nat, |i: int| match b[lo + i] {
            BufElem::Char(c) => c,
            BufElem::Eol => ' ',
        })
    }
}

impl Node {
    pub fn new(placeholder: Vec<BufElem>) -> (r: Self)
        ensures
            r.is_placeholder,
            r.buffer@ == placeholder@,
            r.children@.len() == 0,
    {
        Node { buffer: placeholder, is_placeholder: true, children: Vec::new() }
    }

    pub fn is_leaf(&self) -> (r: bool)
        ensures
            r == (self.children@.len() == 0),
    {
        self.children.len() == 0
    }

    pub fn add_children(&mut self, children: Vec<usize>)
        ensures
            final(self).children@ == children@,
            final(self).buffer == old(self).buffer,
            final(self).is_placeholder == old(self).is_placeholder,
    {
        self.children = children;
    }

    /// The word that the text typed into the node ends with; nothing while the
    /// node still shows its placeholder.
    pub fn current_word(&self) -> (r: Vec<char>)
        ensures
            r@ == (if self.is_placeholder { Seq::empty() } else { word_at_end(self.buffer@) }),
    {
        if self.is_placeholder {
            return Vec::new();
        }
        if self.buffer.len() == 0 {
            return Vec::new();
        }
        let col = self.buffer.len() - 1;
        let line = Line::new(self.buffer.as_slice());
        let r = line.word_range(col);
        match r {
            None => Vec::new(),
            Some(r) => {
                let ghost b = self.buffer@;
                let ghost lo = r.start as int;
                proof {
                    lemma_word_lo_le(b, col as int);
                }
                assert(r.end == b.len()) by {
                    assert(r.end == crate::read_buffer::word_hi(b, col as int));
                }
                let mut v: Vec<char> = Vec::new();
                let mut i = r.start;
                while i < r.end
                    invariant
                        lo <= i,
                        i <= r.end,
                        r.end == b.len(),
                        b == self.buffer@,
                        lo == word_lo(b, col as int),
                        v@ == Seq::new((i - lo) as nat, |j: int| match b[lo + j] {
                            BufElem::Char(c) => c,
                            BufElem::Eol => ' ',
                        }),
                    decreases r.end - i,
                {
                    match self.buffer[i] {
                        BufElem::Char(c) => v.push(c),
                        BufElem::Eol => v.push(' '),
                    }
                    i = i + 1;
                }
                v
            },
        }
    }

    /// Takes the current word out of the node's text.
    pub fn rollback_current_word(&mut self)
        ensures
            final(self).buffer@ == old(self).buffer@.take(
                old(self).buffer@.len() - (if old(self).is_placeholder {
                    0
                } else {
                    word_at_end(old(self).buffer@).len()
                }),
            ),
            final(self).is_placeholder == old(self).is_placeholder,
            final(self).children == old(self).children,
    {
        let n = self.current_word().len();
        let ghost b = self.buffer@;
        proof {
            if !self.is_placeholder && b.len() > 0 && spec_is_word_char(b.last()) {
                lemma_word_lo_le(b, b.len() - 1);
            }
        }
        let mut k: usize = 0;
        while k < n
            invariant
                k <= n,
                n == (if self.is_placeholder { 0 } else { word_at_end(b).len() }),
                n <= b.len(),
                self.buffer@ == b.take(b.len() - k),
                self.is_placeholder == old(self).is_placeholder,
                self.children == old(self).children,
            decreases n - k,
        {
            self.buffer.pop();
            k = k + 1;
        }
    }
}

/// The start of a word is not after its end.
pub proof fn lemma_word_lo_le(s: Seq<BufElem>, col: int)
    requires
        0 <= col,
    ensures
        0 <= word_lo(s, col) <= col,
    decreases col,
{
    if col > 0 && spec_is_word_char(s[col - 1]) {
        lemma_word_lo_le(s, col - 1);
    }
}

/// The text of the tree from node `id` on: the node's text, then that of its
/// children in order. A child must come after its parent.
pub open spec fn flat(nodes: Seq<NodeView>, id: int) -> Seq<BufElem>
    decreases nodes.len() - id, 1int, 0int,
{
    if 0 <= id < nodes.len() {
        nodes[id].buffer + flat_children(nodes, id, nodes[id].children.len() as int)
    } else {
        Seq::empty()
    }
}

/// The text of the first `k` children of node `id`.
pub open spec fn flat_children(nodes: Seq<NodeView>, id: int, k: int) -> Seq<BufElem>
    decreases nodes.len() - id, 0int, k,
{
    if k <= 0 || !(0 <= id < nodes.len()) || k > nodes[id].children.len() {
        Seq::empty()
    } else {
        let c = nodes[id].children[k - 1] as int;
        flat_children(nodes, id, k - 1) + (if id < c < nodes.len() {
            flat(nodes, c)
        } else {
            Seq::empty()
        })
    }
}

/// Where the cursor stands in the text of the tree from node `id` on, if node
/// `pin` is in it: before the node's text while it is a placeholder, after it
/// otherwise. The last place in the order of the text counts.
pub open spec fn pin_pos(nodes: Seq<NodeView>, id: int, pin: int) -> Option<int>
    decreases nodes.len() - id, 1int, 0int,
{
    if 0 <= id < nodes.len() {
        match pin_pos_children(nodes, id, pin, nodes[id].children.len() as int) {
            Some(x) => Some(nodes[id].buffer.len() + x),
            None => if id == pin {
                Some(if nodes[id].is_placeholder { 0 } else { nodes[id].buffer.len() as int })
            } else {
                None
            },
        }
    } else {
        None
    }
}

/// Where the cursor stands in the text of the first `k` children of node `id`.
pub open spec fn pin_pos_children(nodes: Seq<NodeView>, id: int, pin: int, k: int) -> Option<int>
    decreases nodes.len() - id, 0int, k,
{
    if k <= 0 || !(0 <= id < nodes.len()) || k > nodes[id].children.len() {
        None
    } else {
        let c = nodes[id].children[k - 1] as int;
        let inner = if id < c < nodes.len() {
            pin_pos(nodes, c, pin)
        } else {
            None
        };
        match inner {
            Some(x) => Some(flat_children(nodes, id, k - 1).len() + x),
            None => pin_pos_children(nodes, id, pin, k - 1),
        }
    }
}

/// The start of the line that the text ends on.
pub open spec fn line_start(v: Seq<BufElem>) -> int
    decreases v.len(),
{
    if v.len() == 0 {
        0
    } else if v.last() == BufElem::Eol {
        v.len() as int
    } else {
        line_start(v.drop_last())
    }
}

/// The text typed in insert mode, as a tree: a root, and the parts of the
/// snippets expanded into it. The stack holds the tab stops still to visit,
/// the current one on top.
pub struct DiffTree {
    pub pre_buffer: Vec<BufElem>,
    pub indent_type: IndentType,
    pub stack: Vec<usize>,
    pub nodes: Vec<Node>,
}

impl DiffTree {
    pub open spec fn node_views(&self) -> Seq<NodeView> {
        Seq::new(self.nodes@.len(), |i: int| self.nodes@[i]@)
    }

    /// The children of each node come after it, and the stack holds nodes.
    pub open spec fn inv(&self) -> bool {
        &&& self.nodes@.len() >= 1
        &&& self.stack@.len() >= 1
        &&& forall|i: int| 0 <= i < self.stack@.len() ==> #[trigger] self.stack@[i] < self.nodes@.len()
        &&& forall|i: int, j: int|
            0 <= i < self.nodes@.len() && 0 <= j < self.nodes@[i].children@.len() ==> i
                < #[trigger] self.nodes@[i].children@[j] < self.nodes@.len()
    }

    /// The text of the tree.
    pub open spec fn text(&self) -> Seq<BufElem> {
        flat(self.node_views(), 0)
    }

    /// The node being typed into.
    pub open spec fn cur(&self) -> int {
        self.stack@.last() as int
    }

    /// Where the cursor stands in the text of the tree.
    pub open spec fn cursor(&self) -> int {
        match pin_pos(self.node_views(), 0, self.cur()) {
            Some(x) => x,
            None => 0,
        }
    }

    /// A tree of a single empty placeholder after `pre_buffer`.
    pub fn new(pre_buffer: Vec<BufElem>, indent_type: IndentType) -> (r: Self)
        ensures
            r.inv(),
            r.pre_buffer == pre_buffer,
            r.indent_type == indent_type,
            r.stack@ == seq![0usize],
            r.nodes@.len() == 1,
            r.nodes@[0].is_placeholder,
            r.nodes@[0].buffer@.len() == 0,
            r.nodes@[0].children@.len() == 0,
    {
        let root = Node::new(Vec::new());
        let mut nodes: Vec<Node> = Vec::new();
        nodes.push(root);
        let mut stack: Vec<usize> = Vec::new();
        stack.push(0);
        DiffTree { pre_buffer, indent_type, stack, nodes }
    }

    fn cur_node_id(&self) -> (r: usize)
        requires
            self.inv(),
        ensures
            r == self.cur(),
            r < self.nodes@.len(),
    {
        self.stack[self.stack.len() - 1]
    }

    /// The word that the current node ends with.
    /// The word that the current node ends with.
    pub open spec fn spec_current_word(&self) -> Seq<char> {
        if self.nodes@[self.cur()].is_placeholder {
            Seq::empty()
        } else {
            word_at_end(self.nodes@[self.cur()].buffer@)
        }
    }

    pub fn current_word(&self) -> (r: Vec<char>)
        requires
            self.inv(),
        ensures
            r@ == self.spec_current_word(),
    {
        let id = self.cur_node_id();
        self.nodes[id].current_word()
    }

    /// Takes the word that the current node ends with out of it.
    pub fn rollback_current_word(&mut self)
        requires
            old(self).inv(),
        ensures
            final(self).inv(),
            final(self).stack == old(self).stack,
            final(self).pre_buffer == old(self).pre_buffer,
            final(self).indent_type == old(self).indent_type,
            final(self).nodes@.len() == old(self).nodes@.len(),
            forall|i: int| 0 <= i < old(self).nodes@.len() && i != old(self).cur() ==> final(self).nodes@[i]
                == old(self).nodes@[i],
            ({
                let n = old(self).nodes@[old(self).cur()];
                final(self).nodes@[old(self).cur()].buffer@ == n.buffer@.take(
                    n.buffer@.len() - (if n.is_placeholder { 0 } else { word_at_end(n.buffer@).len() }),
                ) && final(self).nodes@[old(self).cur()].is_placeholder == n.is_placeholder
                    && final(self).nodes@[old(self).cur()].children == n.children
            }),
    {
        let id = self.cur_node_id();
        self.nodes[id].rollback_current_word();
    }

    /// The text of the tree from node `id` on is appended to `buf`; the cursor
    /// is set where node `pin` puts it, if it is there.
    fn flatten_node(&self, id: usize, pin: usize, buf: &mut Vec<BufElem>, cursor: &mut usize)
        requires
            self.inv(),
            id < self.nodes@.len(),
            old(buf)@.len() + flat(self.node_views(), id as int).len() <= usize::MAX,
        ensures
            final(buf)@ == old(buf)@ + flat(self.node_views(), id as int),
            *final(cursor) == (match pin_pos(self.node_views(), id as int, pin as int) {
                Some(x) => old(buf)@.len() + x,
                None => *old(cursor) as int,
            }),
        decreases self.nodes@.len() - id,
    {
        let ghost nv = self.node_views();
        let ghost b0 = buf@;
        let node = &self.nodes[id];
        assert(nv[id as int] == node@);
        if id == pin && node.is_placeholder {
            *cursor = buf.len();
        }
        let mut own = copy_elems(&node.buffer);
        buf.append(&mut own);
        if id == pin && !node.is_placeholder {
            *cursor = buf.len();
        }
        let ghost c0 = *cursor;
        let mut j: usize = 0;
        while j < node.children.len()
            invariant
                self.inv(),
                nv == self.node_views(),
                id < self.nodes@.len(),
                node == &self.nodes@[id as int],
                nv[id as int] == node@,
                j <= node.children@.len(),
                buf@ == b0 + node.buffer@ + flat_children(nv, id as int, j as int),
                b0.len() + flat(nv, id as int).len() <= usize::MAX,
                flat(nv, id as int) == node.buffer@ + flat_children(nv, id as int, node.children@.len() as int),
                *cursor == (match pin_pos_children(nv, id as int, pin as int, j as int) {
                    Some(x) => b0.len() + node.buffer@.len() + x,
                    None => c0 as int,
                }),
                c0 == (if id == pin {
                    if node.is_placeholder { b0.len() as int } else { (b0.len() + node.buffer@.len()) as int }
                } else {
                    *old(cursor) as int
                }),
            decreases node.children@.len() - j,
        {
            let c = node.children[j];
            assert(id < c < self.nodes@.len());
            proof {
                lemma_flat_children_prefix(nv, id as int, j as int + 1, node.children@.len() as int);
            }
            self.flatten_node(c, pin, buf, cursor);
            j = j + 1;
        }
    }

    /// The text of the tree and where the cursor of node `cursor_pin` stands in
    /// it.
    pub fn _flatten(&self, cursor_pin: usize) -> (r: (Vec<BufElem>, usize))
        requires
            self.inv(),
            flat(self.node_views(), 0).len() <= usize::MAX,
        ensures
            r.0@ == self.text(),
            r.1 == (match pin_pos(self.node_views(), 0, cursor_pin as int) {
                Some(x) => x,
                None => 0,
            }),
    {
        let mut buf: Vec<BufElem> = Vec::new();
        let mut cursor: usize = 0;
        self.flatten_node(0, cursor_pin, &mut buf, &mut cursor);
        assert(buf@ == Seq::<BufElem>::empty() + self.text());
        (buf, cursor)
    }

    /// The text of the tree and where the cursor stands in it.
    pub fn flatten(&self) -> (r: (Vec<BufElem>, usize))
        requires
            self.inv(),
            self.text().len() <= usize::MAX,
        ensures
            r.0@ == self.text(),
            r.1 == self.cursor(),
            r.1 <= r.0@.len(),
    {
        let pin = self.cur_node_id();
        proof {
            lemma_pin_pos(self.node_views(), 0, pin as int);
        }
        self._flatten(pin)
    }
}

/// The text of the first children grows with their number.
pub proof fn lemma_flat_children_prefix(nv: Seq<NodeView>, id: int, j: int, k: int)
    requires
        0 <= j <= k,
    ensures
        flat_children(nv, id, j).len() <= flat_children(nv, id, k).len() || k > nv[id].children.len()
            || !(0 <= id < nv.len()),
    decreases k - j,
{
    if j < k {
        lemma_flat_children_prefix(nv, id, j, k - 1);
    }
}


/// The cursor falls within the text.
pub proof fn lemma_pin_pos(nv: Seq<NodeView>, id: int, pin: int)
    ensures
        pin_pos(nv, id, pin) matches Some(x) ==> 0 <= x <= flat(nv, id).len(),
    decreases nv.len() - id, 1int, 0int,
{
    if 0 <= id < nv.len() {
        lemma_pin_pos_children(nv, id, pin, nv[id].children.len() as int);
    }
}

pub proof fn lemma_pin_pos_children(nv: Seq<NodeView>, id: int, pin: int, k: int)
    ensures
        pin_pos_children(nv, id, pin, k) matches Some(x) ==> 0 <= x <= flat_children(nv, id, k).len(),
    decreases nv.len() - id, 0int, k,
{
    if k <= 0 || !(0 <= id < nv.len()) || k > nv[id].children.len() {
    } else {
        let c = nv[id].children[k - 1] as int;
        if id < c < nv.len() {
            lemma_pin_pos(nv, c, pin);
        }
        lemma_pin_pos_children(nv, id, pin, k - 1);
    }
}

/// A node once typed into: no longer a placeholder, its placeholder text gone.
pub open spec fn typed(n: NodeView) -> NodeView {
    NodeView {
        is_placeholder: false,
        buffer: if n.is_placeholder { Seq::empty() } else { n.buffer },
        children: n.children,
    }
}

/// The line that the text before the cursor ends on, with the text before the
/// tree.
pub open spec fn line_before_cursor(pre: Seq<BufElem>, text: Seq<BufElem>, cursor: int) -> Seq<BufElem> {
    let v = pre + text.take(cursor);
    v.skip(line_start(v))
}

/// `line_start` is after the last line end.
pub proof fn lemma_line_start(v: Seq<BufElem>, i: int)
    requires
        0 <= i <= v.len(),
        i == 0 || v[i - 1] == BufElem::Eol,
        forall|j: int| i <= j < v.len() ==> v[j] != BufElem::Eol,
    ensures
        line_start(v) == i,
    decreases v.len(),
{
    if v.len() > i {
        assert(v.drop_last()[v.len() - 2] == v[v.len() - 2] || v.len() < 2);
        lemma_line_start(v.drop_last(), i);
    }
}

impl DiffTree {
    /// The tree with the current node typed into.
    pub open spec fn typed_views(&self) -> Seq<NodeView> {
        self.node_views().update(self.cur(), typed(self.node_views()[self.cur()]))
    }

    /// The first change of a node takes its placeholder away.
    fn before_change_buffer(&mut self)
        requires
            old(self).inv(),
        ensures
            final(self).inv(),
            final(self).node_views() == old(self).typed_views(),
            final(self).stack == old(self).stack,
            final(self).pre_buffer == old(self).pre_buffer,
            final(self).indent_type == old(self).indent_type,
    {
        let id = self.cur_node_id();
        if self.nodes[id].is_placeholder {
            self.nodes[id].buffer.clear();
            self.nodes[id].is_placeholder = false;
        }
        proof {
            assert(self.node_views() == old(self).typed_views());
        }
    }

    /// The indentation that the line the cursor is on gives.
    fn current_auto_indent(&self) -> (r: AutoIndent)
        requires
            self.inv(),
            self.pre_buffer@.len() + self.text().len() <= usize::MAX,
        ensures
            r.indent_type == self.indent_type,
            r.line_predecessors@ == line_before_cursor(self.pre_buffer@, self.text(), self.cursor()),
    {
        let mut v1 = copy_elems(&self.pre_buffer);
        let res = self.flatten();
        let mut v = res.0;
        let _ = v.split_off(res.1);
        v1.append(&mut v);
        let ghost w = v1@;
        assert(w == self.pre_buffer@ + self.text().take(self.cursor()));
        let start_of_cur_line = if v1.len() == 0 {
            0
        } else {
            let mut i = v1.len();
            while v1[i - 1] != BufElem::Eol
                invariant_except_break
                    0 < i <= v1@.len(),
                invariant
                    i <= v1@.len(),
                    forall|j: int| i <= j < v1@.len() ==> v1@[j] != BufElem::Eol,
                ensures
                    0 <= i <= v1@.len(),
                    i == 0 || v1@[i - 1] == BufElem::Eol,
                    forall|j: int| i <= j < v1@.len() ==> v1@[j] != BufElem::Eol,
                decreases i,
            {
                i = i - 1;
                if i == 0 {
                    break;
                }
            }
            i
        };
        proof {
            lemma_line_start(w, start_of_cur_line as int);
        }
        AutoIndent::new(&v1.as_slice()[start_of_cur_line..v1.len()], self.indent_type)
    }
}


/// The indentation of the line after `lp`: the same, and one level more after
/// an opening bracket or a colon.
pub open spec fn next_indent_of(lp: Seq<BufElem>, t: IndentType) -> Seq<BufElem> {
    leading_indent(lp) + (if lp.len() > 0 && opens_block(lp.last()) {
        indent_elems(t)
    } else {
        Seq::<BufElem>::empty()
    })
}

/// The tree that typing `k` leaves: tab moves to the next tab stop (or is
/// typed at the last one), backspace takes the last element back, enter
/// breaks the line and indents the next one, a character is typed; other keys
/// do nothing.
pub open spec fn input_effect(t: DiffTree, k: Key) -> (Seq<NodeView>, Seq<usize>) {
    let nv = t.node_views();
    let tv = t.typed_views();
    let cur = t.cur();
    let n = tv[cur];
    let with = |b: Seq<BufElem>| tv.update(cur, NodeView { is_placeholder: false, buffer: b, children: n.children });
    match k {
        Key::Char(c) => if c == '\t' {
            if t.stack@.len() == 1 {
                (with(n.buffer.push(BufElem::Char('\t'))), t.stack@)
            } else {
                (nv, t.stack@.drop_last())
            }
        } else if c == '\n' {
            let lp = line_before_cursor(t.pre_buffer@, flat(tv, 0), match pin_pos(tv, 0, cur) {
                Some(x) => x,
                None => 0,
            });
            (with(n.buffer + seq![BufElem::Eol] + next_indent_of(lp, t.indent_type)), t.stack@)
        } else {
            (with(n.buffer.push(BufElem::Char(c))), t.stack@)
        },
        Key::Backspace => (with(if n.buffer.len() > 0 { n.buffer.drop_last() } else { n.buffer }), t.stack@),
        _ => (nv, t.stack@),
    }
}

impl DiffTree {
    /// Types a key into the current node.
    pub fn input(&mut self, k: Key)
        requires
            old(self).inv(),
            old(self).pre_buffer@.len() + old(self).text().len() <= usize::MAX,
        ensures
            final(self).inv(),
            final(self).node_views() == input_effect(*old(self), k).0,
            final(self).stack@ == input_effect(*old(self), k).1,
            final(self).pre_buffer == old(self).pre_buffer,
            final(self).indent_type == old(self).indent_type,
    {
        let ghost t0 = *self;
        match k {
            Key::Char('\t') => {
                if self.stack.len() == 1 {
                    self.before_change_buffer();
                    let id = self.cur_node_id();
                    self.nodes[id].buffer.push(BufElem::Char('\t'));
                    proof {
                        assert(self.node_views() == input_effect(t0, k).0);
                    }
                } else {
                    self.stack.pop();
                    proof {
                        assert forall|i: int| 0 <= i < self.stack@.len() implies #[trigger] self.stack@[i]
                            < self.nodes@.len() by {
                            assert(self.stack@[i] == t0.stack@[i]);
                        }
                    }
                }
            },
            Key::Backspace => {
                self.before_change_buffer();
                let id = self.cur_node_id();
                self.nodes[id].buffer.pop();
                proof {
                    assert(self.node_views() == input_effect(t0, k).0);
                }
            },
            Key::Char('\n') => {
                self.before_change_buffer();
                proof {
                    lemma_typed_text_shorter(t0);
                }
                let auto_indent = self.current_auto_indent();
                let mut v: Vec<BufElem> = Vec::new();
                v.push(BufElem::Eol);
                let mut ind = auto_indent.next_indent();
                v.append(&mut ind);
                let id = self.cur_node_id();
                let ghost before = self.nodes@[id as int].buffer@;
                let ghost lp = auto_indent.line_predecessors@;
                assert(v@ == seq![BufElem::Eol] + next_indent_of(lp, t0.indent_type));
                self.nodes[id].buffer.append(&mut v);
                proof {
                    assert(self.nodes@[id as int].buffer@ == before + seq![BufElem::Eol] + next_indent_of(
                        lp,
                        t0.indent_type,
                    ));
                    assert(self.node_views() == input_effect(t0, k).0);
                }
            },
            Key::Char(c) => {
                self.before_change_buffer();
                let id = self.cur_node_id();
                self.nodes[id].buffer.push(BufElem::Char(c));
                proof {
                    assert(self.node_views() == input_effect(t0, k).0);
                }
            },
            _ => {},
        }
    }
}

/// Typing into the current node takes nothing from the text but its
/// placeholder.
pub proof fn lemma_typed_text_shorter(t: DiffTree)
    requires
        t.inv(),
    ensures
        flat(t.typed_views(), 0).len() <= flat(t.node_views(), 0).len(),
{
    lemma_flat_shrink(t.node_views(), t.typed_views(), t.cur(), 0);
}

/// Shortening one node's text shortens the tree's text.
pub proof fn lemma_flat_shrink(a: Seq<NodeView>, b: Seq<NodeView>, c: int, id: int)
    requires
        a.len() == b.len(),
        forall|i: int| 0 <= i < a.len() && i != c ==> a[i] == b[i],
        0 <= c < a.len() ==> b[c].children == a[c].children && b[c].buffer.len() <= a[c].buffer.len(),
    ensures
        flat(b, id).len() <= flat(a, id).len(),
    decreases a.len() - id, 1int, 0int,
{
    if 0 <= id < a.len() {
        lemma_flat_children_shrink(a, b, c, id, a[id].children.len() as int);
    }
}

pub proof fn lemma_flat_children_shrink(a: Seq<NodeView>, b: Seq<NodeView>, c: int, id: int, k: int)
    requires
        a.len() == b.len(),
        forall|i: int| 0 <= i < a.len() && i != c ==> a[i] == b[i],
        0 <= c < a.len() ==> b[c].children == a[c].children && b[c].buffer.len() <= a[c].buffer.len(),
        0 <= id < a.len() ==> b[id].children == a[id].children,
    ensures
        flat_children(b, id, k).len() <= flat_children(a, id, k).len(),
    decreases a.len() - id, 0int, k,
{
    if k <= 0 || !(0 <= id < a.len()) || k > a[id].children.len() {
    } else {
        let ch = a[id].children[k - 1] as int;
        if id < ch < a.len() {
            lemma_flat_shrink(a, b, c, ch);
        }
        lemma_flat_children_shrink(a, b, c, id, k - 1);
    }
}


/// `(order, id)` pairs in increasing order, first by order, then by id.
pub open spec fn lex_sorted(s: Seq<(usize, usize)>) -> bool {
    forall|i: int, j: int|
        0 <= i < j < s.len() ==> (#[trigger] s[i]).0 < (#[trigger] s[j]).0 || (s[i].0 == s[j].0 && s[i].1 < s[j].1)
}

/// Sorts tab stops by their order; among equal orders the earlier one (with
/// the smaller id, as ids grow along the input) comes first.
pub fn sort_by_order(v: Vec<(usize, usize)>) -> (r: Vec<(usize, usize)>)
    requires
        forall|i: int, j: int| 0 <= i < j < v@.len() ==> (#[trigger] v@[i]).1 < (#[trigger] v@[j]).1,
    ensures
        lex_sorted(r@),
        r@.len() == v@.len(),
        forall|x: (usize, usize)| r@.contains(x) <==> v@.contains(x),
{
    let mut r: Vec<(usize, usize)> = Vec::new();
    let mut i: usize = 0;
    while i < v.len()
        invariant
            i <= v@.len(),
            forall|a: int, b: int| 0 <= a < b < v@.len() ==> (#[trigger] v@[a]).1 < (#[trigger] v@[b]).1,
            lex_sorted(r@),
            r@.len() == i,
            forall|x: (usize, usize)| r@.contains(x) <==> v@.take(i as int).contains(x),
        decreases v@.len() - i,
    {
        let x = v[i];
        let mut p: usize = 0;
        while p < r.len() && r[p].0 <= x.0
            invariant
                p <= r@.len(),
                forall|q: int| 0 <= q < p ==> (#[trigger] r@[q]).0 <= x.0,
            decreases r@.len() - p,
        {
            p = p + 1;
        }
        proof {
            assert forall|q: int| 0 <= q < r@.len() implies (#[trigger] r@[q]).1 < x.1 by {
                assert(r@.contains(r@[q]));
                assert(v@.take(i as int).contains(r@[q]));
                let a = choose|a: int| 0 <= a < i && #[trigger] v@.take(i as int)[a] == r@[q];
                assert(v@[a] == r@[q]);
            }
            if p < r@.len() {
                assert(r@[p as int].0 > x.0);
                assert forall|q: int| p <= q < r@.len() implies (#[trigger] r@[q]).0 > x.0 by {
                    if q > p {
                        assert(r@[p as int].0 <= r@[q].0);
                    }
                }
            }
        }
        let ghost old_r = r@;
        r.insert(p, x);
        proof {
            assert(r@ == old_r.insert(p as int, x));
            assert forall|a: int, b: int| 0 <= a < b < r@.len() implies (#[trigger] r@[a]).0 < (#[trigger] r@[b]).0
                || (r@[a].0 == r@[b].0 && r@[a].1 < r@[b].1) by {
                if a < p && b < p {
                    assert(r@[a] == old_r[a] && r@[b] == old_r[b]);
                } else if a < p && b == p {
                    assert(r@[a] == old_r[a]);
                } else if a < p {
                    assert(r@[a] == old_r[a] && r@[b] == old_r[b - 1]);
                } else if a == p {
                    assert(r@[b] == old_r[b - 1]);
                } else {
                    assert(r@[a] == old_r[a - 1] && r@[b] == old_r[b - 1]);
                }
            }
            assert(v@.take(i + 1) == v@.take(i as int).push(x));
            assert forall|y: (usize, usize)| r@.contains(y) <==> v@.take(i + 1).contains(y) by {
                if r@.contains(y) {
                    let a = choose|a: int| 0 <= a < r@.len() && r@[a] == y;
                    if a < p {
                        assert(old_r[a] == y);
                        assert(old_r.contains(y));
                    } else if a > p {
                        assert(old_r[a - 1] == y);
                        assert(old_r.contains(y));
                    }
                    assert(v@.take(i + 1).contains(y)) by {
                        if y != x {
                            assert(old_r.contains(y));
                            let c = choose|c: int| 0 <= c < i && v@.take(i as int)[c] == y;
                            assert(v@.take(i + 1)[c] == y);
                        } else {
                            assert(v@.take(i + 1)[i as int] == y);
                        }
                    }
                }
                if v@.take(i + 1).contains(y) {
                    let c = choose|c: int| 0 <= c < i + 1 && #[trigger] v@.take(i + 1)[c] == y;
                    if c < i {
                        assert(v@.take(i as int)[c] == y);
                        assert(old_r.contains(y));
                        let a = choose|a: int| 0 <= a < old_r.len() && old_r[a] == y;
                        if a < p {
                            assert(r@[a] == y);
                        } else {
                            assert(r@[a + 1] == y);
                        }
                    } else {
                        assert(r@[p as int] == y);
                    }
                }
            }
        }
        i = i + 1;
    }
    assert(v@.take(v@.len() as int) == v@);
    r
}


/// The text that a piece of a snippet starts with; a line break takes the
/// indentation `ind` of the line it breaks.
pub open spec fn component_text(c: ChildComponent, ind: Seq<BufElem>) -> Seq<BufElem> {
    match c {
        ChildComponent::Eol => seq![BufElem::Eol] + ind,
        ChildComponent::Fixed(p) => p@,
        ChildComponent::Dynamic(p, _) => p@,
    }
}

/// The tab stops among the pieces, as `(order, id)` with ids from `base` on.
pub open spec fn dynamics_of(cs: Seq<ChildComponent>, base: int) -> Seq<(usize, usize)>
    decreases cs.len(),
{
    if cs.len() == 0 {
        Seq::empty()
    } else {
        let d = dynamics_of(cs.drop_last(), base);
        match cs.last() {
            ChildComponent::Dynamic(_, o) => d.push((o, (base + cs.len() - 1) as usize)),
            _ => d,
        }
    }
}

pub proof fn lemma_dynamics_ids(cs: Seq<ChildComponent>, base: int)
    requires
        0 <= base,
        base + cs.len() <= usize::MAX,
    ensures
        forall|i: int| 0 <= i < dynamics_of(cs, base).len() ==> base <= (#[trigger] dynamics_of(cs, base)[i]).1 < base + cs.len(),
        forall|i: int, j: int|
            0 <= i < j < dynamics_of(cs, base).len() ==> (#[trigger] dynamics_of(cs, base)[i]).1 < (#[trigger] dynamics_of(
                cs,
                base,
            )[j]).1,
    decreases cs.len(),
{
    if cs.len() > 0 {
        lemma_dynamics_ids(cs.drop_last(), base);
        let d0 = dynamics_of(cs.drop_last(), base);
        let d = dynamics_of(cs, base);
        match cs.last() {
            ChildComponent::Dynamic(_, o) => {
                assert(d == d0.push((o, (base + cs.len() - 1) as usize)));
                assert forall|i: int| 0 <= i < d.len() implies base <= (#[trigger] d[i]).1 < base + cs.len() by {
                    if i < d0.len() {
                        assert(d[i] == d0[i]);
                    }
                }
                assert forall|i: int, j: int| 0 <= i < j < d.len() implies (#[trigger] d[i]).1 < (#[trigger] d[j]).1 by {
                    assert(d[i] == d0[i]);
                    if j < d0.len() {
                        assert(d[j] == d0[j]);
                    }
                }
            },
            _ => {
                assert(d == d0);
            },
        }
    }
}

impl DiffTree {
    /// Expands a snippet at the current node: its pieces become the node's
    /// children, and its tab stops replace the node on the stack, the one of
    /// the smallest order on top.
    pub fn add_children(&mut self, children: Vec<ChildComponent>)
        requires
            old(self).inv(),
            old(self).pre_buffer@.len() + old(self).text().len() <= usize::MAX,
            old(self).nodes@.len() + children@.len() < usize::MAX,
            exists|j: int| 0 <= j < children@.len() && (#[trigger] children@[j]) is Dynamic,
        ensures
            final(self).inv(),
            final(self).pre_buffer == old(self).pre_buffer,
            final(self).indent_type == old(self).indent_type,
            final(self).nodes@.len() == old(self).nodes@.len() + children@.len(),
            forall|i: int|
                0 <= i < old(self).nodes@.len() && i != old(self).cur() ==> #[trigger] final(self).node_views()[i]
                    == old(self).node_views()[i],
            final(self).node_views()[old(self).cur()] == (NodeView {
                is_placeholder: old(self).node_views()[old(self).cur()].is_placeholder,
                buffer: old(self).node_views()[old(self).cur()].buffer,
                children: Seq::new(children@.len(), |j: int| (old(self).nodes@.len() + j) as usize),
            }),
            forall|j: int|
                0 <= j < children@.len() ==> #[trigger] final(self).node_views()[old(self).nodes@.len() + j] == (NodeView {
                    is_placeholder: true,
                    buffer: component_text(
                        children@[j],
                        leading_indent(line_before_cursor(old(self).pre_buffer@, old(self).text(), old(self).cursor())),
                    ),
                    children: Seq::empty(),
                }),
            final(self).stack@.take(old(self).stack@.len() - 1) == old(self).stack@.drop_last(),
            ({
                let d = dynamics_of(children@, old(self).nodes@.len() as int);
                let tail = final(self).stack@.skip(old(self).stack@.len() - 1);
                exists|srt: Seq<(usize, usize)>|
                    lex_sorted(srt) && srt.len() == d.len() && (forall|x: (usize, usize)| srt.contains(x) <==> d.contains(x))
                        && tail == Seq::new(srt.len(), |i: int| srt[srt.len() - 1 - i].1)
            }),
    {
        let ghost t0 = *self;
        let ghost n0 = self.nodes@.len();
        let auto_indent = self.current_auto_indent();
        let ghost ind = leading_indent(auto_indent.line_predecessors@);
        let mut dynamics: Vec<(usize, usize)> = Vec::new();
        let mut children_ids: Vec<usize> = Vec::new();
        let mut j: usize = 0;
        while j < children.len()
            invariant
                j <= children@.len(),
                self.inv(),
                t0.inv(),
                n0 == t0.nodes@.len(),
                n0 + children@.len() < usize::MAX,
                self.nodes@.len() == n0 + j,
                self.stack == t0.stack,
                self.pre_buffer == t0.pre_buffer,
                self.indent_type == t0.indent_type,
                auto_indent.line_predecessors@ == line_before_cursor(t0.pre_buffer@, t0.text(), t0.cursor()),
                ind == leading_indent(auto_indent.line_predecessors@),
                forall|i: int| 0 <= i < n0 ==> #[trigger] self.nodes@[i] == t0.nodes@[i],
                forall|i: int|
                    0 <= i < j ==> #[trigger] self.node_views()[n0 + i] == (NodeView {
                        is_placeholder: true,
                        buffer: component_text(children@[i], ind),
                        children: Seq::empty(),
                    }),
                children_ids@ == Seq::new(j as nat, |i: int| (n0 + i) as usize),
                forall|i: int| n0 <= i < self.nodes@.len() ==> (#[trigger] self.nodes@[i]).children@.len() == 0,
                dynamics@ == dynamics_of(children@.take(j as int), n0 as int),
            decreases children@.len() - j,
        {
            let node_id = self.nodes.len();
            let ghost c = children@[j as int];
            let placeholder = match &children[j] {
                ChildComponent::Eol => Vec::new(),
                ChildComponent::Fixed(p) => copy_elems(p),
                ChildComponent::Dynamic(p, order) => {
                    dynamics.push((*order, node_id));
                    copy_elems(p)
                },
            };
            let mut n = Node::new(placeholder);
            match &children[j] {
                ChildComponent::Eol => {
                    let mut v: Vec<BufElem> = Vec::new();
                    v.push(BufElem::Eol);
                    let mut ci = auto_indent.current_indent();
                    v.append(&mut ci);
                    n.buffer = v;
                    assert(n.buffer@ == component_text(c, ind));
                },
                ChildComponent::Fixed(p) => {
                    assert(n.buffer@ == component_text(c, ind));
                },
                ChildComponent::Dynamic(p, _) => {
                    assert(n.buffer@ == component_text(c, ind));
                },
            }
            assert(n.children@ == Seq::<usize>::empty());
            let ghost nv = n@;
            assert(nv == (NodeView {
                is_placeholder: true,
                buffer: component_text(children@[j as int], ind),
                children: Seq::empty(),
            }));
            let ghost before = self.nodes@;
            let ghost before_v = self.node_views();
            self.nodes.push(n);
            assert(self.nodes@[n0 + j as int]@ == nv);
            assert forall|i: int| 0 <= i < n0 + j implies self.nodes@[i] == before[i] by {}
            children_ids.push(node_id);
            proof {
                assert(children@.take(j + 1).drop_last() == children@.take(j as int));
                assert(children@.take(j + 1).last() == children@[j as int]);
                assert(self.node_views()[n0 + j] == nv);
                assert forall|i: int| 0 <= i < j + 1 implies #[trigger] self.node_views()[n0 + i] == (NodeView {
                    is_placeholder: true,
                    buffer: component_text(children@[i], ind),
                    children: Seq::empty(),
                }) by {
                    if i < j {
                        assert(self.nodes@[n0 + i] == before[n0 + i]);
                        assert(before_v[n0 + i] == before[n0 + i]@);
                        assert(self.node_views()[n0 + i] == before_v[n0 + i]);
                    }

                }
            }
            j = j + 1;
        }
        assert(children@.take(children@.len() as int) == children@);
        let cur = self.cur_node_id();
        let ghost nodes1 = self.nodes@;
        let ghost views1 = self.node_views();
        self.nodes[cur].add_children(children_ids);
        proof {
            assert forall|jj: int| 0 <= jj < children@.len() implies #[trigger] self.node_views()[n0 + jj]
                == views1[n0 + jj] by {
                assert(self.nodes@[n0 + jj] == nodes1[n0 + jj]);
            }
            assert forall|i: int| 0 <= i < n0 && i != cur implies #[trigger] self.node_views()[i]
                == t0.node_views()[i] by {
                assert(self.nodes@[i] == nodes1[i]);
                assert(nodes1[i] == t0.nodes@[i]);
            }
            assert forall|i: int, jj: int|
                0 <= i < self.nodes@.len() && 0 <= jj < self.nodes@[i].children@.len() implies i
                    < #[trigger] self.nodes@[i].children@[jj] < self.nodes@.len() by {
                if i != cur {
                    assert(self.nodes@[i] == nodes1[i]);
                }
            }
        }
        self.stack.pop();
        proof {
            lemma_dynamics_ids(children@, n0 as int);
            lemma_dynamics_nonempty(children@, n0 as int);
        }
        let sorted = sort_by_order(dynamics);
        let ghost base_stack = self.stack@;
        let ghost nodes2 = self.nodes;
        let ghost pre2 = self.pre_buffer;
        let mut k = sorted.len();
        while k > 0
            invariant
                k <= sorted@.len(),
                self.nodes == nodes2,
                self.pre_buffer == pre2,
                self.indent_type == t0.indent_type,
                self.stack@ == base_stack + Seq::new((sorted@.len() - k) as nat, |i: int| sorted@[sorted@.len() - 1 - i].1),
            decreases k,
        {
            k = k - 1;
            self.stack.push(sorted[k].1);
        }
        proof {
            let d = dynamics_of(children@, n0 as int);
            assert(self.stack@.take(t0.stack@.len() - 1) == t0.stack@.drop_last());
            assert(self.stack@.skip(t0.stack@.len() - 1) == Seq::new(sorted@.len(), |i: int| sorted@[sorted@.len() - 1 - i].1));
            assert(dynamics_of(children@.take(children@.len() as int), n0 as int) == d);
            assert forall|jj: int| 0 <= jj < children@.len() implies #[trigger] self.node_views()[n0 + jj]
                == (NodeView { is_placeholder: true, buffer: component_text(children@[jj], ind), children: Seq::empty() }) by {
                assert(self.node_views()[n0 + jj] == views1[n0 + jj]);
                assert(views1[n0 + jj] == (NodeView {
                    is_placeholder: true,
                    buffer: component_text(children@[jj], ind),
                    children: Seq::empty(),
                }));
            }
            assert(base_stack == t0.stack@.drop_last());
            assert(self.stack@ == base_stack + Seq::new(sorted@.len(), |i: int| sorted@[sorted@.len() - 1 - i].1));
            assert forall|x: (usize, usize)| sorted@.contains(x) implies x.1 < n0 + children@.len() by {
                assert(d.contains(x));
                let idx = choose|idx: int| 0 <= idx < d.len() && d[idx] == x;
                assert(n0 <= d[idx].1 < n0 + children@.len());
            }
            assert forall|i: int| 0 <= i < self.stack@.len() implies #[trigger] self.stack@[i] < self.nodes@.len() by {
                if i >= t0.stack@.len() - 1 {
                    let q = sorted@.len() - 1 - (i - (t0.stack@.len() - 1));
                    let x = sorted@[q];
                    assert(sorted@.contains(x));
                    assert(self.stack@[i] == x.1);
                } else {
                    assert(self.stack@[i] == t0.stack@[i]);
                }
            }
        }
    }
}

/// A piece of a snippet as plain values.
pub enum ChildView {
    Eol,
    Fixed(Seq<BufElem>),
    Dynamic(Seq<BufElem>, usize),
}

pub open spec fn child_view(c: ChildComponent) -> ChildView {
    match c {
        ChildComponent::Eol => ChildView::Eol,
        ChildComponent::Fixed(p) => ChildView::Fixed(p@),
        ChildComponent::Dynamic(p, o) => ChildView::Dynamic(p@, o),
    }
}

pub open spec fn child_views(cs: Seq<ChildComponent>) -> Seq<ChildView> {
    Seq::new(cs.len(), |i: int| child_view(cs[i]))
}

/// The text a piece puts in a new node: a line break carries the indent.
pub open spec fn view_text(c: ChildView, ind: Seq<BufElem>) -> Seq<BufElem> {
    match c {
        ChildView::Eol => seq![BufElem::Eol] + ind,
        ChildView::Fixed(p) => p,
        ChildView::Dynamic(p, _) => p,
    }
}

/// The nodes of a tree after `cs` are put, one new node each, after the
/// current node `cur`; each new node takes the indent of the line the cursor
/// is on.
pub open spec fn views_with_children(nv: Seq<NodeView>, cur: int, pre: Seq<BufElem>, cs: Seq<ChildView>) -> Seq<NodeView> {
    let n = nv.len();
    let cursor = match pin_pos(nv, 0, cur) {
        Some(x) => x,
        None => 0,
    };
    let ind = leading_indent(line_before_cursor(pre, flat(nv, 0), cursor));
    Seq::new(
        (n + cs.len()) as nat,
        |i: int|
            if i < n {
                if i == cur {
                    NodeView {
                        is_placeholder: nv[i].is_placeholder,
                        buffer: nv[i].buffer,
                        children: Seq::new(cs.len(), |j: int| (n + j) as usize),
                    }
                } else {
                    nv[i]
                }
            } else {
                NodeView { is_placeholder: true, buffer: view_text(cs[i - n], ind), children: Seq::empty() }
            },
    )
}

/// The nodes after the word that the current node `cur` ends with is taken
/// out of it.
pub open spec fn views_rolled_back(nv: Seq<NodeView>, cur: int) -> Seq<NodeView> {
    let nd = nv[cur];
    nv.update(
        cur,
        NodeView {
            is_placeholder: nd.is_placeholder,
            buffer: nd.buffer.take(nd.buffer.len() - (if nd.is_placeholder { 0 } else { word_at_end(nd.buffer).len() })),
            children: nd.children,
        },
    )
}

/// What `add_children` states of the nodes, as one sequence.
pub proof fn lemma_views_with_children(t0: DiffTree, t1: DiffTree, cs: Seq<ChildComponent>)
    requires
        t0.inv(),
        t1.nodes@.len() == t0.nodes@.len() + cs.len(),
        forall|i: int|
            0 <= i < t0.nodes@.len() && i != t0.cur() ==> #[trigger] t1.node_views()[i] == t0.node_views()[i],
        t1.node_views()[t0.cur()] == (NodeView {
            is_placeholder: t0.node_views()[t0.cur()].is_placeholder,
            buffer: t0.node_views()[t0.cur()].buffer,
            children: Seq::new(cs.len(), |j: int| (t0.nodes@.len() + j) as usize),
        }),
        forall|j: int|
            0 <= j < cs.len() ==> #[trigger] t1.node_views()[t0.nodes@.len() + j] == (NodeView {
                is_placeholder: true,
                buffer: component_text(cs[j], leading_indent(line_before_cursor(t0.pre_buffer@, t0.text(), t0.cursor()))),
                children: Seq::empty(),
            }),
    ensures
        t1.node_views() == views_with_children(t0.node_views(), t0.cur(), t0.pre_buffer@, child_views(cs)),
{
    let w = views_with_children(t0.node_views(), t0.cur(), t0.pre_buffer@, child_views(cs));
    let n = t0.nodes@.len() as int;
    assert forall|i: int| 0 <= i < w.len() implies #[trigger] t1.node_views()[i] == w[i] by {
        if i < n {
            if i != t0.cur() {
                assert(t1.node_views()[i] == t0.node_views()[i]);
            }
        } else {
            assert(t1.node_views()[n + (i - n)] == t1.node_views()[i]);
            assert(child_views(cs)[i - n] == child_view(cs[i - n]));
        }
    }
    assert(t1.node_views() =~= w);
}

/// What `rollback_current_word` states of the nodes, as one sequence.
pub proof fn lemma_views_rolled_back(t0: DiffTree, t1: DiffTree)
    requires
        t0.inv(),
        t1.nodes@.len() == t0.nodes@.len(),
        forall|i: int| 0 <= i < t0.nodes@.len() && i != t0.cur() ==> t1.nodes@[i] == t0.nodes@[i],
        ({
            let n = t0.nodes@[t0.cur()];
            t1.nodes@[t0.cur()].buffer@ == n.buffer@.take(
                n.buffer@.len() - (if n.is_placeholder { 0 } else { word_at_end(n.buffer@).len() }),
            ) && t1.nodes@[t0.cur()].is_placeholder == n.is_placeholder && t1.nodes@[t0.cur()].children == n.children
        }),
    ensures
        t1.node_views() == views_rolled_back(t0.node_views(), t0.cur()),
{
    let w = views_rolled_back(t0.node_views(), t0.cur());
    assert forall|i: int| 0 <= i < w.len() implies #[trigger] t1.node_views()[i] == w[i] by {
        if i != t0.cur() {
            assert(t1.nodes@[i] == t0.nodes@[i]);
        }
    }
    assert(t1.node_views() =~= w);
}

/// Pieces with a tab stop have a tab stop among their dynamics.
pub proof fn lemma_dynamics_nonempty(cs: Seq<ChildComponent>, base: int)
    requires
        exists|j: int| 0 <= j < cs.len() && (#[trigger] cs[j]) is Dynamic,
    ensures
        dynamics_of(cs, base).len() > 0,
    decreases cs.len(),
{
    if cs.last() is Dynamic {
    } else {
        let j = choose|j: int| 0 <= j < cs.len() && (#[trigger] cs[j]) is Dynamic;
        assert(cs.drop_last()[j] == cs[j]);
        lemma_dynamics_nonempty(cs.drop_last(), base);
    }
}


/// A tree of one empty placeholder has no text, and the cursor at its start.
pub proof fn lemma_root_only(t: DiffTree)
    requires
        t.nodes@.len() == 1,
        t.stack@ == seq![0usize],
        t.nodes@[0].is_placeholder,
        t.nodes@[0].buffer@.len() == 0,
        t.nodes@[0].children@.len() == 0,
    ensures
        t.text().len() == 0,
        t.cursor() == 0,
{
    let nv = t.node_views();
    assert(nv[0] == t.nodes@[0]@);
    assert(flat_children(nv, 0, 0) == Seq::<BufElem>::empty());
    assert(flat(nv, 0) == nv[0].buffer + flat_children(nv, 0, 0));
    assert(pin_pos_children(nv, 0, 0, 0) is None);
    assert(t.cur() == 0);
}


impl Node {
    /// A copy of the node.
    pub fn copy(&self) -> (r: Node)
        ensures
            r@ == self@,
    {
        let mut children: Vec<usize> = Vec::new();
        let mut i: usize = 0;
        while i < self.children.len()
            invariant
                i <= self.children@.len(),
                children@ == self.children@.take(i as int),
            decreases self.children@.len() - i,
        {
            children.push(self.children[i]);
            i = i + 1;
            assert(children@ == self.children@.take(i as int));
        }
        assert(self.children@.take(self.children@.len() as int) == self.children@);
        Node { is_placeholder: self.is_placeholder, buffer: copy_elems(&self.buffer), children }
    }
}

impl DiffTree {
    /// A copy of the tree.
    pub fn copy(&self) -> (r: DiffTree)
        ensures
            r.node_views() == self.node_views(),
            r.nodes@.len() == self.nodes@.len(),
            r.stack@ == self.stack@,
            r.pre_buffer@ == self.pre_buffer@,
            r.indent_type == self.indent_type,
            self.inv() ==> r.inv(),
    {
        let mut nodes: Vec<Node> = Vec::new();
        let mut i: usize = 0;
        while i < self.nodes.len()
            invariant
                i <= self.nodes@.len(),
                nodes@.len() == i,
                forall|j: int| 0 <= j < i ==> (#[trigger] nodes@[j])@ == self.nodes@[j]@,
            decreases self.nodes@.len() - i,
        {
            nodes.push(self.nodes[i].copy());
            i = i + 1;
        }
        let mut stack: Vec<usize> = Vec::new();
        let mut k: usize = 0;
        while k < self.stack.len()
            invariant
                k <= self.stack@.len(),
                stack@ == self.stack@.take(k as int),
            decreases self.stack@.len() - k,
        {
            stack.push(self.stack[k]);
            k = k + 1;
            assert(stack@ == self.stack@.take(k as int));
        }
        assert(self.stack@.take(self.stack@.len() as int) == self.stack@);
        let r = DiffTree { pre_buffer: copy_elems(&self.pre_buffer), indent_type: self.indent_type, stack, nodes };
        assert(r.node_views() =~= self.node_views());
        proof {
            if self.inv() {
                assert forall|a: int, b: int|
                    0 <= a < r.nodes@.len() && 0 <= b < r.nodes@[a].children@.len() implies a
                        < #[trigger] r.nodes@[a].children@[b] < r.nodes@.len() by {
                    assert(r.nodes@[a]@ == self.nodes@[a]@);
                    assert(r.nodes@[a].children@ == self.nodes@[a].children@);
                }
            }
        }
        r
    }

    /// The length of the text from node `id` on, or `cap` if that is less.
    fn flat_len_capped(&self, id: usize, cap: usize) -> (r: usize)
        requires
            self.inv(),
            id < self.nodes@.len(),
        ensures
            r == vstd::math::min(flat(self.node_views(), id as int).len() as int, cap as int),
        decreases self.nodes@.len() - id,
    {
        let ghost nv = self.node_views();
        let node = &self.nodes[id];
        assert(nv[id as int] == node@);
        let own = node.buffer.len();
        let mut acc: usize = if own < cap { own } else { cap };
        let mut j: usize = 0;
        while j < node.children.len()
            invariant
                self.inv(),
                nv == self.node_views(),
                id < self.nodes@.len(),
                node == &self.nodes@[id as int],
                nv[id as int] == node@,
                j <= node.children@.len(),
                acc == vstd::math::min((node.buffer@.len() + flat_children(nv, id as int, j as int).len()) as int, cap as int),
                flat(nv, id as int) == node.buffer@ + flat_children(nv, id as int, node.children@.len() as int),
            decreases node.children@.len() - j,
        {
            let c = node.children[j];
            assert(id < c < self.nodes@.len());
            let sub = self.flat_len_capped(c, cap);
            acc = if acc >= cap || sub >= cap - acc { cap } else { acc + sub };
            j = j + 1;
        }
        acc
    }

    /// The length of the text, or `cap` if that is less.
    pub fn text_len_capped(&self, cap: usize) -> (r: usize)
        requires
            self.inv(),
        ensures
            r == vstd::math::min(self.text().len() as int, cap as int),
    {
        self.flat_len_capped(0, cap)
    }
}

/// Enter breaks the line where the cursor stands and starts the new line
/// with the indentation of the line before the cursor: the run of spaces and
/// tabs that begins that line, then one level more (the spaces or the tab
/// of the indentation type) when that line ends with `{`, `[`, `(` or `:`.
pub proof fn law_enter_keeps_indent(t: DiffTree)
    requires
        t.inv(),
    ensures
        ({
            let tv = t.typed_views();
            let b0 = tv[t.cur()].buffer;
            let b1 = input_effect(t, Key::Char('\n')).0[t.cur()].buffer;
            let lp = line_before_cursor(t.pre_buffer@, flat(tv, 0), match pin_pos(tv, 0, t.cur()) {
                Some(x) => x,
                None => 0,
            });
            let opens = lp.len() > 0 && (lp.last() == BufElem::Char('{') || lp.last() == BufElem::Char('[')
                || lp.last() == BufElem::Char('(') || lp.last() == BufElem::Char(':'));
            let e = if opens {
                match t.indent_type {
                    IndentType::Spaces(n) => Seq::new(n as nat, |i: int| BufElem::Char(' ')),
                    IndentType::Tab => seq![BufElem::Char('\t')],
                }
            } else {
                Seq::<BufElem>::empty()
            };
            let k = b1.len() - b0.len() - 1 - e.len();
            &&& 0 <= k <= lp.len()
            &&& b1 == b0 + seq![BufElem::Eol] + lp.take(k) + e
            &&& forall|i: int| 0 <= i < k ==> #[trigger] lp[i] == BufElem::Char(' ') || lp[i] == BufElem::Char('\t')
            &&& k == lp.len() || !(lp[k] == BufElem::Char(' ') || lp[k] == BufElem::Char('\t'))
        }),
{
    let tv = t.typed_views();
    let lp = line_before_cursor(t.pre_buffer@, flat(tv, 0), match pin_pos(tv, 0, t.cur()) {
        Some(x) => x,
        None => 0,
    });
    super::indent::lemma_indent_len_run(lp);
    assert(t.cur() < tv.len());
    assert(next_indent_of(lp, t.indent_type) == lp.take(super::indent::indent_len(lp) as int) + (if lp.len() > 0
        && opens_block(lp.last()) {
        indent_elems(t.indent_type)
    } else {
        Seq::<BufElem>::empty()
    }));
}

/// The line a text ends on starts just after its last line end (or at the
/// start of the text) and holds no line end: so the line before the cursor
/// is all that follows the last line end before the cursor.
pub proof fn law_line_start(v: Seq<BufElem>)
    ensures
        0 <= line_start(v) <= v.len(),
        line_start(v) == 0 || v[line_start(v) - 1] == BufElem::Eol,
        forall|j: int| line_start(v) <= j < v.len() ==> v[j] != BufElem::Eol,
    decreases v.len(),
{
    if v.len() > 0 && v.last() != BufElem::Eol {
        law_line_start(v.drop_last());
        assert forall|j: int| line_start(v) <= j < v.len() implies v[j] != BufElem::Eol by {
            if j < v.len() - 1 {
                assert(v[j] == v.drop_last()[j]);
            }
        }
        if line_start(v) > 0 {
            assert(v[line_start(v) - 1] == v.drop_last()[line_start(v) - 1]);
        }
    }
}

/// Typing a character other than tab and enter adds it at the end of the
/// node being typed, backspace takes that node's last element back (nothing
/// when it is empty); either way the other nodes and the tab stops stay.
pub proof fn law_typing(t: DiffTree, k: Key)
    requires
        t.inv(),
        k is Backspace || (k matches Key::Char(c) && c != '\t' && c != '\n'),
    ensures
        ({
            let tv = t.typed_views();
            let b0 = tv[t.cur()].buffer;
            let r = input_effect(t, k);
            &&& r.1 == t.stack@
            &&& r.0.len() == tv.len()
            &&& forall|i: int| 0 <= i < tv.len() && i != t.cur() ==> #[trigger] r.0[i] == tv[i]
            &&& r.0[t.cur()].children == tv[t.cur()].children
            &&& (k matches Key::Char(c) ==> r.0[t.cur()].buffer == b0.push(BufElem::Char(c)))
            &&& (k is Backspace && b0.len() > 0 ==> r.0[t.cur()].buffer.push(b0.last()) == b0)
            &&& (k is Backspace && b0.len() == 0 ==> r.0[t.cur()].buffer.len() == 0)
        }),
{
    let tv = t.typed_views();
    assert(t.cur() < tv.len());
    let b0 = tv[t.cur()].buffer;
    if k is Backspace && b0.len() > 0 {
        assert(b0.drop_last().push(b0.last()) == b0);
    }
}

/// Tab moves to the next tab stop, leaving the text as it is, and at the
/// last tab stop is typed as a tab character.
pub proof fn law_tab(t: DiffTree)
    requires
        t.inv(),
    ensures
        ({
            let tv = t.typed_views();
            let r = input_effect(t, Key::Char('\t'));
            &&& t.stack@.len() > 1 ==> r.0 == t.node_views() && r.1 == t.stack@.drop_last()
            &&& t.stack@.len() == 1 ==> r.1 == t.stack@ && r.0[t.cur()].buffer == tv[t.cur()].buffer.push(
                BufElem::Char('\t'),
            ) && forall|i: int| 0 <= i < tv.len() && i != t.cur() ==> #[trigger] r.0[i] == tv[i]
        }),
{
    let tv = t.typed_views();
    assert(t.cur() < tv.len());
}

} // verus!
