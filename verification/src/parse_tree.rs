//! The parse tree: a flat arena of grammar symbols with, for every node, the
//! ordered list of its children and its parent.

use vstd::prelude::*;
use crate::grammar::{GrammarSymbol, SymbolView};

verus! {

/// The view of a [`ParseTree`]: the symbol of every node, the children of
/// every node in grammar order, and the parent of every node.
pub struct TreeView {
    pub nodes: Seq<SymbolView>,
    pub children: Seq<Seq<usize>>,
    pub parents: Seq<usize>,
}

impl TreeView {
    /// The tree without any node.
    pub open spec fn empty() -> TreeView {
        TreeView { nodes: Seq::empty(), children: Seq::empty(), parents: Seq::empty() }
    }

    /// The arena is well formed: every node has a child list and a parent;
    /// a child lies after its parent in the arena and names it as its
    /// parent; every node but the root lies after its parent and is among
    /// that parent's children; the root is its own parent.
    pub open spec fn wf(self) -> bool {
        &&& self.children.len() == self.nodes.len()
        &&& self.parents.len() == self.nodes.len()
        &&& forall|p: int, k: int|
            0 <= p < self.nodes.len() && 0 <= k < self.children[p].len() ==> p < (
            #[trigger] self.children[p][k]) < self.nodes.len() && self.parents[self.children[p][k] as int]
                == p
        &&& forall|c: int|
            0 < c < self.nodes.len() ==> (#[trigger] self.parents[c]) < c
                && self.children[self.parents[c] as int].contains(c as usize)
        &&& self.nodes.len() > 0 ==> self.parents[0] == 0
    }

    /// The tree after the root is set to `sym`: a tree without nodes gets
    /// its first node, any other tree has the symbol of node 0 replaced.
    pub open spec fn set_root(self, sym: SymbolView) -> TreeView {
        if self.nodes.len() == 0 {
            TreeView { nodes: seq![sym], children: seq![Seq::empty()], parents: seq![0usize] }
        } else {
            TreeView { nodes: self.nodes.update(0, sym), ..self }
        }
    }

    /// The tree after a new node with the symbol `sym` is appended to the
    /// arena as the last child of node `p`.
    pub open spec fn add_child(self, p: int, sym: SymbolView) -> TreeView {
        TreeView {
            nodes: self.nodes.push(sym),
            children: self.children.update(p, self.children[p].push(self.nodes.len() as usize)).push(
                Seq::empty(),
            ),
            parents: self.parents.push(p as usize),
        }
    }

    /// The tree after one node for each of `syms` is appended, in order, as
    /// the last children of node `p`.
    pub open spec fn add_children(self, p: int, syms: Seq<SymbolView>) -> TreeView
        decreases syms.len(),
    {
        if syms.len() == 0 {
            self
        } else {
            self.add_child(p, syms[0]).add_children(p, syms.drop_first())
        }
    }

    /// Among `sibs` from position `from` on: the first nonterminal that
    /// comes after an occurrence of `idx`. `seen` says whether `idx` has
    /// occurred before `from`.
    pub open spec fn first_nonterminal_after(
        self,
        sibs: Seq<usize>,
        idx: int,
        from: int,
        seen: bool,
    ) -> Option<usize>
        decreases sibs.len() - from,
    {
        if from < 0 || from >= sibs.len() {
            None
        } else if seen && sibs[from] < self.nodes.len() && self.nodes[sibs[from] as int].is_nonterminal() {
            Some(sibs[from])
        } else {
            self.first_nonterminal_after(sibs, idx, from + 1, seen || sibs[from] == idx)
        }
    }

    /// The next nonterminal to expand after node `idx` is done: the first
    /// nonterminal among the later siblings of `idx`, or else of its parent,
    /// and so on upwards; 0 when the walk reaches the root.
    pub open spec fn next_nt_sibling(self, idx: int) -> int
        decreases idx,
    {
        if idx <= 0 || idx >= self.nodes.len() || idx >= self.parents.len() {
            0
        } else {
            let parent = self.parents[idx] as int;
            if parent < idx && parent < self.children.len() {
                match self.first_nonterminal_after(self.children[parent], idx, 0, false) {
                    Some(s) => s as int,
                    None => self.next_nt_sibling(parent),
                }
            } else {
                0
            }
        }
    }
}

/// Adding a child keeps the arena well formed.
pub proof fn lemma_add_child_wf(t: TreeView, p: int, sym: SymbolView)
    requires
        t.wf(),
        0 <= p < t.nodes.len(),
        t.nodes.len() < usize::MAX,
    ensures
        t.add_child(p, sym).wf(),
        t.add_child(p, sym).nodes.len() == t.nodes.len() + 1,
{
    let u = t.add_child(p, sym);
    let n = t.nodes.len() as int;
    assert forall|q: int, k: int| 0 <= q < u.nodes.len() && 0 <= k < u.children[q].len() implies q < (
    #[trigger] u.children[q][k]) < u.nodes.len() && u.parents[u.children[q][k] as int] == q by {
        if q == p {
            if k < t.children[p].len() {
                assert(u.children[q][k] == t.children[p][k]);
            }
        } else if q < n {
            assert(u.children[q][k] == t.children[q][k]);
        }
    }
    assert forall|c: int| 0 < c < u.nodes.len() implies (#[trigger] u.parents[c]) < c
        && u.children[u.parents[c] as int].contains(c as usize) by {
        if c < n {
            let q = t.parents[c] as int;
            assert(t.children[q].contains(c as usize));
            let k = choose|k: int| 0 <= k < t.children[q].len() && t.children[q][k] == c as usize;
            if q == p {
                assert(u.children[q][k] == c as usize);
            } else {
                assert(u.children[q] == t.children[q]);
            }
        } else {
            assert(u.children[p][t.children[p].len() as int] == n as usize);
        }
    }
}

/// Adding children keeps the arena well formed and appends one node for
/// each symbol.
pub proof fn lemma_add_children_wf(t: TreeView, p: int, syms: Seq<SymbolView>)
    requires
        t.wf(),
        0 <= p < t.nodes.len(),
        t.nodes.len() + syms.len() <= usize::MAX,
    ensures
        t.add_children(p, syms).wf(),
        t.add_children(p, syms).nodes.len() == t.nodes.len() + syms.len(),
    decreases syms.len(),
{
    if syms.len() > 0 {
        lemma_add_child_wf(t, p, syms[0]);
        lemma_add_children_wf(t.add_child(p, syms[0]), p, syms.drop_first());
    }
}

/// The next nonterminal to expand is a node of the arena.
pub proof fn lemma_next_nt_sibling_bounds(t: TreeView, idx: int)
    requires
        t.wf(),
    ensures
        0 <= t.next_nt_sibling(idx),
        t.nodes.len() > 0 ==> t.next_nt_sibling(idx) < t.nodes.len(),
        t.nodes.len() == 0 ==> t.next_nt_sibling(idx) == 0,
    decreases idx,
{
    if 0 < idx < t.nodes.len() {
        let parent = t.parents[idx] as int;
        lemma_first_nonterminal_after_bounds(t, t.children[parent], idx, 0, false);
        lemma_next_nt_sibling_bounds(t, parent);
    }
}

/// A sibling that is found is a node of the arena.
pub proof fn lemma_first_nonterminal_after_bounds(
    t: TreeView,
    sibs: Seq<usize>,
    idx: int,
    from: int,
    seen: bool,
)
    ensures
        t.first_nonterminal_after(sibs, idx, from, seen) matches Some(s) ==> s < t.nodes.len(),
    decreases sibs.len() - from,
{
    if 0 <= from < sibs.len() {
        lemma_first_nonterminal_after_bounds(t, sibs, idx, from + 1, seen || sibs[from] == idx);
    }
}

/// The parse tree.
#[derive(Debug)]
pub struct ParseTree {
    node_list: Vec<GrammarSymbol>,
    adj_list: Vec<Vec<usize>>,
    parents_list: Vec<usize>,
}

impl View for ParseTree {
    type V = TreeView;

    closed spec fn view(&self) -> TreeView {
        TreeView {
            nodes: Seq::new(self.node_list@.len(), |i: int| self.node_list@[i]@),
            children: Seq::new(self.adj_list@.len(), |i: int| self.adj_list@[i]@),
            parents: self.parents_list@,
        }
    }
}

impl ParseTree {
    /// A tree without any node.
    pub fn new() -> (r: Self)
        ensures
            r@ == TreeView::empty(),
            r@.wf(),
    {
        let r = ParseTree { node_list: Vec::new(), adj_list: Vec::new(), parents_list: Vec::new() };
        assert(r@.nodes =~= Seq::empty());
        assert(r@.children =~= Seq::empty());
        r
    }

    /// The number of nodes.
    pub fn len(&self) -> (n: usize)
        ensures
            n == self@.nodes.len(),
    {
        self.node_list.len()
    }

    /// Makes `sym` the symbol of the root, node 0.
    pub fn set_root(&mut self, sym: GrammarSymbol)
        requires
            old(self)@.wf(),
        ensures
            final(self)@ == old(self)@.set_root(sym@),
            final(self)@.wf(),
    {
        if self.node_list.len() == 0 {
            self.node_list.push(sym);
            self.adj_list.push(Vec::new());
            self.parents_list.push(0);
            assert(self@.nodes =~= seq![sym@]);
            assert(self@.children =~= seq![Seq::<usize>::empty()]);
            assert(self@.parents =~= seq![0usize]);
        } else {
            self.node_list.set(0, sym);
            assert(self@.nodes =~= old(self)@.nodes.update(0, sym@));
            assert(self@.children =~= old(self)@.children);
        }
    }

    /// The symbol of node `idx`.
    pub fn get_node(&self, idx: usize) -> (r: GrammarSymbol)
        requires
            idx < self@.nodes.len(),
        ensures
            r@ == self@.nodes[idx as int],
    {
        self.node_list[idx].clone()
    }

    /// The children of node `idx`, in grammar order; none for an index
    /// outside the arena.
    pub fn get_children(&self, idx: usize) -> (r: Vec<usize>)
        ensures
            idx < self@.children.len() ==> r@ == self@.children[idx as int],
            idx >= self@.children.len() ==> r@.len() == 0,
    {
        if idx < self.adj_list.len() {
            let kids = &self.adj_list[idx];
            let mut out: Vec<usize> = Vec::new();
            let mut k: usize = 0;
            while k < kids.len()
                invariant
                    k <= kids.len(),
                    out@ == kids@.subrange(0, k as int),
                decreases kids.len() - k,
            {
                out.push(kids[k]);
                k += 1;
                assert(out@ =~= kids@.subrange(0, k as int));
            }
            assert(out@ =~= kids@);
            out
        } else {
            Vec::new()
        }
    }

    /// Appends a node with the symbol `sym` to the arena, as the last child
    /// of node `idx`, and returns the index of the new node.
    pub fn add_child(&mut self, idx: usize, sym: GrammarSymbol) -> (new_idx: usize)
        requires
            old(self)@.wf(),
            idx < old(self)@.nodes.len(),
        ensures
            final(self)@ == old(self)@.add_child(idx as int, sym@),
            final(self)@.wf(),
            new_idx == old(self)@.nodes.len(),
    {
        let new_idx = self.node_list.len();
        let mut neighbors = self.get_children(idx);
        neighbors.push(new_idx);
        self.node_list.push(sym);
        self.adj_list.set(idx, neighbors);
        self.adj_list.push(Vec::new());
        self.parents_list.push(idx);
        let after = self.node_list.len();
        proof {
            assert(after == new_idx + 1);
            let t = old(self)@;
            let u = t.add_child(idx as int, sym@);
            assert(self@.nodes =~= u.nodes);
            assert(self@.children =~= u.children);
            assert(self@.parents =~= u.parents);
            lemma_add_child_wf(t, idx as int, sym@);
        }
        new_idx
    }

    /// The next nonterminal to expand once node `idx` is done: the first
    /// nonterminal among the later siblings of `idx`, or else of its
    /// parent, and so on upwards; 0 when the walk reaches the root.
    pub fn get_next_nt_sibling(&self, idx: usize) -> (r: usize)
        requires
            self@.wf(),
        ensures
            r == self@.next_nt_sibling(idx as int),
    {
        let mut cur = idx;
        loop
            invariant
                self@.wf(),
                self@.next_nt_sibling(cur as int) == self@.next_nt_sibling(idx as int),
            decreases cur,
        {
            if cur >= self.node_list.len() || cur == 0 {
                return 0;
            }
            let parent = self.parents_list[cur];
            let siblings = &self.adj_list[parent];
            let mut seen = false;
            let mut k: usize = 0;
            while k < siblings.len()
                invariant
                    self@.wf(),
                    k <= siblings.len(),
                    siblings@ == self@.children[parent as int],
                    parent < self@.nodes.len(),
                    self@.first_nonterminal_after(siblings@, cur as int, 0, false)
                        == self@.first_nonterminal_after(siblings@, cur as int, k as int, seen),
                    0 < cur < self@.nodes.len(),
                    parent == self@.parents[cur as int],
                    self@.next_nt_sibling(cur as int) == self@.next_nt_sibling(idx as int),
                decreases siblings.len() - k,
            {
                let sibling = siblings[k];
                assert(sibling < self@.nodes.len());
                if seen && self.node_list[sibling].is_nonterminal() {
                    return sibling;
                }
                if sibling == cur {
                    seen = true;
                }
                k += 1;
            }
            cur = parent;
        }
    }
}

} // verus!
