//! What a parse tree derives: its leaves in order, the tokens they hold,
//! and the law that the tree of a parsed text is built from productions of
//! the table and holds the tokens of the text in its leaves.

use vstd::prelude::*;
use crate::grammar::{Item, SymbolKind, SymbolView, is_nonterminal_kind, production_of};
use crate::parse_tree::{TreeView, lemma_add_child_wf};
use crate::lexer::{Scan, lemma_lex_advances, lex};
use crate::parser::{
    MAX_TREE_NODES,
    Machine,
    parse_of,
    expand,
    feed,
    first_nonterminal,
    instantiate,
    item_symbol,
    lemma_expand_wf,
    look_tag,
    reversed,
    run,
};
use crate::spelling::{lemma_lex_yields_lexed, tokens_from};
use crate::token::{TokenTag, TokenView, carries_payload};

verus! {

/// The indices `n`, `n + 1`, ... of `k` nodes appended to an arena of `n`
/// nodes.
pub open spec fn fresh(n: int, k: int) -> Seq<usize> {
    Seq::new(k as nat, |i: int| (n + i) as usize)
}

/// What adding children does to the arena: the new nodes come after the
/// old ones with their symbols, the parent gets them as its last children,
/// and nothing else changes.
pub proof fn lemma_add_children_shape(t: TreeView, p: int, syms: Seq<SymbolView>)
    requires
        t.wf(),
        0 <= p < t.nodes.len(),
        t.nodes.len() + syms.len() <= usize::MAX,
    ensures
        ({
            let u = t.add_children(p, syms);
            let n = t.nodes.len() as int;
            &&& u.wf()
            &&& u.nodes =~= t.nodes + syms
            &&& u.children.len() == n + syms.len()
            &&& u.children[p] =~= t.children[p] + fresh(n, syms.len() as int)
            &&& forall|q: int| 0 <= q < n && q != p ==> #[trigger] u.children[q] == t.children[q]
            &&& forall|q: int| n <= q < n + syms.len() ==> (#[trigger] u.children[q]).len() == 0
            &&& forall|q: int| 0 <= q < n ==> #[trigger] u.parents[q] == t.parents[q]
            &&& forall|q: int| n <= q < n + syms.len() ==> #[trigger] u.parents[q] == p
        }),
    decreases syms.len(),
{
    let n = t.nodes.len() as int;
    if syms.len() == 0 {
        assert(fresh(n, 0) =~= Seq::<usize>::empty());
    } else {
        let t1 = t.add_child(p, syms[0]);
        let rest = syms.drop_first();
        lemma_add_child_wf(t, p, syms[0]);
        lemma_add_children_shape(t1, p, rest);
        let u = t.add_children(p, syms);
        assert(u == t1.add_children(p, rest));
        assert(t1.nodes + rest =~= t.nodes + syms);
        assert(t1.children[p] == t.children[p].push(n as usize));
        assert(t1.children[p] + fresh(n + 1, rest.len() as int) =~= t.children[p] + fresh(
            n,
            syms.len() as int,
        ));
        assert forall|q: int| 0 <= q < n && q != p implies #[trigger] u.children[q] == t.children[q] by {
            assert(u.children[q] == t1.children[q]);
        }
        assert forall|q: int| n <= q < n + syms.len() implies (#[trigger] u.children[q]).len() == 0 by {
            if q == n {
                assert(u.children[q] == t1.children[q]);
            }
        }
        assert forall|q: int| 0 <= q < n implies #[trigger] u.parents[q] == t.parents[q] by {
            assert(u.parents[q] == t1.parents[q]);
        }
        assert forall|q: int| n <= q < n + syms.len() implies #[trigger] u.parents[q] == p by {
            if q == n {
                assert(u.parents[q] == t1.parents[q]);
            }
        }
    }
}

/// The number of children of node `idx`.
pub open spec fn degree(t: TreeView, idx: int) -> nat {
    if 0 <= idx < t.children.len() {
        t.children[idx].len()
    } else {
        0
    }
}

/// The leaves under node `idx`, from left to right.
pub open spec fn frontier(t: TreeView, idx: int) -> Seq<int>
    decreases t.nodes.len() - idx, degree(t, idx) + 1,
{
    if 0 <= idx < t.nodes.len() {
        if degree(t, idx) == 0 {
            seq![idx]
        } else {
            frontier_from(t, idx, 0)
        }
    } else {
        Seq::empty()
    }
}

/// The leaves under the children of node `idx` from the `k`-th child on.
pub open spec fn frontier_from(t: TreeView, idx: int, k: int) -> Seq<int>
    decreases t.nodes.len() - idx, degree(t, idx) - k,
{
    if 0 <= k < degree(t, idx) {
        let c = t.children[idx][k] as int;
        (if idx < c < t.nodes.len() {
            frontier(t, c)
        } else {
            Seq::empty()
        }) + frontier_from(t, idx, k + 1)
    } else {
        Seq::empty()
    }
}

/// The sequence with every occurrence of `x` replaced by the items `by`.
pub open spec fn replaced(s: Seq<int>, x: int, by: Seq<int>) -> Seq<int>
    decreases s.len(),
{
    if s.len() == 0 {
        Seq::empty()
    } else {
        (if s[0] == x {
            by
        } else {
            seq![s[0]]
        }) + replaced(s.drop_first(), x, by)
    }
}

/// Replacing in two sequences put together is replacing in each.
pub proof fn lemma_replaced_concat(a: Seq<int>, b: Seq<int>, x: int, by: Seq<int>)
    ensures
        replaced(a + b, x, by) =~= replaced(a, x, by) + replaced(b, x, by),
    decreases a.len(),
{
    if a.len() == 0 {
        assert(a + b =~= b);
    } else {
        assert((a + b).drop_first() =~= a.drop_first() + b);
        lemma_replaced_concat(a.drop_first(), b, x, by);
    }
}

/// A sequence that does not hold `x` is left as it is.
pub proof fn lemma_replaced_absent(s: Seq<int>, x: int, by: Seq<int>)
    requires
        !s.contains(x),
    ensures
        replaced(s, x, by) =~= s,
    decreases s.len(),
{
    if s.len() > 0 {
        assert(s[0] != x);
        assert forall|k: int| 0 <= k < s.drop_first().len() implies s.drop_first()[k] != x by {
            assert(s.drop_first()[k] == s[k + 1]);
        }
        lemma_replaced_absent(s.drop_first(), x, by);
    }
}

/// Replacing in a sequence of one item.
pub proof fn lemma_replaced_single(y: int, x: int, by: Seq<int>)
    ensures
        replaced(seq![y], x, by) =~= (if y == x {
            by
        } else {
            seq![y]
        }),
{
    reveal_with_fuel(replaced, 2);
    let s = seq![y];
    assert(s.drop_first().len() == 0);
}

/// The integers of a sequence of indices.
pub open spec fn as_ints(s: Seq<usize>) -> Seq<int> {
    Seq::new(s.len(), |i: int| s[i] as int)
}

/// Expanding a leaf replaces it in the frontier by its new children: when
/// children are added to a node without children, the leaves under any old
/// node are those of before, with the node replaced by the new children.
pub proof fn lemma_frontier_expand(t: TreeView, f: int, syms: Seq<SymbolView>, idx: int)
    requires
        t.wf(),
        0 <= f < t.nodes.len(),
        degree(t, f) == 0,
        syms.len() >= 1,
        t.nodes.len() + syms.len() <= usize::MAX,
        0 <= idx < t.nodes.len(),
    ensures
        frontier(t.add_children(f, syms), idx) == replaced(
            frontier(t, idx),
            f,
            as_ints(fresh(t.nodes.len() as int, syms.len() as int)),
        ),
    decreases t.nodes.len() - idx, degree(t, idx) + 1,
{
    let u = t.add_children(f, syms);
    let n = t.nodes.len() as int;
    let cs = as_ints(fresh(n, syms.len() as int));
    lemma_add_children_shape(t, f, syms);
    if idx == f {
        assert(u.children[f] =~= fresh(n, syms.len() as int));
        lemma_fresh_frontier(t, f, syms, 0);
        lemma_replaced_single(f, f, cs);
        assert(cs.subrange(0, syms.len() as int) =~= cs);
    } else if degree(t, idx) == 0 {
        assert(u.children[idx] == t.children[idx]);
        lemma_replaced_single(idx, f, cs);
    } else {
        assert(u.children[idx] == t.children[idx]);
        lemma_frontier_from_expand(t, f, syms, idx, 0);
    }
}

proof fn lemma_frontier_from_expand(t: TreeView, f: int, syms: Seq<SymbolView>, idx: int, k: int)
    requires
        t.wf(),
        0 <= f < t.nodes.len(),
        degree(t, f) == 0,
        syms.len() >= 1,
        t.nodes.len() + syms.len() <= usize::MAX,
        0 <= idx < t.nodes.len(),
        idx != f,
        0 <= k,
    ensures
        frontier_from(t.add_children(f, syms), idx, k) == replaced(
            frontier_from(t, idx, k),
            f,
            as_ints(fresh(t.nodes.len() as int, syms.len() as int)),
        ),
    decreases t.nodes.len() - idx, degree(t, idx) - k,
{
    let u = t.add_children(f, syms);
    let n = t.nodes.len() as int;
    let cs = as_ints(fresh(n, syms.len() as int));
    lemma_add_children_shape(t, f, syms);
    assert(u.children[idx] == t.children[idx]);
    if k < degree(t, idx) {
        let c = t.children[idx][k] as int;
        assert(idx < c < n);
        lemma_frontier_expand(t, f, syms, c);
        lemma_frontier_from_expand(t, f, syms, idx, k + 1);
        lemma_replaced_concat(frontier(t, c), frontier_from(t, idx, k + 1), f, cs);
    }
}

/// The leaves under new children are the children themselves.
proof fn lemma_fresh_frontier(t: TreeView, f: int, syms: Seq<SymbolView>, k: int)
    requires
        t.wf(),
        0 <= f < t.nodes.len(),
        degree(t, f) == 0,
        t.nodes.len() + syms.len() <= usize::MAX,
        0 <= k <= syms.len(),
    ensures
        frontier_from(t.add_children(f, syms), f, k) =~= as_ints(
            fresh(t.nodes.len() as int, syms.len() as int),
        ).subrange(k, syms.len() as int),
    decreases syms.len() - k,
{
    let u = t.add_children(f, syms);
    let n = t.nodes.len() as int;
    lemma_add_children_shape(t, f, syms);
    assert(u.children[f] =~= fresh(n, syms.len() as int));
    if k < syms.len() {
        lemma_fresh_frontier(t, f, syms, k + 1);
        let c = u.children[f][k] as int;
        assert(c == n + k);
        assert(u.children[c].len() == 0);
        assert(frontier(u, c) == seq![c]);
    }
}

proof fn lemma_first_after_frame(
    t: TreeView,
    u: TreeView,
    sibs: Seq<usize>,
    idx: int,
    from: int,
    seen: bool,
)
    requires
        t.nodes.len() <= u.nodes.len(),
        forall|i: int| 0 <= i < sibs.len() ==> (#[trigger] sibs[i]) < t.nodes.len(),
        forall|x: int| 0 <= x < t.nodes.len() ==> #[trigger] u.nodes[x] == t.nodes[x],
    ensures
        u.first_nonterminal_after(sibs, idx, from, seen) == t.first_nonterminal_after(
            sibs,
            idx,
            from,
            seen,
        ),
    decreases sibs.len() - from,
{
    if 0 <= from < sibs.len() {
        assert(u.nodes[sibs[from] as int] == t.nodes[sibs[from] as int]);
        lemma_first_after_frame(t, u, sibs, idx, from + 1, seen || sibs[from] == idx);
    }
}

/// Expanding a leaf does not change where the walk from an old node to the
/// next nonterminal ends.
pub proof fn lemma_next_nt_frame(t: TreeView, f: int, syms: Seq<SymbolView>, m: int)
    requires
        t.wf(),
        0 <= f < t.nodes.len(),
        degree(t, f) == 0,
        t.nodes.len() + syms.len() <= usize::MAX,
        0 <= m < t.nodes.len(),
    ensures
        t.add_children(f, syms).next_nt_sibling(m) == t.next_nt_sibling(m),
    decreases m,
{
    let u = t.add_children(f, syms);
    lemma_add_children_shape(t, f, syms);
    if m > 0 {
        let p = t.parents[m] as int;
        assert(u.parents[m] == t.parents[m]);
        assert(t.children[p].contains(m as usize));
        assert(p != f);
        assert(u.children[p] == t.children[p]);
        let sibs = t.children[p];
        assert forall|i: int| 0 <= i < sibs.len() implies (#[trigger] sibs[i]) < t.nodes.len() by {
            assert(p < t.children[p][i] < t.nodes.len());
        }
        assert forall|x: int| 0 <= x < t.nodes.len() implies #[trigger] u.nodes[x] == t.nodes[x] by {
            assert(u.nodes[x] == (t.nodes + syms)[x]);
        }
        lemma_first_after_frame(t, u, sibs, m, 0, false);
        lemma_next_nt_frame(t, f, syms, p);
    }
}

/// The position of a nonterminal among symbols, as the index of the new
/// node that holds it.
pub open spec fn fresh_at(n: int, found: Option<int>) -> Option<usize> {
    match found {
        Some(j) => Some((n + j) as usize),
        None => None,
    }
}

proof fn lemma_first_after_fresh_seen(u: TreeView, n: int, syms: Seq<SymbolView>, i: int, from: int)
    requires
        0 <= n,
        n + syms.len() <= usize::MAX,
        u.nodes.len() == n + syms.len(),
        forall|j: int| 0 <= j < syms.len() ==> #[trigger] u.nodes[n + j] == syms[j],
        0 <= i < syms.len(),
        i < from,
    ensures
        u.first_nonterminal_after(fresh(n, syms.len() as int), n + i, from, true) == fresh_at(
            n,
            first_nonterminal(syms, from),
        ),
    decreases syms.len() - from,
{
    let sibs = fresh(n, syms.len() as int);
    if from < syms.len() {
        assert(sibs[from] == (n + from) as usize);
        assert(u.nodes[n + from] == syms[from]);
        lemma_first_after_fresh_seen(u, n, syms, i, from + 1);
    }
}

proof fn lemma_first_after_fresh(u: TreeView, n: int, syms: Seq<SymbolView>, i: int, from: int)
    requires
        0 <= n,
        n + syms.len() <= usize::MAX,
        u.nodes.len() == n + syms.len(),
        forall|j: int| 0 <= j < syms.len() ==> #[trigger] u.nodes[n + j] == syms[j],
        0 <= i < syms.len(),
        0 <= from <= i,
    ensures
        u.first_nonterminal_after(fresh(n, syms.len() as int), n + i, from, false) == fresh_at(
            n,
            first_nonterminal(syms, i + 1),
        ),
    decreases i - from,
{
    let sibs = fresh(n, syms.len() as int);
    assert(sibs[from] == (n + from) as usize);
    if from < i {
        lemma_first_after_fresh(u, n, syms, i, from + 1);
    } else {
        lemma_first_after_fresh_seen(u, n, syms, i, i + 1);
    }
}

/// The walk from a new child to the next nonterminal ends at the first
/// nonterminal among the children after it, or else where the walk from
/// the expanded node ended before the expansion.
pub proof fn lemma_next_nt_fresh(t: TreeView, f: int, syms: Seq<SymbolView>, i: int)
    requires
        t.wf(),
        0 <= f < t.nodes.len(),
        degree(t, f) == 0,
        t.nodes.len() + syms.len() <= usize::MAX,
        0 <= i < syms.len(),
    ensures
        t.add_children(f, syms).next_nt_sibling(t.nodes.len() + i) == (match first_nonterminal(
            syms,
            i + 1,
        ) {
            Some(j) => t.nodes.len() + j,
            None => t.next_nt_sibling(f),
        }),
{
    let u = t.add_children(f, syms);
    let n = t.nodes.len() as int;
    lemma_add_children_shape(t, f, syms);
    assert(u.children[f] =~= fresh(n, syms.len() as int));
    assert(u.parents[n + i] == f);
    assert forall|j: int| 0 <= j < syms.len() implies #[trigger] u.nodes[n + j] == syms[j] by {
        assert(u.nodes[n + j] == (t.nodes + syms)[n + j]);
    }
    lemma_first_after_fresh(u, n, syms, i, 0);
    lemma_next_nt_frame(t, f, syms, f);
    crate::parser::lemma_first_nonterminal_bounds(syms, i + 1);
}


/// What holds of every item of every production: a nonterminal item names
/// a nonterminal, and a terminal item whose tokens carry a payload stands
/// first in its production and has the tag of the token that picks it.
pub open spec fn item_ok(item: Item, i: int, look: Option<TokenTag>) -> bool {
    match item {
        Item::T(tag) => !carries_payload(tag) || (i == 0 && look == Some(tag)),
        Item::N(kind) => is_nonterminal_kind(kind),
    }
}

/// Every item of every production of the table is as `item_ok` says.
pub proof fn lemma_table_items(nt: SymbolKind, look: Option<TokenTag>)
    ensures
        production_of(nt, look) matches Some(items) ==> items.len() <= 8 && forall|i: int|
            0 <= i < items.len() ==> item_ok(#[trigger] items[i], i, look),
{
}


/// The tokens that the leaves hold, in order: the token of every leaf that
/// is a terminal.
pub open spec fn leaf_tokens(t: TreeView, leaves: Seq<int>) -> Seq<TokenView>
    decreases leaves.len(),
{
    if leaves.len() == 0 {
        Seq::empty()
    } else {
        (match t.nodes[leaves[0]] {
            SymbolView::Terminal(tok) => seq![tok],
            _ => Seq::empty(),
        }) + leaf_tokens(t, leaves.drop_first())
    }
}

/// The first leaf from position `from` on that is a nonterminal; 0 when
/// there is none.
pub open spec fn first_nt_leaf(t: TreeView, leaves: Seq<int>, from: int) -> int
    decreases leaves.len() - from,
{
    if from < 0 || from >= leaves.len() {
        0
    } else if t.nodes[leaves[from]].is_nonterminal() {
        leaves[from]
    } else {
        first_nt_leaf(t, leaves, from + 1)
    }
}

/// Whether a symbol may wait on the stack while the next token is `look`:
/// a nonterminal; a terminal whose token carries no payload; or, on top of
/// the stack only, the terminal of the next token itself.
pub open spec fn may_wait(sym: SymbolView, on_top: bool, look: Option<TokenView>) -> bool {
    match sym {
        SymbolView::Terminal(tok) => (!carries_payload(tok.tag()) && tok == TokenView::Plain(
            tok.tag(),
        )) || (on_top && look == Some(tok)),
        SymbolView::Other(kind) => is_nonterminal_kind(kind),
    }
}

/// Whether a symbol is what an item of a production asks for.
pub open spec fn matches_item(sym: SymbolView, item: Item) -> bool {
    match item {
        Item::T(tag) => sym matches SymbolView::Terminal(tok) && tok.tag() == tag,
        Item::N(kind) => sym == SymbolView::Other(kind),
    }
}

/// Whether the children of node `idx` spell the production `items`: one
/// child for each item, in order; for the empty production, the one child
/// that is the empty symbol.
pub open spec fn built_from(t: TreeView, idx: int, items: Seq<Item>) -> bool {
    if items.len() == 0 {
        t.children[idx].len() == 1 && t.nodes[t.children[idx][0] as int] == SymbolView::Other(
            SymbolKind::Empty,
        )
    } else {
        t.children[idx].len() == items.len() && forall|i: int|
            0 <= i < items.len() ==> matches_item(
                t.nodes[(#[trigger] t.children[idx][i]) as int],
                items[i],
            )
    }
}

/// Whether node `idx` conforms to the grammar: it has no children, or it
/// is a nonterminal whose children spell a production that the table holds
/// for it.
pub open spec fn conforms(t: TreeView, idx: int) -> bool {
    degree(t, idx) == 0 || (t.nodes[idx] matches SymbolView::Other(kind) && exists|
        look: Option<TokenTag>,
    |
        (#[trigger] production_of(kind, look)) is Some && built_from(
            t,
            idx,
            production_of(kind, look)->0,
        ))
}

/// Whether every node of the tree conforms to the grammar.
pub open spec fn conforms_all(t: TreeView) -> bool {
    forall|idx: int| 0 <= idx < t.nodes.len() ==> #[trigger] conforms(t, idx)
}

/// What a parse tree derives: it is well formed, every node conforms to
/// the grammar, every leaf is a terminal or the empty symbol, and the
/// tokens of its leaves, from left to right, are `tokens`.
pub open spec fn derives(t: TreeView, tokens: Seq<TokenView>) -> bool {
    &&& t.wf()
    &&& conforms_all(t)
    &&& forall|i: int|
        0 <= i < frontier(t, 0).len() ==> !t.nodes[#[trigger] frontier(t, 0)[i]].is_nonterminal()
    &&& leaf_tokens(t, frontier(t, 0)) == tokens
}

/// The number of nodes under node `x`.
pub open spec fn below(d: TreeView, x: int) -> nat
    decreases d.nodes.len() - x, degree(d, x) + 1,
{
    if 0 <= x < d.nodes.len() {
        degree(d, x) + inside_from(d, x, 0)
    } else {
        0
    }
}

/// The number of nodes under the children of node `x` from the `k`-th
/// child on.
pub open spec fn inside_from(d: TreeView, x: int, k: int) -> nat
    decreases d.nodes.len() - x, degree(d, x) - k,
{
    if 0 <= k < degree(d, x) {
        let c = d.children[x][k] as int;
        (if x < c < d.nodes.len() {
            below(d, c)
        } else {
            0
        }) + inside_from(d, x, k + 1)
    } else {
        0
    }
}

/// The number of nodes of a derivation tree, counted from its root along
/// its branches.
pub open spec fn extent(d: TreeView) -> nat {
    1 + below(d, 0)
}

/// How often `x` stands in the sequence.
pub open spec fn occurrences(s: Seq<int>, x: int) -> nat
    decreases s.len(),
{
    if s.len() == 0 {
        0
    } else {
        (if s[0] == x {
            1nat
        } else {
            0nat
        }) + occurrences(s.drop_first(), x)
    }
}

proof fn lemma_occurrences_concat(a: Seq<int>, b: Seq<int>, x: int)
    ensures
        occurrences(a + b, x) == occurrences(a, x) + occurrences(b, x),
    decreases a.len(),
{
    if a.len() == 0 {
        assert(a + b =~= b);
    } else {
        assert((a + b).drop_first() =~= a.drop_first() + b);
        lemma_occurrences_concat(a.drop_first(), b, x);
    }
}

proof fn lemma_occurrences_absent(s: Seq<int>, x: int)
    requires
        !s.contains(x),
    ensures
        occurrences(s, x) == 0,
    decreases s.len(),
{
    if s.len() > 0 {
        assert(s[0] != x);
        assert forall|k: int| 0 <= k < s.drop_first().len() implies s.drop_first()[k] != x by {
            assert(s.drop_first()[k] == s[k + 1]);
        }
        lemma_occurrences_absent(s.drop_first(), x);
    }
}

/// What stands in a sequence without duplicates stands in it once.
proof fn lemma_occurrences_once(s: Seq<int>, i: int)
    requires
        s.no_duplicates(),
        0 <= i < s.len(),
    ensures
        occurrences(s, s[i]) == 1,
{
    let x = s[i];
    let a = s.subrange(0, i);
    let b = s.subrange(i + 1, s.len() as int);
    assert(s =~= a + (seq![x] + b));
    assert(!a.contains(x)) by {
        if a.contains(x) {
            let j = choose|j: int| 0 <= j < a.len() && a[j] == x;
            assert(s[j] == s[i]);
        }
    }
    assert(!b.contains(x)) by {
        if b.contains(x) {
            let j = choose|j: int| 0 <= j < b.len() && b[j] == x;
            assert(s[i + 1 + j] == s[i]);
        }
    }
    lemma_occurrences_concat(a, seq![x] + b, x);
    lemma_occurrences_concat(seq![x], b, x);
    lemma_occurrences_absent(a, x);
    lemma_occurrences_absent(b, x);
    assert(occurrences(seq![x], x) == 1) by {
        reveal_with_fuel(occurrences, 2);
        assert(seq![x].drop_first().len() == 0);
    }
}

/// Expanding a leaf adds its new children under every node that it stands
/// under: the number of nodes under an old node grows by the number of new
/// children for every time the leaf stands in the frontier of the node.
proof fn lemma_below_expand(t: TreeView, f: int, syms: Seq<SymbolView>, idx: int)
    requires
        t.wf(),
        0 <= f < t.nodes.len(),
        degree(t, f) == 0,
        syms.len() >= 1,
        t.nodes.len() + syms.len() <= usize::MAX,
        0 <= idx < t.nodes.len(),
    ensures
        below(t.add_children(f, syms), idx) == below(t, idx) + syms.len() * occurrences(
            frontier(t, idx),
            f,
        ),
    decreases t.nodes.len() - idx, degree(t, idx) + 1,
{
    let u = t.add_children(f, syms);
    let n = t.nodes.len() as int;
    let w = syms.len() as int;
    lemma_add_children_shape(t, f, syms);
    if idx == f {
        assert(u.children[f] =~= fresh(n, w));
        lemma_fresh_inside(t, f, syms, 0);
        assert(occurrences(seq![f], f) == 1) by {
            reveal_with_fuel(occurrences, 2);
            assert(seq![f].drop_first().len() == 0);
        }
        assert(w * 1 == w);
    } else if degree(t, idx) == 0 {
        assert(u.children[idx] == t.children[idx]);
        assert(occurrences(seq![idx], f) == 0) by {
            reveal_with_fuel(occurrences, 2);
            assert(seq![idx].drop_first().len() == 0);
        }
        assert(w * 0 == 0);
    } else {
        assert(u.children[idx] == t.children[idx]);
        lemma_inside_expand(t, f, syms, idx, 0);
    }
}

proof fn lemma_inside_expand(t: TreeView, f: int, syms: Seq<SymbolView>, idx: int, k: int)
    requires
        t.wf(),
        0 <= f < t.nodes.len(),
        degree(t, f) == 0,
        syms.len() >= 1,
        t.nodes.len() + syms.len() <= usize::MAX,
        0 <= idx < t.nodes.len(),
        idx != f,
        0 <= k,
    ensures
        inside_from(t.add_children(f, syms), idx, k) == inside_from(t, idx, k) + syms.len()
            * occurrences(frontier_from(t, idx, k), f),
    decreases t.nodes.len() - idx, degree(t, idx) - k,
{
    let u = t.add_children(f, syms);
    let w = syms.len() as int;
    lemma_add_children_shape(t, f, syms);
    assert(u.children[idx] == t.children[idx]);
    if k < degree(t, idx) {
        let c = t.children[idx][k] as int;
        assert(idx < c < t.nodes.len());
        lemma_below_expand(t, f, syms, c);
        lemma_inside_expand(t, f, syms, idx, k + 1);
        lemma_occurrences_concat(frontier(t, c), frontier_from(t, idx, k + 1), f);
        let a = occurrences(frontier(t, c), f) as int;
        let b = occurrences(frontier_from(t, idx, k + 1), f) as int;
        assert(w * (a + b) == w * a + w * b) by (nonlinear_arith);
    } else {
        assert(occurrences(frontier_from(t, idx, k), f) == 0);
        assert(w * 0 == 0);
    }
}

/// No node stands under new children.
proof fn lemma_fresh_inside(t: TreeView, f: int, syms: Seq<SymbolView>, k: int)
    requires
        t.wf(),
        0 <= f < t.nodes.len(),
        degree(t, f) == 0,
        t.nodes.len() + syms.len() <= usize::MAX,
        0 <= k <= syms.len(),
    ensures
        inside_from(t.add_children(f, syms), f, k) == 0,
    decreases syms.len() - k,
{
    let u = t.add_children(f, syms);
    let n = t.nodes.len() as int;
    lemma_add_children_shape(t, f, syms);
    assert(u.children[f] =~= fresh(n, syms.len() as int));
    if k < syms.len() {
        lemma_fresh_inside(t, f, syms, k + 1);
        let c = u.children[f][k] as int;
        assert(c == n + k);
        assert(u.children[c].len() == 0);
        assert(inside_from(u, c, 0) == 0);
        assert(below(u, c) == 0);
    }
}

/// The position in the frontier where the waiting leaves begin: as many
/// leaves wait as symbols stand on the stack above the end marker.
pub open spec fn base_of(m: Machine) -> int {
    frontier(m.tree, 0).len() - (m.stack.len() - 1)
}

/// Whether the frontier of the tree holds every leaf once, and only nodes
/// that are leaves.
pub open spec fn leaves_ok(t: TreeView) -> bool {
    let leaves = frontier(t, 0);
    &&& leaves.no_duplicates()
    &&& forall|i: int|
        0 <= i < leaves.len() ==> 0 <= (#[trigger] leaves[i]) < t.nodes.len() && degree(
            t,
            leaves[i],
        ) == 0
}

/// Whether the waiting leaves are the symbols on the stack, the top of the
/// stack first, above the end marker, and every one of them may wait.
pub open spec fn waiting_ok(m: Machine, look: Option<TokenView>) -> bool {
    let leaves = frontier(m.tree, 0);
    let k = m.stack.len() - 1;
    let base = base_of(m);
    &&& m.stack.len() >= 1
    &&& m.stack[0] == SymbolView::Other(SymbolKind::End)
    &&& base >= 0
    &&& forall|i: int| 0 <= i < k ==> m.tree.nodes[#[trigger] leaves[base + i]] == m.stack[k - i]
    &&& forall|i: int| 0 <= i < k ==> may_wait(#[trigger] m.stack[k - i], i == 0, look)
}

/// Whether the matched leaves are terminals and empty symbols, and hold
/// the consumed tokens.
pub open spec fn matched_ok(m: Machine, consumed: Seq<TokenView>) -> bool {
    let leaves = frontier(m.tree, 0);
    let base = base_of(m);
    &&& forall|j: int| 0 <= j < base ==> !m.tree.nodes[#[trigger] leaves[j]].is_nonterminal()
    &&& leaf_tokens(m.tree, leaves.subrange(0, base)) == consumed
}

/// Whether the focus is the first waiting nonterminal.
pub open spec fn focus_ok(m: Machine) -> bool {
    m.focus == first_nt_leaf(m.tree, frontier(m.tree, 0), base_of(m))
}

/// Whether the walk from every waiting nonterminal leads to the next one.
pub open spec fn walk_ok(m: Machine) -> bool {
    let leaves = frontier(m.tree, 0);
    forall|i: int|
        base_of(m) <= i < leaves.len() && m.tree.nodes[#[trigger] leaves[i]].is_nonterminal()
            ==> m.tree.next_nt_sibling(leaves[i]) == first_nt_leaf(m.tree, leaves, i + 1)
}

/// The invariant of parsing, between two steps on the token `look`, when
/// the tokens `consumed` have been matched.
///
/// The leaves of the tree are the matched leaves and then the waiting
/// leaves. The waiting leaves are the symbols on the stack, the top of the
/// stack first, above the end marker. The matched leaves are terminals and
/// empty symbols, and hold the consumed tokens. The focus is the first
/// waiting nonterminal, and the walk from every waiting nonterminal leads
/// to the next one. Every node conforms to the grammar, and every node of
/// the arena stands in the tree.
pub open spec fn in_step(m: Machine, look: Option<TokenView>, consumed: Seq<TokenView>) -> bool {
    &&& m.wf()
    &&& leaves_ok(m.tree)
    &&& waiting_ok(m, look)
    &&& matched_ok(m, consumed)
    &&& focus_ok(m)
    &&& walk_ok(m)
    &&& conforms_all(m.tree)
    &&& extent(m.tree) == m.tree.nodes.len()
    &&& m.tree.nodes[0] == SymbolView::Other(SymbolKind::Program)
    &&& look matches Some(l) ==> l.wf()
}

/// The leaves of a sequence hold the tokens of its two parts.
pub proof fn lemma_leaf_tokens_concat(t: TreeView, a: Seq<int>, b: Seq<int>)
    ensures
        leaf_tokens(t, a + b) =~= leaf_tokens(t, a) + leaf_tokens(t, b),
    decreases a.len(),
{
    if a.len() == 0 {
        assert(a + b =~= b);
    } else {
        assert((a + b).drop_first() =~= a.drop_first() + b);
        lemma_leaf_tokens_concat(t, a.drop_first(), b);
    }
}

/// Leaves that hold the same symbols in two trees hold the same tokens.
pub proof fn lemma_leaf_tokens_frame(t: TreeView, u: TreeView, leaves: Seq<int>)
    requires
        forall|i: int| 0 <= i < leaves.len() ==> u.nodes[#[trigger] leaves[i]] == t.nodes[leaves[i]],
    ensures
        leaf_tokens(u, leaves) == leaf_tokens(t, leaves),
    decreases leaves.len(),
{
    if leaves.len() > 0 {
        assert(u.nodes[leaves[0]] == t.nodes[leaves[0]]);
        assert forall|i: int| 0 <= i < leaves.drop_first().len() implies u.nodes[
            #[trigger] leaves.drop_first()[i]
        ] == t.nodes[leaves.drop_first()[i]] by {
            assert(leaves.drop_first()[i] == leaves[i + 1]);
        }
        lemma_leaf_tokens_frame(t, u, leaves.drop_first());
    }
}

/// The parser starts in a state that meets the invariant.
pub proof fn lemma_start_invariant(look: Option<TokenView>)
    requires
        look matches Some(l) ==> l.wf(),
    ensures
        in_step(Machine::start(), look, Seq::empty()),
{
    let m = Machine::start();
    let t = m.tree;
    assert(t.nodes =~= seq![SymbolView::Other(SymbolKind::Program)]);
    assert(t.children =~= seq![Seq::<usize>::empty()]);
    assert(t.parents =~= seq![0usize]);
    assert(degree(t, 0) == 0);
    let leaves = frontier(t, 0);
    assert(leaves =~= seq![0int]);
    assert(leaves.subrange(0, 0) =~= Seq::<int>::empty());
    assert(first_nt_leaf(t, leaves, 0) == 0);
    assert(first_nt_leaf(t, leaves, 1) == 0);
    assert(inside_from(t, 0, 0) == 0);
    assert(extent(t) == 1);
    assert(t.next_nt_sibling(0) == 0);
    assert(leaves[0] == 0);
    assert forall|i: int|
        0 <= i < leaves.len() && t.nodes[#[trigger] leaves[i]].is_nonterminal()
            implies t.next_nt_sibling(leaves[i]) == first_nt_leaf(t, leaves, i + 1) by {
        assert(i == 0);
    }
}


/// The symbols that an expansion gives the focus for children: the symbols
/// of the production, or the empty symbol for the empty production.
pub open spec fn expansion(items: Seq<Item>, look: Option<TokenView>) -> Seq<SymbolView> {
    if items.len() == 0 {
        seq![SymbolView::Other(SymbolKind::Empty)]
    } else {
        instantiate(items, look)
    }
}

/// The leaves after a leaf is expanded: the leaves before it, its new
/// children, and the leaves after it.
proof fn lemma_expanded_frontier(t: TreeView, base: int, syms: Seq<SymbolView>)
    requires
        t.wf(),
        t.nodes.len() >= 1,
        frontier(t, 0).no_duplicates(),
        0 <= base < frontier(t, 0).len(),
        0 <= frontier(t, 0)[base] < t.nodes.len(),
        degree(t, frontier(t, 0)[base]) == 0,
        syms.len() >= 1,
        t.nodes.len() + syms.len() <= usize::MAX,
    ensures
        ({
            let leaves = frontier(t, 0);
            frontier(t.add_children(leaves[base], syms), 0) =~= leaves.subrange(0, base) + as_ints(
                fresh(t.nodes.len() as int, syms.len() as int),
            ) + leaves.subrange(base + 1, leaves.len() as int)
        }),
{
    let leaves = frontier(t, 0);
    let f = leaves[base];
    let cs = as_ints(fresh(t.nodes.len() as int, syms.len() as int));
    let a = leaves.subrange(0, base);
    let b = leaves.subrange(base + 1, leaves.len() as int);
    lemma_frontier_expand(t, f, syms, 0);
    assert(leaves =~= a + (seq![f] + b));
    assert(!a.contains(f)) by {
        if a.contains(f) {
            let i = choose|i: int| 0 <= i < a.len() && a[i] == f;
            assert(leaves[i] == leaves[base]);
        }
    }
    assert(!b.contains(f)) by {
        if b.contains(f) {
            let i = choose|i: int| 0 <= i < b.len() && b[i] == f;
            assert(leaves[base + 1 + i] == leaves[base]);
        }
    }
    lemma_replaced_concat(a, seq![f] + b, f, cs);
    lemma_replaced_concat(seq![f], b, f, cs);
    lemma_replaced_absent(a, f, cs);
    lemma_replaced_absent(b, f, cs);
    lemma_replaced_single(f, f, cs);
}

/// Among new children, the first nonterminal leaf is the first
/// nonterminal of their symbols, and after them the search goes on in the
/// leaves that follow.
proof fn lemma_first_nt_leaf_fresh(
    u: TreeView,
    front: Seq<int>,
    n: int,
    syms: Seq<SymbolView>,
    back: Seq<int>,
    j: int,
)
    requires
        0 <= n,
        n + syms.len() <= usize::MAX,
        u.nodes.len() == n + syms.len(),
        forall|i: int| 0 <= i < syms.len() ==> #[trigger] u.nodes[n + i] == syms[i],
        0 <= j <= syms.len(),
    ensures
        first_nt_leaf(
            u,
            front + as_ints(fresh(n, syms.len() as int)) + back,
            front.len() + j,
        ) == (match first_nonterminal(syms, j) {
            Some(i) => n + i,
            None => first_nt_leaf(
                u,
                front + as_ints(fresh(n, syms.len() as int)) + back,
                (front.len() + syms.len()) as int,
            ),
        }),
    decreases syms.len() - j,
{
    let all = front + as_ints(fresh(n, syms.len() as int)) + back;
    if j < syms.len() {
        assert(all[front.len() + j] == n + j);
        assert(u.nodes[n + j] == syms[j]);
        lemma_first_nt_leaf_fresh(u, front, n, syms, back, j + 1);
    }
}

/// After the new children, the first nonterminal leaf is the one that was
/// first after the expanded leaf.
proof fn lemma_first_nt_leaf_tail(
    t: TreeView,
    u: TreeView,
    old: Seq<int>,
    new: Seq<int>,
    shift: int,
    from: int,
)
    requires
        new.len() == old.len() + shift,
        0 <= from <= old.len(),
        0 <= from + shift,
        forall|i: int| from <= i < old.len() ==> #[trigger] new[i + shift] == old[i],
        forall|i: int| from <= i < old.len() ==> u.nodes[#[trigger] old[i]] == t.nodes[old[i]],
    ensures
        first_nt_leaf(u, new, from + shift) == first_nt_leaf(t, old, from),
    decreases old.len() - from,
{
    if from < old.len() {
        assert(new[from + shift] == old[from]);
        assert(u.nodes[old[from]] == t.nodes[old[from]]);
        lemma_first_nt_leaf_tail(t, u, old, new, shift, from + 1);
    }
}

/// Adding one child is adding a list of one child.
proof fn lemma_add_one(t: TreeView, p: int, sym: SymbolView)
    ensures
        t.add_child(p, sym) == t.add_children(p, seq![sym]),
{
    reveal_with_fuel(TreeView::add_children, 2);
    assert(seq![sym].drop_first().len() == 0);
}


/// Whether the state `m` is about to expand the nonterminal `kind` on top
/// of its stack by the production `items`.
pub open spec fn expanding(m: Machine, kind: SymbolKind, items: Seq<Item>, look: Option<TokenView>) -> bool {
    &&& m.wf()
    &&& leaves_ok(m.tree)
    &&& waiting_ok(m, look)
    &&& focus_ok(m)
    &&& m.stack.len() >= 2
    &&& m.stack.last() == SymbolView::Other(kind)
    &&& is_nonterminal_kind(kind)
    &&& production_of(kind, look_tag(look)) == Some(items)
    &&& m.tree.nodes.len() + items.len() + 1 <= usize::MAX
    &&& look matches Some(l) ==> l.wf()
}

/// The state after the expansion.
pub open spec fn expanded(m: Machine, items: Seq<Item>, look: Option<TokenView>) -> Machine {
    expand(Machine { stack: m.stack.drop_last(), ..m }, items, look)
}

/// How many symbols an expansion puts on the stack.
pub open spec fn pushed(items: Seq<Item>) -> int {
    items.len() as int
}

/// What an expansion does to the tree, its frontier and the stack.
pub open spec fn expansion_facts(m: Machine, items: Seq<Item>, look: Option<TokenView>) -> bool {
    let t = m.tree;
    let n = t.nodes.len() as int;
    let leaves = frontier(t, 0);
    let base = base_of(m);
    let syms = expansion(items, look);
    let w = syms.len() as int;
    let m2 = expanded(m, items, look);
    let u = m2.tree;
    let leaves2 = frontier(u, 0);
    &&& 0 <= base < leaves.len()
    &&& leaves[base] == m.focus
    &&& degree(t, m.focus) == 0
    &&& u == t.add_children(m.focus, syms)
    &&& u.wf()
    &&& m2.wf()
    &&& u.nodes.len() == n + w
    &&& leaves2.len() == leaves.len() + w - 1
    &&& m2.stack.len() == m.stack.len() - 1 + pushed(items)
    &&& base_of(m2) == base + w - pushed(items)
    &&& forall|x: int| 0 <= x < n ==> #[trigger] u.nodes[x] == t.nodes[x]
    &&& forall|x: int| n <= x < n + w ==> #[trigger] u.nodes[x] == syms[x - n]
    &&& forall|x: int| 0 <= x < base ==> #[trigger] leaves2[x] == leaves[x]
    &&& forall|x: int| base <= x < base + w ==> #[trigger] leaves2[x] == n + (x - base)
    &&& forall|x: int| base + w <= x < leaves2.len() ==> #[trigger] leaves2[x] == leaves[x - w + 1]
    &&& forall|i: int| base + 1 <= i < leaves.len() ==> leaves2[i + w - 1] == #[trigger] leaves[i]
    &&& forall|q: int| 0 <= q < n && q != m.focus ==> #[trigger] u.children[q] == t.children[q]
    &&& forall|q: int| n <= q < n + w ==> (#[trigger] u.children[q]).len() == 0
    &&& u.children[m.focus] =~= fresh(n, w)
}

proof fn lemma_expansion_facts(m: Machine, kind: SymbolKind, items: Seq<Item>, look: Option<TokenView>)
    requires
        expanding(m, kind, items, look),
    ensures
        expansion_facts(m, items, look),
{
    let t = m.tree;
    let n = t.nodes.len() as int;
    let leaves = frontier(t, 0);
    let k = m.stack.len() - 1;
    let base = base_of(m);
    let f = m.focus;
    let rest = Machine { stack: m.stack.drop_last(), ..m };
    let syms = expansion(items, look);
    let w = syms.len() as int;
    let u = t.add_children(f, syms);
    let m2 = expanded(m, items, look);
    let cs = as_ints(fresh(n, w));
    let a = leaves.subrange(0, base);
    let b = leaves.subrange(base + 1, leaves.len() as int);
    assert(t.nodes[leaves[base + 0]] == m.stack[k - 0]);
    assert(leaves[base] == f);
    lemma_add_one(t, f, SymbolView::Other(SymbolKind::Empty));
    assert(m2.tree == u);
    lemma_expand_wf(rest, items, look);
    lemma_add_children_shape(t, f, syms);
    lemma_expanded_frontier(t, base, syms);
    let leaves2 = frontier(u, 0);
    assert(leaves2 =~= a + cs + b);
    assert forall|x: int| 0 <= x < n implies #[trigger] u.nodes[x] == t.nodes[x] by {
        assert(u.nodes[x] == (t.nodes + syms)[x]);
    }
    assert forall|x: int| n <= x < n + w implies #[trigger] u.nodes[x] == syms[x - n] by {
        assert(u.nodes[x] == (t.nodes + syms)[x]);
    }
    assert(u.children[f] =~= fresh(n, w));
}

proof fn lemma_expand_leaves(m: Machine, kind: SymbolKind, items: Seq<Item>, look: Option<TokenView>)
    requires
        expanding(m, kind, items, look),
    ensures
        leaves_ok(expanded(m, items, look).tree),
{
    lemma_expansion_facts(m, kind, items, look);
    let t = m.tree;
    let n = t.nodes.len() as int;
    let leaves = frontier(t, 0);
    let base = base_of(m);
    let w = expansion(items, look).len() as int;
    let u = expanded(m, items, look).tree;
    let leaves2 = frontier(u, 0);
    assert forall|i: int, j: int|
        0 <= i < leaves2.len() && 0 <= j < leaves2.len() && i != j implies leaves2[i]
        != leaves2[j] by {
        let oi = if i < base {
            i
        } else {
            i - w + 1
        };
        let oj = if j < base {
            j
        } else {
            j - w + 1
        };
        if base <= i < base + w {
            if base <= j < base + w {
            } else {
                assert(leaves2[j] == leaves[oj]);
            }
        } else {
            assert(leaves2[i] == leaves[oi]);
            if base <= j < base + w {
            } else {
                assert(leaves2[j] == leaves[oj]);
                assert(oi != oj);
            }
        }
    }
    assert forall|i: int| 0 <= i < leaves2.len() implies 0 <= (#[trigger] leaves2[i]) < u.nodes.len()
        && degree(u, leaves2[i]) == 0 by {
        if base <= i < base + w {
        } else {
            let oi = if i < base {
                i
            } else {
                i - w + 1
            };
            assert(leaves2[i] == leaves[oi]);
            assert(leaves[oi] != m.focus) by {
                assert(oi != base);
            }
            assert(u.children[leaves[oi]] == t.children[leaves[oi]]);
        }
    }
}

proof fn lemma_expand_waiting(m: Machine, kind: SymbolKind, items: Seq<Item>, look: Option<TokenView>)
    requires
        expanding(m, kind, items, look),
    ensures
        waiting_ok(expanded(m, items, look), look),
{
    lemma_expansion_facts(m, kind, items, look);
    lemma_table_items(kind, look_tag(look));
    let t = m.tree;
    let n = t.nodes.len() as int;
    let leaves = frontier(t, 0);
    let k = m.stack.len() - 1;
    let base = base_of(m);
    let syms = expansion(items, look);
    let w = syms.len() as int;
    let m2 = expanded(m, items, look);
    let u = m2.tree;
    let leaves2 = frontier(u, 0);
    let k2 = m2.stack.len() - 1;
    let base2 = base_of(m2);
    let grown = pushed(items);
    assert forall|i: int| 0 <= i < k2 implies u.nodes[#[trigger] leaves2[base2 + i]] == m2.stack[k2
        - i] by {
        if i < grown {
            assert(leaves2[base2 + i] == n + i);
            assert(u.nodes[n + i] == syms[i]);
            assert(m2.stack[k2 - i] == reversed(syms)[w - 1 - i]);
        } else {
            let oi = i - grown + 1;
            assert(leaves2[base2 + i] == leaves[base + oi]);
            assert(t.nodes[leaves[base + oi]] == m.stack[k - oi]);
            assert(m2.stack[k2 - i] == m.stack[k - oi]);
        }
    }
    assert forall|i: int| 0 <= i < k2 implies may_wait(#[trigger] m2.stack[k2 - i], i == 0, look) by {
        if i < grown {
            assert(m2.stack[k2 - i] == reversed(syms)[w - 1 - i]);
            assert(syms[i] == item_symbol(items[i], look));
            assert(item_ok(items[i], i, look_tag(look)));
        } else {
            let oi = i - grown + 1;
            assert(may_wait(m.stack[k - oi], oi == 0, look));
            assert(m2.stack[k2 - i] == m.stack[k - oi]);
        }
    }
}

proof fn lemma_expand_matched(
    m: Machine,
    kind: SymbolKind,
    items: Seq<Item>,
    look: Option<TokenView>,
    consumed: Seq<TokenView>,
)
    requires
        expanding(m, kind, items, look),
        matched_ok(m, consumed),
    ensures
        matched_ok(expanded(m, items, look), consumed),
{
    lemma_expansion_facts(m, kind, items, look);
    let t = m.tree;
    let n = t.nodes.len() as int;
    let leaves = frontier(t, 0);
    let base = base_of(m);
    let syms = expansion(items, look);
    let m2 = expanded(m, items, look);
    let u = m2.tree;
    let leaves2 = frontier(u, 0);
    let base2 = base_of(m2);
    let a = leaves.subrange(0, base);
    assert forall|j: int| 0 <= j < base2 implies !u.nodes[#[trigger] leaves2[j]].is_nonterminal() by {
        if j < base {
            assert(leaves2[j] == leaves[j]);
            assert(!t.nodes[leaves[j]].is_nonterminal());
        } else {
            assert(leaves2[j] == n);
            assert(u.nodes[n] == syms[0]);
        }
    }
    assert forall|i: int| 0 <= i < a.len() implies u.nodes[#[trigger] a[i]] == t.nodes[a[i]] by {
        assert(a[i] == leaves[i]);
    }
    lemma_leaf_tokens_frame(t, u, a);
    if items.len() == 0 {
        assert(leaves2[base] == n);
        assert(leaves2.subrange(0, base2) =~= a + seq![n]);
        lemma_leaf_tokens_concat(u, a, seq![n]);
        reveal_with_fuel(leaf_tokens, 2);
        assert(seq![n].drop_first().len() == 0);
        assert(u.nodes[n] == syms[0]);
        assert(leaf_tokens(u, seq![n]) =~= Seq::<TokenView>::empty());
    } else {
        assert(leaves2.subrange(0, base2) =~= a);
    }
}

proof fn lemma_expand_focus(
    m: Machine,
    kind: SymbolKind,
    items: Seq<Item>,
    look: Option<TokenView>,
)
    requires
        expanding(m, kind, items, look),
        walk_ok(m),
    ensures
        focus_ok(expanded(m, items, look)),
        walk_ok(expanded(m, items, look)),
{
    lemma_expansion_facts(m, kind, items, look);
    let t = m.tree;
    let n = t.nodes.len() as int;
    let leaves = frontier(t, 0);
    let k = m.stack.len() - 1;
    let base = base_of(m);
    let f = m.focus;
    let syms = expansion(items, look);
    let w = syms.len() as int;
    let m2 = expanded(m, items, look);
    let u = m2.tree;
    let leaves2 = frontier(u, 0);
    let base2 = base_of(m2);
    let a = leaves.subrange(0, base);
    let b = leaves.subrange(base + 1, leaves.len() as int);
    assert(leaves2 =~= a + as_ints(fresh(n, w)) + b) by {
        let want = a + as_ints(fresh(n, w)) + b;
        assert forall|i: int| 0 <= i < leaves2.len() implies leaves2[i] == want[i] by {}
    }
    assert(t.nodes[leaves[base + 0]] == m.stack[k - 0]);
    assert forall|j: int| 0 <= j < w implies #[trigger] u.nodes[n + j] == syms[j] by {
        assert(u.nodes[n + j] == syms[(n + j) - n]);
    }
    lemma_first_nt_leaf_fresh(u, a, n, syms, b, 0);
    assert forall|i: int| base + 1 <= i < leaves.len() implies u.nodes[#[trigger] leaves[i]]
        == t.nodes[leaves[i]] by {}
    assert forall|i: int| base + 1 <= i < leaves.len() implies #[trigger] leaves2[i + (w - 1)]
        == leaves[i] by {
        assert(leaves2[i + w - 1] == leaves[i]);
    }
    lemma_first_nt_leaf_tail(t, u, leaves, leaves2, w - 1, base + 1);
    assert(t.next_nt_sibling(leaves[base]) == first_nt_leaf(t, leaves, base + 1));
    lemma_next_nt_frame(t, f, syms, f);
    crate::parser::lemma_first_nonterminal_bounds(syms, 0);
    if items.len() == 0 {
        assert(first_nonterminal(syms, 0) is None) by {
            reveal_with_fuel(first_nonterminal, 2);
        }
        lemma_first_nt_leaf_fresh(u, a, n, syms, b, 1);
    }
    assert(m2.focus == first_nt_leaf(u, leaves2, base2));
    assert forall|i: int|
        base2 <= i < leaves2.len() && u.nodes[#[trigger] leaves2[i]].is_nonterminal()
            implies u.next_nt_sibling(leaves2[i]) == first_nt_leaf(u, leaves2, i + 1) by {
        if i < base + w {
            let j = i - base;
            assert(leaves2[i] == n + j);
            lemma_next_nt_fresh(t, f, syms, j);
            lemma_first_nt_leaf_fresh(u, a, n, syms, b, j + 1);
        } else {
            let oi = i - w + 1;
            assert(leaves2[i] == leaves[oi]);
            lemma_next_nt_frame(t, f, syms, leaves[oi]);
            assert(t.nodes[leaves[oi]].is_nonterminal());
            assert(t.next_nt_sibling(leaves[oi]) == first_nt_leaf(t, leaves, oi + 1));
            lemma_first_nt_leaf_tail(t, u, leaves, leaves2, w - 1, oi + 1);
        }
    }
}

proof fn lemma_expand_conforms(
    m: Machine,
    kind: SymbolKind,
    items: Seq<Item>,
    look: Option<TokenView>,
)
    requires
        expanding(m, kind, items, look),
        conforms_all(m.tree),
    ensures
        conforms_all(expanded(m, items, look).tree),
{
    lemma_expansion_facts(m, kind, items, look);
    lemma_table_items(kind, look_tag(look));
    let t = m.tree;
    let n = t.nodes.len() as int;
    let leaves = frontier(t, 0);
    let k = m.stack.len() - 1;
    let base = base_of(m);
    let f = m.focus;
    let syms = expansion(items, look);
    let w = syms.len() as int;
    let u = expanded(m, items, look).tree;
    assert(t.nodes[leaves[base + 0]] == m.stack[k - 0]);
    assert forall|idx: int| 0 <= idx < u.nodes.len() implies #[trigger] conforms(u, idx) by {
        if idx == f {
            assert(u.nodes[f] == SymbolView::Other(kind));
            assert(production_of(kind, look_tag(look)) is Some);
            assert(built_from(u, f, items)) by {
                if items.len() > 0 {
                    assert forall|i: int| 0 <= i < items.len() implies matches_item(
                        u.nodes[(#[trigger] u.children[f][i]) as int],
                        items[i],
                    ) by {
                        assert(u.children[f][i] == (n + i) as usize);
                        assert(u.nodes[n + i] == syms[(n + i) - n]);
                        assert(syms[i] == item_symbol(items[i], look));
                        assert(item_ok(items[i], i, look_tag(look)));
                    }
                } else {
                    assert(u.children[f][0] == n as usize);
                    assert(u.nodes[n] == syms[0]);
                }
            }
        } else if idx < n {
            assert(conforms(t, idx));
            assert(u.children[idx] == t.children[idx]);
            if degree(t, idx) > 0 {
                let kd = t.nodes[idx]->Other_0;
                let lk = choose|lk: Option<TokenTag>|
                    (#[trigger] production_of(kd, lk)) is Some && built_from(
                        t,
                        idx,
                        production_of(kd, lk)->0,
                    );
                let its = production_of(kd, lk)->0;
                assert(built_from(u, idx, its)) by {
                    assert forall|i: int| 0 <= i < t.children[idx].len() implies u.nodes[(
                    #[trigger] t.children[idx][i]) as int] == t.nodes[t.children[idx][i] as int] by {
                        assert(idx < t.children[idx][i] < n);
                    }
                }
            }
        } else {
            assert(u.children[idx].len() == 0);
        }
    }
}

proof fn lemma_expand_extent(m: Machine, kind: SymbolKind, items: Seq<Item>, look: Option<TokenView>)
    requires
        expanding(m, kind, items, look),
        extent(m.tree) == m.tree.nodes.len(),
    ensures
        extent(expanded(m, items, look).tree) == expanded(m, items, look).tree.nodes.len(),
{
    lemma_expansion_facts(m, kind, items, look);
    let t = m.tree;
    let syms = expansion(items, look);
    lemma_below_expand(t, m.focus, syms, 0);
    lemma_occurrences_once(frontier(t, 0), base_of(m));
    assert(syms.len() * 1 == syms.len());
}

/// An expansion keeps the invariant of parsing.
pub proof fn lemma_expand_in_step(
    m: Machine,
    kind: SymbolKind,
    items: Seq<Item>,
    look: Option<TokenView>,
    consumed: Seq<TokenView>,
)
    requires
        in_step(m, look, consumed),
        m.stack.len() >= 2,
        m.stack.last() == SymbolView::Other(kind),
        is_nonterminal_kind(kind),
        production_of(kind, look_tag(look)) == Some(items),
        m.tree.nodes.len() + items.len() + 1 <= usize::MAX,
    ensures
        in_step(expanded(m, items, look), look, consumed),
{
    lemma_expansion_facts(m, kind, items, look);
    lemma_expand_leaves(m, kind, items, look);
    lemma_expand_waiting(m, kind, items, look);
    lemma_expand_matched(m, kind, items, look, consumed);
    lemma_expand_focus(m, kind, items, look);
    lemma_expand_conforms(m, kind, items, look);
    lemma_expand_extent(m, kind, items, look);
    assert(expanded(m, items, look).tree.nodes[0] == m.tree.nodes[0]);
}


/// Matching a terminal keeps the invariant of parsing: the leaf on top of
/// the stack joins the matched leaves, and its token the consumed tokens.
proof fn lemma_match_in_step(
    m: Machine,
    tok: TokenView,
    look: TokenView,
    next: Option<TokenView>,
    consumed: Seq<TokenView>,
)
    requires
        in_step(m, Some(look), consumed),
        m.stack.len() >= 2,
        m.stack.last() == SymbolView::Terminal(tok),
        look.tag() == tok.tag(),
        next matches Some(x) ==> x.wf(),
    ensures
        in_step(Machine { stack: m.stack.drop_last(), ..m }, next, consumed.push(look)),
{
    let t = m.tree;
    let leaves = frontier(t, 0);
    let k = m.stack.len() - 1;
    let base = base_of(m);
    let rest = Machine { stack: m.stack.drop_last(), ..m };
    assert(t.nodes[leaves[base + 0]] == m.stack[k - 0]);
    assert(may_wait(m.stack[k - 0], true, Some(look)));
    assert(tok == look);
    assert(base_of(rest) == base + 1);
    assert forall|i: int| 0 <= i < k - 1 implies t.nodes[#[trigger] leaves[base + 1 + i]]
        == rest.stack[k - 1 - i] by {
        assert(t.nodes[leaves[base + (i + 1)]] == m.stack[k - (i + 1)]);
    }
    assert forall|i: int| 0 <= i < k - 1 implies may_wait(
        #[trigger] rest.stack[k - 1 - i],
        i == 0,
        next,
    ) by {
        assert(may_wait(m.stack[k - (i + 1)], false, Some(look)));
    }
    assert forall|j: int| 0 <= j < base + 1 implies !t.nodes[#[trigger] leaves[j]].is_nonterminal() by {
        if j == base {
        }
    }
    assert(leaves.subrange(0, base + 1) =~= leaves.subrange(0, base) + seq![leaves[base]]);
    lemma_leaf_tokens_concat(t, leaves.subrange(0, base), seq![leaves[base]]);
    assert(leaf_tokens(t, seq![leaves[base]]) =~= seq![tok]) by {
        reveal_with_fuel(leaf_tokens, 2);
        assert(seq![leaves[base]].drop_first().len() == 0);
    }
    assert(consumed + seq![tok] =~= consumed.push(look));
}

/// The work of the parser on one token keeps the invariant of parsing:
/// when a token is matched, the invariant holds for the next token with
/// the matched token consumed; and when the end of input is matched, the
/// tree derives the consumed tokens.
pub proof fn lemma_feed_in_step(
    m: Machine,
    look: Option<TokenView>,
    next: Option<TokenView>,
    consumed: Seq<TokenView>,
)
    requires
        in_step(m, look, consumed),
        m.tree.nodes.len() <= MAX_TREE_NODES,
        next matches Some(x) ==> x.wf(),
    ensures
        feed(m, look) matches Ok(m2) ==> m2.tree.nodes.len() <= MAX_TREE_NODES && (match look {
            Some(l) => in_step(m2, next, consumed.push(l)),
            None => derives(m2.tree, consumed) && extent(m2.tree) == m2.tree.nodes.len()
                && m2.tree.nodes.len() > 0 && m2.tree.nodes[0] == SymbolView::Other(
                SymbolKind::Program,
            ),
        }),
    decreases MAX_TREE_NODES - m.tree.nodes.len(), m.stack.len(),
{
    let t = m.tree;
    let leaves = frontier(t, 0);
    let k = m.stack.len() - 1;
    let base = base_of(m);
    let top = m.stack.last();
    let rest = Machine { stack: m.stack.drop_last(), ..m };
    if k == 0 {
        if look is None {
            assert(leaves.subrange(0, base) =~= leaves);
        }
    } else {
        assert(may_wait(m.stack[k - 0], true, look));
        match top {
            SymbolView::Terminal(tok) => {
                if look_tag(look) == Some(tok.tag()) {
                    lemma_match_in_step(m, tok, look->0, next, consumed);
                }
            },
            SymbolView::Other(kind) => {
                if let Some(items) = production_of(kind, look_tag(look)) {
                    lemma_table_items(kind, look_tag(look));
                    let after = expand(rest, items, look);
                    if m.tree.nodes.len() < after.tree.nodes.len() <= MAX_TREE_NODES {
                        lemma_expand_in_step(m, kind, items, look, consumed);
                        lemma_feed_in_step(after, look, next, consumed);
                    }
                }
            },
        }
    }
}

/// The token that lexing finds next, if it finds one.
pub open spec fn look_at(s: Seq<char>, pos: int) -> Option<TokenView> {
    match lex(s, pos) {
        Scan::Token(t, _) => Some(t),
        _ => None,
    }
}

/// Parsing from a state that meets the invariant ends with a tree that
/// derives the consumed tokens and then the tokens of the text.
pub proof fn lemma_run_derives(m: Machine, s: Seq<char>, pos: int, consumed: Seq<TokenView>)
    requires
        0 <= pos <= s.len(),
        in_step(m, look_at(s, pos), consumed),
        m.tree.nodes.len() <= MAX_TREE_NODES,
    ensures
        run(m, s, pos) matches Ok(tree) ==> tokens_from(s, pos) is Ok && derives(
            tree,
            consumed + tokens_from(s, pos)->Ok_0,
        ) && extent(tree) <= MAX_TREE_NODES && tree.nodes.len() > 0 && tree.nodes[0]
            == SymbolView::Other(SymbolKind::Program),
    decreases s.len() - pos,
{
    lemma_lex_advances(s, pos);
    match lex(s, pos) {
        Scan::Error(_) => {},
        Scan::End(_) => {
            lemma_feed_in_step(m, None, None, consumed);
            assert(consumed + Seq::<TokenView>::empty() =~= consumed);
        },
        Scan::Token(t, next) => {
            lemma_lex_yields_lexed(s, next);
            let after = look_at(s, next);
            lemma_feed_in_step(m, Some(t), after, consumed);
            if let Ok(then) = feed(m, Some(t)) {
                lemma_run_derives(then, s, next, consumed.push(t));
                if let Ok(tree) = run(then, s, next) {
                    let rest = tokens_from(s, next)->Ok_0;
                    assert(consumed.push(t) + rest =~= consumed + (seq![t] + rest));
                }
            }
        },
    }
}

/// Soundness of parsing. When a text parses, the text lexes without error
/// and its parse tree derives its tokens: the tree is well formed, the
/// children of every node spell a production that the table holds for the
/// node, and the leaves hold, from left to right, the tokens of the text.
pub proof fn lemma_parse_derives(s: Seq<char>, pos: int)
    requires
        0 <= pos <= s.len(),
    ensures
        parse_of(s, pos) matches Ok(tree) ==> tokens_from(s, pos) is Ok && derives(
            tree,
            tokens_from(s, pos)->Ok_0,
        ) && extent(tree) <= MAX_TREE_NODES && tree.nodes.len() > 0 && tree.nodes[0]
            == SymbolView::Other(SymbolKind::Program),
{
    lemma_lex_yields_lexed(s, pos);
    lemma_start_invariant(look_at(s, pos));
    lemma_run_derives(Machine::start(), s, pos, Seq::empty());
    if let Ok(ts) = tokens_from(s, pos) {
        assert(Seq::<TokenView>::empty() + ts =~= ts);
    }
}


} // verus!
