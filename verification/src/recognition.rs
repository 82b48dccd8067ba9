//! Completeness of parsing: every sequence of tokens that the grammar
//! derives is parsed.

use vstd::prelude::*;
use crate::derivation::{
    below,
    built_from,
    extent,
    inside_from,
    conforms,
    conforms_all,
    degree,
    derives,
    frontier,
    frontier_from,
    leaf_tokens,
    lemma_leaf_tokens_concat,
    lemma_table_items,
    item_ok,
    matches_item,
};
use crate::grammar::{Item, SymbolKind, SymbolView, is_nonterminal_kind, production_of, symbol_of_kind};
use crate::grammar_sets::{
    first,
    first_from,
    follows,
    follows_item,
    lemma_sets_closed,
    lemma_table_first,
    lemma_table_follows,
    nullable,
    nullable_from,
};
use crate::lexer::{Scan, lemma_lex_advances, lex};
use crate::parse_tree::TreeView;
use crate::parser::{
    MAX_TREE_NODES,
    Machine,
    ParseError,
    expand,
    feed,
    instantiate,
    item_symbol,
    lemma_expand_wf,
    look_tag,
    parse_of,
    reversed,
    run,
};
use crate::spelling::tokens_from;
use crate::token::{TokenTag, TokenView, blank_token};

verus! {

/// The token at position `p`, `None` past the last token.
pub open spec fn token_at(ts: Seq<TokenView>, p: int) -> Option<TokenView> {
    if 0 <= p < ts.len() {
        Some(ts[p])
    } else {
        None
    }
}

/// The parser's work on the tokens from position `p` on, step after step:
/// a terminal on top of the stack is matched against the token at hand and
/// the next token is taken; a nonterminal is expanded by the production
/// that the table holds for the token at hand; and the end marker is
/// matched when no token is left.
pub open spec fn go(m: Machine, ts: Seq<TokenView>, p: int) -> Result<Machine, ParseError>
    decreases ts.len() - p, MAX_TREE_NODES - m.tree.nodes.len(), m.stack.len(),
{
    if m.stack.len() == 0 {
        Ok(m)
    } else {
        let look = token_at(ts, p);
        let top = m.stack.last();
        let rest = Machine { stack: m.stack.drop_last(), ..m };
        match top {
            SymbolView::Terminal(t) => {
                if look_tag(look) == Some(t.tag()) {
                    if p < ts.len() {
                        go(rest, ts, p + 1)
                    } else {
                        Ok(rest)
                    }
                } else {
                    Err(ParseError::Syntax { expected: SymbolKind::Terminal, found: look_tag(look) })
                }
            },
            SymbolView::Other(kind) => {
                if kind == SymbolKind::Empty || kind == SymbolKind::Terminal {
                    go(rest, ts, p)
                } else if kind == SymbolKind::End {
                    if look is None {
                        Ok(rest)
                    } else {
                        Err(ParseError::Syntax { expected: SymbolKind::End, found: look_tag(look) })
                    }
                } else {
                    match production_of(kind, look_tag(look)) {
                        None => Err(ParseError::Syntax { expected: kind, found: look_tag(look) }),
                        Some(items) => {
                            let next = expand(rest, items, look);
                            if m.tree.nodes.len() < next.tree.nodes.len() <= MAX_TREE_NODES {
                                go(next, ts, p)
                            } else {
                                Err(ParseError::TreeTooLarge)
                            }
                        },
                    }
                }
            },
        }
    }
}

/// The steps of the parser are its work token by token: the work on the
/// token at hand, and then the steps from the next token on.
pub proof fn lemma_go_feeds(m: Machine, ts: Seq<TokenView>, p: int)
    requires
        0 <= p,
    ensures
        go(m, ts, p) == (match feed(m, token_at(ts, p)) {
            Err(e) => Err(e),
            Ok(then) => if p < ts.len() {
                go(then, ts, p + 1)
            } else {
                Ok(then)
            },
        }),
    decreases MAX_TREE_NODES - m.tree.nodes.len(), m.stack.len(),
{
    if m.stack.len() > 0 {
        let look = token_at(ts, p);
        let top = m.stack.last();
        let rest = Machine { stack: m.stack.drop_last(), ..m };
        match top {
            SymbolView::Terminal(t) => {},
            SymbolView::Other(kind) => {
                if kind == SymbolKind::Empty || kind == SymbolKind::Terminal {
                    lemma_go_feeds(rest, ts, p);
                } else if kind == SymbolKind::End {
                } else {
                    if let Some(items) = production_of(kind, look_tag(look)) {
                        let next = expand(rest, items, look);
                        if m.tree.nodes.len() < next.tree.nodes.len() <= MAX_TREE_NODES {
                            lemma_go_feeds(next, ts, p);
                        }
                    }
                }
            },
        }
    } else {
        if p < ts.len() {
            lemma_go_empty(m, ts, p + 1);
        }
    }
}

proof fn lemma_go_empty(m: Machine, ts: Seq<TokenView>, p: int)
    requires
        m.stack.len() == 0,
    ensures
        go(m, ts, p) == Ok::<Machine, ParseError>(m),
{
}

/// Parsing a text is taking the parser's steps on the tokens of the text.
pub proof fn lemma_run_goes(m: Machine, s: Seq<char>, pos: int, ts: Seq<TokenView>, k: int)
    requires
        0 <= pos <= s.len(),
        0 <= k <= ts.len(),
        tokens_from(s, pos) == Ok::<Seq<TokenView>, crate::lexer::LexError>(
            ts.subrange(k, ts.len() as int),
        ),
    ensures
        match go(m, ts, k) {
            Ok(done) => run(m, s, pos) == Ok::<TreeView, ParseError>(done.tree),
            Err(e) => run(m, s, pos) == Err::<TreeView, ParseError>(e),
        },
    decreases s.len() - pos,
{
    lemma_lex_advances(s, pos);
    lemma_go_feeds(m, ts, k);
    let left = ts.subrange(k, ts.len() as int);
    match lex(s, pos) {
        Scan::Error(_) => {},
        Scan::End(_) => {
            assert(left.len() == 0);
        },
        Scan::Token(t, next) => {
            let rest = tokens_from(s, next)->Ok_0;
            assert(left == seq![t] + rest);
            assert(left[0] == t);
            assert(ts[k] == t);
            assert(rest =~= ts.subrange(k + 1, ts.len() as int)) by {
                assert(left.subrange(1, left.len() as int) =~= rest);
            }
            if let Ok(then) = feed(m, Some(t)) {
                lemma_run_goes(then, s, next, ts, k + 1);
            }
        },
    }
}

/// The tags of a sequence of tokens.
pub open spec fn tags(ts: Seq<TokenView>) -> Seq<TokenTag> {
    Seq::new(ts.len(), |i: int| ts[i].tag())
}

/// The tag of the token at position `p`, `None` past the last token.
pub open spec fn tag_at(ts: Seq<TokenView>, p: int) -> Option<TokenTag> {
    look_tag(token_at(ts, p))
}

/// The tags of the tokens that the leaves hold, in order.
pub open spec fn leaf_tags(d: TreeView, leaves: Seq<int>) -> Seq<TokenTag> {
    tags(leaf_tokens(d, leaves))
}

/// Whether none of the leaves is a nonterminal.
pub open spec fn ground(d: TreeView, leaves: Seq<int>) -> bool {
    forall|i: int| 0 <= i < leaves.len() ==> !d.nodes[#[trigger] leaves[i]].is_nonterminal()
}

proof fn lemma_tags_concat(a: Seq<TokenView>, b: Seq<TokenView>)
    ensures
        tags(a + b) =~= tags(a) + tags(b),
{
}

proof fn lemma_ground_concat(d: TreeView, a: Seq<int>, b: Seq<int>)
    ensures
        ground(d, a + b) <==> ground(d, a) && ground(d, b),
{
    if ground(d, a + b) {
        assert forall|i: int| 0 <= i < a.len() implies !d.nodes[#[trigger] a[i]].is_nonterminal() by {
            assert((a + b)[i] == a[i]);
        }
        assert forall|i: int| 0 <= i < b.len() implies !d.nodes[#[trigger] b[i]].is_nonterminal() by {
            assert((a + b)[a.len() + i] == b[i]);
        }
    }
    if ground(d, a) && ground(d, b) {
        assert forall|i: int| 0 <= i < (a + b).len() implies !d.nodes[
            #[trigger] (a + b)[i]
        ].is_nonterminal() by {
            if i < a.len() {
                assert((a + b)[i] == a[i]);
            } else {
                assert((a + b)[i] == b[i - a.len()]);
            }
        }
    }
}

/// The frontier under the children from the `k`-th on, split at the first
/// of them.
proof fn lemma_frontier_from_split(d: TreeView, x: int, k: int)
    requires
        d.wf(),
        0 <= x < d.nodes.len(),
        0 <= k < degree(d, x),
    ensures
        frontier_from(d, x, k) == frontier(d, d.children[x][k] as int) + frontier_from(d, x, k + 1),
        leaf_tags(d, frontier_from(d, x, k)) =~= leaf_tags(d, frontier(d, d.children[x][k] as int))
            + leaf_tags(d, frontier_from(d, x, k + 1)),
        ground(d, frontier_from(d, x, k)) <==> ground(d, frontier(d, d.children[x][k] as int))
            && ground(d, frontier_from(d, x, k + 1)),
        x < d.children[x][k] < d.nodes.len(),
{
    let c = d.children[x][k] as int;
    assert(x < d.children[x][k] < d.nodes.len());
    lemma_leaf_tokens_concat(d, frontier(d, c), frontier_from(d, x, k + 1));
    lemma_tags_concat(
        leaf_tokens(d, frontier(d, c)),
        leaf_tokens(d, frontier_from(d, x, k + 1)),
    );
    lemma_ground_concat(d, frontier(d, c), frontier_from(d, x, k + 1));
}

/// What the tokens under a node say of the sets: a nonterminal whose
/// leaves hold no token derives nothing, and a nonterminal whose leaves
/// hold tokens can start with the first of them.
pub proof fn lemma_yield_sets(d: TreeView, x: int)
    requires
        d.wf(),
        conforms_all(d),
        0 <= x < d.nodes.len(),
        ground(d, frontier(d, x)),
        d.nodes[x].is_nonterminal(),
    ensures
        leaf_tags(d, frontier(d, x)).len() == 0 ==> nullable(d.nodes[x]->Other_0),
        leaf_tags(d, frontier(d, x)).len() > 0 ==> first(
            d.nodes[x]->Other_0,
            leaf_tags(d, frontier(d, x))[0],
        ),
        degree(d, x) > 0,
    decreases d.nodes.len() - x, degree(d, x) + 1,
{
    let kind = d.nodes[x]->Other_0;
    if degree(d, x) == 0 {
        assert(frontier(d, x)[0] == x);
    } else {
        assert(conforms(d, x));
        let look = choose|look: Option<TokenTag>|
            (#[trigger] production_of(kind, look)) is Some && built_from(
                d,
                x,
                production_of(kind, look)->0,
            );
        let items = production_of(kind, look)->0;
        lemma_sets_closed(kind, look);
        if items.len() == 0 {
            let c = d.children[x][0] as int;
            assert(x < d.children[x][0] < d.nodes.len());
            assert(frontier_from(d, x, 1) =~= Seq::<int>::empty());
            assert(frontier(d, x) =~= frontier(d, c) + frontier_from(d, x, 1));
            assert(degree(d, c) == 0 || degree(d, c) > 0);
            lemma_empty_yield(d, c);
            assert(frontier(d, x) =~= frontier(d, c));
        } else {
            lemma_yield_sets_from(d, x, 0, kind, look);
        }
    }
}

/// An empty symbol holds no token.
proof fn lemma_empty_yield(d: TreeView, c: int)
    requires
        d.wf(),
        conforms_all(d),
        0 <= c < d.nodes.len(),
        d.nodes[c] == SymbolView::Other(SymbolKind::Empty),
    ensures
        leaf_tags(d, frontier(d, c)).len() == 0,
{
    assert(conforms(d, c));
    assert(degree(d, c) == 0);
    assert(frontier(d, c) =~= seq![c]);
    assert(leaf_tokens(d, seq![c]) =~= Seq::<TokenView>::empty()) by {
        reveal_with_fuel(leaf_tokens, 2);
        assert(seq![c].drop_first().len() == 0);
    }
}

/// A terminal holds its token.
proof fn lemma_terminal_yield(d: TreeView, c: int)
    requires
        d.wf(),
        conforms_all(d),
        0 <= c < d.nodes.len(),
        d.nodes[c] is Terminal,
    ensures
        leaf_tags(d, frontier(d, c)) =~= seq![d.nodes[c]->Terminal_0.tag()],
        below(d, c) == 0,
{
    assert(conforms(d, c));
    assert(degree(d, c) == 0);
    assert(frontier(d, c) =~= seq![c]);
    assert(leaf_tokens(d, seq![c]) =~= seq![d.nodes[c]->Terminal_0]) by {
        reveal_with_fuel(leaf_tokens, 2);
        assert(seq![c].drop_first().len() == 0);
    }
}

proof fn lemma_yield_sets_from(d: TreeView, x: int, k: int, kind: SymbolKind, look: Option<TokenTag>)
    requires
        d.wf(),
        conforms_all(d),
        0 <= x < d.nodes.len(),
        d.nodes[x] == SymbolView::Other(kind),
        production_of(kind, look) is Some,
        production_of(kind, look)->0.len() > 0,
        built_from(d, x, production_of(kind, look)->0),
        0 <= k <= degree(d, x),
        ground(d, frontier_from(d, x, k)),
    ensures
        leaf_tags(d, frontier_from(d, x, k)).len() == 0 ==> nullable_from(
            production_of(kind, look)->0,
            k,
        ),
        leaf_tags(d, frontier_from(d, x, k)).len() > 0 ==> first_from(
            production_of(kind, look)->0,
            k,
            leaf_tags(d, frontier_from(d, x, k))[0],
        ),
    decreases d.nodes.len() - x, degree(d, x) - k,
{
    let items = production_of(kind, look)->0;
    if k < degree(d, x) {
        let c = d.children[x][k] as int;
        lemma_frontier_from_split(d, x, k);
        lemma_yield_sets_from(d, x, k + 1, kind, look);
        assert(matches_item(d.nodes[d.children[x][k] as int], items[k]));
        lemma_table_items(kind, look);
        assert(item_ok(items[k], k, look));
        match items[k] {
            Item::T(tag) => {
                lemma_terminal_yield(d, c);
            },
            Item::N(sub) => {
                lemma_yield_sets(d, c);
            },
        }
    } else {
        assert(frontier_from(d, x, k) =~= Seq::<int>::empty());
    }
}


/// Whether two symbols are the same for the parser: the same nonterminal,
/// or terminals of one tag.
pub open spec fn agrees(sym: SymbolView, other: SymbolView) -> bool {
    match (sym, other) {
        (SymbolView::Terminal(a), SymbolView::Terminal(b)) => a.tag() == b.tag(),
        (SymbolView::Other(a), SymbolView::Other(b)) => a == b,
        _ => false,
    }
}

/// Whether the parser goes on to the end from every state with the stack
/// `base` and a tree of at most `size` nodes, on the tokens from position
/// `q` on.
pub open spec fn continues(base: Seq<SymbolView>, size: int, ts: Seq<TokenView>, q: int) -> bool {
    forall|m1: Machine|
        m1.wf() && m1.stack == base && m1.tree.nodes.len() <= size ==> (#[trigger] go(m1, ts, q))
            is Ok
}

/// Whether the top of the stack `stack`, above `base`, holds the symbols
/// of the children of node `x` from the `k`-th on, the `k`-th on top.
pub open spec fn holds_children(stack: Seq<SymbolView>, base: Seq<SymbolView>, d: TreeView, x: int, k: int) -> bool {
    let n = degree(d, x) as int;
    &&& stack.len() == base.len() + (n - k)
    &&& stack.subrange(0, base.len() as int) =~= base
    &&& forall|i: int|
        k <= i < n ==> agrees(
            #[trigger] stack[base.len() + (n - 1 - i)],
            d.nodes[d.children[x][i] as int],
        )
}

/// The symbol of an item agrees with the node that matches the item.
proof fn lemma_item_agrees(item: Item, look: Option<TokenView>, node: SymbolView)
    requires
        matches_item(node, item),
        item is N ==> is_nonterminal_kind(item->N_0),
    ensures
        agrees(item_symbol(item, look), node),
{
}

/// The parser works through a node of a derivation tree: with the symbol
/// of the node on top of the stack and the tokens under the node at hand,
/// it comes to the state where the symbol is gone and the tokens are
/// consumed, and goes on from there.
pub proof fn lemma_node(d: TreeView, x: int, m: Machine, ts: Seq<TokenView>, p: int, q: int)
    requires
        d.wf(),
        conforms_all(d),
        0 <= x < d.nodes.len(),
        ground(d, frontier(d, x)),
        d.nodes[x] is Terminal || d.nodes[x].is_nonterminal(),
        m.wf(),
        m.stack.len() >= 1,
        agrees(m.stack.last(), d.nodes[x]),
        0 <= p <= q <= ts.len(),
        leaf_tags(d, frontier(d, x)) =~= tags(ts).subrange(p, q),
        d.nodes[x] matches SymbolView::Other(kind) ==> follows(kind, tag_at(ts, q)),
        m.tree.nodes.len() + below(d, x) <= MAX_TREE_NODES,
        continues(m.stack.drop_last(), (m.tree.nodes.len() + below(d, x)) as int, ts, q),
    ensures
        go(m, ts, p) is Ok,
    decreases d.nodes.len() - x, degree(d, x) + 1,
{
    let rest = Machine { stack: m.stack.drop_last(), ..m };
    let look = token_at(ts, p);
    match d.nodes[x] {
        SymbolView::Terminal(tok) => {
            lemma_terminal_yield(d, x);
            assert(tags(ts).subrange(p, q).len() == 1);
            assert(tags(ts).subrange(p, q)[0] == tags(ts)[p]);
            assert(q == p + 1);
            assert(rest.wf());
            assert(go(rest, ts, p + 1) is Ok);
        },
        SymbolView::Other(kind) => {
            lemma_yield_sets(d, x);
            assert(m.stack.last() == SymbolView::Other(kind));
            if leaf_tags(d, frontier(d, x)).len() == 0 {
                lemma_table_follows(kind, tag_at(ts, q));
                assert(p == q);
                let items = Seq::<Item>::empty();
                let next = expand(rest, items, look);
                lemma_expand_wf(rest, items, look);
                assert(below(d, x) >= 1);
                assert(next.stack == rest.stack);
                assert(go(next, ts, p) is Ok);
            } else {
                assert(conforms(d, x));
                let other = choose|other: Option<TokenTag>|
                    (#[trigger] production_of(kind, other)) is Some && built_from(
                        d,
                        x,
                        production_of(kind, other)->0,
                    );
                let items = production_of(kind, other)->0;
                let n = degree(d, x) as int;
                if items.len() == 0 {
                    let c = d.children[x][0] as int;
                    assert(x < d.children[x][0] < d.nodes.len());
                    lemma_empty_yield(d, c);
                    assert(frontier_from(d, x, 1) =~= Seq::<int>::empty());
                    assert(frontier(d, x) =~= frontier(d, c));
                }
                assert(items.len() > 0);
                lemma_yield_sets_from(d, x, 0, kind, other);
                let a = leaf_tags(d, frontier(d, x))[0];
                assert(tags(ts).subrange(p, q)[0] == tags(ts)[p]);
                assert(p < q);
                assert(tag_at(ts, p) == Some(a));
                lemma_table_first(kind, other, a);
                lemma_table_items(kind, other);
                let next = expand(rest, items, look);
                lemma_expand_wf(rest, items, look);
                let syms = instantiate(items, look);
                let base = rest.stack;
                assert(next.stack == base + reversed(syms));
                assert forall|i: int| 0 <= i < n implies agrees(
                    #[trigger] next.stack[base.len() + (n - 1 - i)],
                    d.nodes[d.children[x][i] as int],
                ) by {
                    assert(next.stack[base.len() + (n - 1 - i)] == reversed(syms)[n - 1 - i]);
                    assert(syms[i] == item_symbol(items[i], look));
                    assert(matches_item(d.nodes[d.children[x][i] as int], items[i]));
                    assert(item_ok(items[i], i, other));
                    lemma_item_agrees(items[i], look, d.nodes[d.children[x][i] as int]);
                }
                assert(holds_children(next.stack, base, d, x, 0));
                lemma_children(
                    d,
                    x,
                    0,
                    next,
                    ts,
                    p,
                    q,
                    base,
                    (m.tree.nodes.len() + below(d, x)) as int,
                    kind,
                    other,
                );
            }
        },
    }
}

/// The parser works through the children of a node of a derivation tree
/// from the `k`-th on.
pub proof fn lemma_children(
    d: TreeView,
    x: int,
    k: int,
    m: Machine,
    ts: Seq<TokenView>,
    p: int,
    q: int,
    base: Seq<SymbolView>,
    size: int,
    kind: SymbolKind,
    other: Option<TokenTag>,
)
    requires
        d.wf(),
        conforms_all(d),
        0 <= x < d.nodes.len(),
        d.nodes[x] == SymbolView::Other(kind),
        production_of(kind, other) is Some,
        production_of(kind, other)->0.len() > 0,
        built_from(d, x, production_of(kind, other)->0),
        0 <= k <= degree(d, x),
        ground(d, frontier_from(d, x, k)),
        m.wf(),
        holds_children(m.stack, base, d, x, k),
        0 <= p <= q <= ts.len(),
        leaf_tags(d, frontier_from(d, x, k)) =~= tags(ts).subrange(p, q),
        follows(kind, tag_at(ts, q)),
        m.tree.nodes.len() + inside_from(d, x, k) <= size <= MAX_TREE_NODES,
        continues(base, size, ts, q),
    ensures
        go(m, ts, p) is Ok,
    decreases d.nodes.len() - x, degree(d, x) - k,
{
    let items = production_of(kind, other)->0;
    let n = degree(d, x) as int;
    if k == n {
        assert(frontier_from(d, x, k) =~= Seq::<int>::empty());
        assert(p == q);
        assert(m.stack =~= base);
        assert(go(m, ts, q) is Ok);
    } else {
        let c = d.children[x][k] as int;
        lemma_frontier_from_split(d, x, k);
        let mine = leaf_tags(d, frontier(d, c));
        let later = leaf_tags(d, frontier_from(d, x, k + 1));
        let p1 = p + mine.len();
        let whole = tags(ts).subrange(p, q);
        assert(whole =~= mine + later);
        assert(mine =~= tags(ts).subrange(p, p1)) by {
            assert forall|i: int| 0 <= i < mine.len() implies mine[i] == tags(ts).subrange(p, p1)[i] by {
                assert((mine + later)[i] == whole[i]);
            }
        }
        assert(later =~= tags(ts).subrange(p1, q)) by {
            assert forall|i: int| 0 <= i < later.len() implies later[i] == tags(ts).subrange(p1, q)[i] by {
                assert((mine + later)[mine.len() + i] == whole[mine.len() + i]);
            }
        }
        assert(matches_item(d.nodes[d.children[x][k] as int], items[k]));
        lemma_table_items(kind, other);
        assert(item_ok(items[k], k, other));
        assert(agrees(m.stack[base.len() + (n - 1 - k)], d.nodes[d.children[x][k] as int]));
        assert(m.stack.last() == m.stack[base.len() + (n - 1 - k)]);
        // What follows the child can follow its nonterminal.
        if let Item::N(sub) = items[k] {
            lemma_yield_sets_from(d, x, k + 1, kind, other);
            lemma_sets_closed(kind, other);
            if later.len() > 0 {
                assert(tags(ts).subrange(p1, q)[0] == tags(ts)[p1]);
                assert(tag_at(ts, p1) == Some(later[0]));
            } else {
                assert(p1 == q);
            }
            assert(follows_item(kind, items, k, tag_at(ts, p1)));
            assert(follows(sub, tag_at(ts, p1)));
        }
        // After the child, the parser works through the children after it.
        let under = if x < c < d.nodes.len() {
            below(d, c)
        } else {
            0
        };
        assert(inside_from(d, x, k) == under + inside_from(d, x, k + 1));
        let popped = m.stack.drop_last();
        assert forall|m1: Machine|
            m1.wf() && m1.stack == popped && m1.tree.nodes.len() <= m.tree.nodes.len() + below(
                d,
                c,
            ) implies (#[trigger] go(m1, ts, p1)) is Ok by {
            assert(holds_children(m1.stack, base, d, x, k + 1)) by {
                assert(m1.stack.subrange(0, base.len() as int) =~= m.stack.subrange(
                    0,
                    base.len() as int,
                ));
                assert forall|i: int| k + 1 <= i < n implies agrees(
                    #[trigger] m1.stack[base.len() + (n - 1 - i)],
                    d.nodes[d.children[x][i] as int],
                ) by {
                    assert(m1.stack[base.len() + (n - 1 - i)] == m.stack[base.len() + (n - 1 - i)]);
                }
            }
            lemma_children(d, x, k + 1, m1, ts, p1, q, base, size, kind, other);
        }
        assert(continues(popped, (m.tree.nodes.len() + below(d, c)) as int, ts, p1));
        lemma_node(d, c, m, ts, p, p1);
    }
}


/// Completeness of parsing. When the grammar derives the tokens of a text,
/// the text parses: if a tree whose root is the start symbol derives
/// tokens that have, one for one, the tags of the tokens of the text, and
/// the tree has no more nodes than a parse tree may hold, then parsing the
/// text succeeds.
pub proof fn lemma_parse_complete(s: Seq<char>, pos: int, d: TreeView, derived: Seq<TokenView>)
    requires
        0 <= pos <= s.len(),
        tokens_from(s, pos) is Ok,
        derives(d, derived),
        tags(derived) =~= tags(tokens_from(s, pos)->Ok_0),
        d.nodes.len() > 0,
        d.nodes[0] == SymbolView::Other(SymbolKind::Program),
        extent(d) <= MAX_TREE_NODES,
    ensures
        parse_of(s, pos) is Ok,
{
    let ts = tokens_from(s, pos)->Ok_0;
    let m = Machine::start();
    let t = m.tree;
    assert(t.nodes =~= seq![SymbolView::Other(SymbolKind::Program)]);
    assert(t.children =~= seq![Seq::<usize>::empty()]);
    assert(t.parents =~= seq![0usize]);
    assert(m.wf());
    assert(tags(ts).subrange(0, ts.len() as int) =~= tags(ts));
    let base = m.stack.drop_last();
    assert(base =~= seq![SymbolView::Other(SymbolKind::End)]);
    assert forall|m1: Machine|
        m1.wf() && m1.stack == base && m1.tree.nodes.len() <= 1 + below(d, 0) implies (#[trigger] go(
            m1,
            ts,
            ts.len() as int,
        )) is Ok by {
        assert(m1.stack.last() == SymbolView::Other(SymbolKind::End));
    }
    lemma_node(d, 0, m, ts, 0, ts.len() as int);
    assert(ts.subrange(0, ts.len() as int) =~= ts);
    lemma_run_goes(m, s, pos, ts, 0);
}


/// Whether the grammar derives the tokens: some tree whose root is the
/// start symbol, with no more nodes than a parse tree may hold, derives
/// tokens that have, one for one, the tags of these tokens.
pub open spec fn derivable(ts: Seq<TokenView>) -> bool {
    exists|d: TreeView, derived: Seq<TokenView>|
        #[trigger] derives(d, derived) && tags(derived) =~= tags(ts) && d.nodes.len() > 0
            && d.nodes[0] == SymbolView::Other(SymbolKind::Program) && extent(d) <= MAX_TREE_NODES
}

/// A text whose tokens the grammar derives parses.
pub proof fn lemma_derivable_parses(s: Seq<char>, pos: int)
    requires
        0 <= pos <= s.len(),
        tokens_from(s, pos) is Ok,
        derivable(tokens_from(s, pos)->Ok_0),
    ensures
        parse_of(s, pos) is Ok,
{
    let ts = tokens_from(s, pos)->Ok_0;
    let (d, derived) = choose|d: TreeView, derived: Seq<TokenView>|
        #[trigger] derives(d, derived) && tags(derived) =~= tags(ts) && d.nodes.len() > 0
            && d.nodes[0] == SymbolView::Other(SymbolKind::Program) && extent(d) <= MAX_TREE_NODES;
    lemma_parse_complete(s, pos, d, derived);
}


/// What parses. A text parses exactly when it lexes without error and the
/// grammar derives its tokens.
pub proof fn lemma_parses_what_is_derivable(s: Seq<char>, pos: int)
    requires
        0 <= pos <= s.len(),
    ensures
        parse_of(s, pos) is Ok <==> tokens_from(s, pos) is Ok && derivable(
            tokens_from(s, pos)->Ok_0,
        ),
{
    if tokens_from(s, pos) is Ok && derivable(tokens_from(s, pos)->Ok_0) {
        lemma_derivable_parses(s, pos);
    }
    if let Ok(tree) = parse_of(s, pos) {
        crate::derivation::lemma_parse_derives(s, pos);
        let ts = tokens_from(s, pos)->Ok_0;
        assert(derives(tree, ts) && tags(ts) =~= tags(ts) && tree.nodes.len() > 0 && tree.nodes[0]
            == SymbolView::Other(SymbolKind::Program) && extent(tree) <= MAX_TREE_NODES);
    }
}


} // verus!
