//! The shape of syntax trees: how many subtrees the nodes of a tree have,
//! and the law that the tree lowered from a parse tree has the shape that
//! its tags ask for.

use vstd::prelude::*;
use crate::ast::{AstView, NodeTag, NodeView};
use crate::derivation::{built_from, conforms, conforms_all, degree, matches_item};
use crate::grammar::{Item, SymbolKind, SymbolView, production_of};
use crate::lower::{
    Kids,
    assemble,
    chain,
    head_kind,
    head_tag,
    is_statement,
    is_structure,
    kid_count,
    kid_index,
    leaf_of_token,
    lower,
    lower_expression,
    lower_kid,
    lower_statement,
    lower_structure,
    name_with,
    negative_of,
    prepend,
    spine_depth,
    tail_node,
    terminal_tag,
    type_in,
};
use crate::parse_tree::TreeView;
use crate::rebalance::{OpClass, binary, in_class, is_spine, rebalanced, rotate};
use crate::token::{TokenTag, TokenView};
use crate::typing::{is_arithmetic, is_comparison, is_connective};

verus! {

/// Whether a node with this tag may have `n` subtrees: an operator has
/// two; an `if` has three, its condition and its two branches; a
/// declaration has three, its name, its type and its value; and a function
/// has four, its name, its parameters, what it returns and its body.
pub open spec fn arity_rule(tag: NodeTag, n: nat) -> bool {
    if is_arithmetic(tag) || is_comparison(tag) || is_connective(tag) {
        n == 2
    } else if tag == NodeTag::IfStmt || tag == NodeTag::DeclareVar || tag == NodeTag::DeclareConst {
        n == 3
    } else if tag == NodeTag::DeclareFunc {
        n == 4
    } else {
        true
    }
}

/// Whether every node of the tree has as many subtrees as its tag asks
/// for.
pub open spec fn complete(t: AstView) -> bool
    decreases t, t.children.len() + 1,
{
    arity_rule(t.tag(), t.children.len()) && complete_from(t, 0)
}

/// Whether the subtrees of `t` from the `i`-th on are complete.
pub open spec fn complete_from(t: AstView, i: int) -> bool
    decreases t, t.children.len() - i,
{
    if i < 0 || i >= t.children.len() {
        true
    } else {
        complete(t.children[i]) && complete_from(t, i + 1)
    }
}

proof fn lemma_complete_from_of(t: AstView, i: int)
    requires
        0 <= i,
        forall|k: int| i <= k < t.children.len() ==> #[trigger] complete(t.children[k]),
    ensures
        complete_from(t, i),
    decreases t.children.len() - i,
{
    if i < t.children.len() {
        lemma_complete_from_of(t, i + 1);
        assert(complete(t.children[i]));
    }
}

proof fn lemma_complete_from_child(t: AstView, i: int, k: int)
    requires
        0 <= i <= k < t.children.len(),
        complete_from(t, i),
    ensures
        complete(t.children[k]),
    decreases k - i,
{
    if i < k {
        lemma_complete_from_child(t, i + 1, k);
    }
}

/// A tree whose tag has the arity it asks for and whose subtrees are
/// complete is complete.
pub proof fn lemma_complete_of(t: AstView)
    requires
        arity_rule(t.tag(), t.children.len()),
        forall|i: int| 0 <= i < t.children.len() ==> #[trigger] complete(t.children[i]),
    ensures
        complete(t),
{
    lemma_complete_from_of(t, 0);
}

/// The subtrees of a complete tree are complete.
pub proof fn lemma_complete_child(t: AstView, i: int)
    requires
        complete(t),
        0 <= i < t.children.len(),
    ensures
        complete(t.children[i]),
        arity_rule(t.tag(), t.children.len()),
{
    lemma_complete_from_child(t, 0, i);
}

/// A tree of one node whose tag asks for nothing is complete.
pub proof fn lemma_complete_leaf(t: AstView)
    requires
        t.children.len() == 0,
        arity_rule(t.tag(), 0),
    ensures
        complete(t),
{
}

/// A binary tree over complete operands is complete when its tag takes
/// two subtrees.
pub proof fn lemma_complete_binary(op: NodeView, left: AstView, right: AstView)
    requires
        arity_rule(op.tag(), 2),
        complete(left),
        complete(right),
    ensures
        complete(binary(op, left, right)),
{
    let whole = binary(op, left, right);
    assert forall|i: int| 0 <= i < whole.children.len() implies #[trigger] complete(
        whole.children[i],
    ) by {
        if i == 0 {
        } else {
        }
    }
    lemma_complete_of(whole);
}

proof fn lemma_rotate_complete(op: NodeView, left: AstView, right: AstView, class: OpClass, depth: nat)
    requires
        arity_rule(op.tag(), 2),
        complete(left),
        complete(right),
    ensures
        complete(rotate(op, left, right, class, depth)),
    decreases depth,
{
    if depth > 0 && is_spine(right, class) {
        lemma_complete_child(right, 0);
        lemma_complete_child(right, 1);
        let inner = binary(op, left, right.children[0]);
        lemma_complete_binary(op, left, right.children[0]);
        lemma_rotate_complete(right.node, inner, right.children[1], class, (depth - 1) as nat);
    } else {
        lemma_complete_binary(op, left, right);
    }
}

/// Rebalancing keeps a complete tree complete.
pub proof fn lemma_rebalanced_complete(t: AstView, class: OpClass, depth: nat)
    requires
        complete(t),
    ensures
        complete(rebalanced(t, class, depth)),
{
    if depth > 0 && is_spine(t, class) {
        lemma_complete_child(t, 0);
        lemma_complete_child(t, 1);
        lemma_rotate_complete(t.node, t.children[0], t.children[1], class, (depth - 1) as nat);
    }
}

/// The precedence class whose tails a nonterminal holds, if it is the
/// nonterminal of tails.
pub open spec fn tail_class(kind: SymbolKind) -> Option<OpClass> {
    match kind {
        SymbolKind::Expression1 => Some(OpClass::Sum),
        SymbolKind::Term1 => Some(OpClass::Product),
        SymbolKind::Conditional1 => Some(OpClass::Disjunction),
        SymbolKind::BoolTerm1 => Some(OpClass::Conjunction),
        _ => None,
    }
}

/// Whether a node with this tag may have any number of subtrees.
pub open spec fn free(tag: NodeTag) -> bool {
    !is_arithmetic(tag) && !is_comparison(tag) && !is_connective(tag) && tag != NodeTag::IfStmt
        && tag != NodeTag::DeclareVar && tag != NodeTag::DeclareConst && tag != NodeTag::DeclareFunc
}

/// Whether the tree is what a tail lowers to: nothing, or an operator of
/// the class over one complete tree, which waits for its left operand.
pub open spec fn open_tail(x: AstView, class: OpClass) -> bool {
    x == AstView::null() || (x.node is Plain && in_class(x.tag(), class) && x.children.len() == 1
        && complete(x.children[0]))
}

/// Whether the tree is what the rest of a comparison lowers to: nothing,
/// or a comparison over one complete tree, which waits for its left side.
pub open spec fn open_comparison(x: AstView) -> bool {
    x == AstView::null() || (is_comparison(x.tag()) && x.children.len() == 1 && complete(
        x.children[0],
    ))
}

/// Whether tokens of the tag are comparison operators.
pub open spec fn is_comparison_token(tag: TokenTag) -> bool {
    tag == TokenTag::Equals || tag == TokenTag::Neq || tag == TokenTag::Less || tag
        == TokenTag::Greater || tag == TokenTag::Leq || tag == TokenTag::Geq
}

/// Whether what the nonterminal lowers to is a tree whose root may have
/// any number of subtrees.
pub open spec fn lowers_free(kind: SymbolKind) -> bool {
    kind == SymbolKind::ID || kind == SymbolKind::AssignOrFnCall || kind == SymbolKind::IDOrFn || kind
        == SymbolKind::OptIndex
}

/// The shape of what a grammar symbol lowers to: a tail lowers to an open
/// tail of its class; the rest of a comparison and a comparison operator
/// lower to a comparison that waits for its sides; and anything else
/// lowers to a complete tree.
pub open spec fn shape_of(sym: SymbolView, x: AstView) -> bool {
    match sym {
        SymbolView::Terminal(tok) => if is_comparison_token(tok.tag()) {
            is_comparison(x.tag()) && x.children.len() == 0
        } else {
            complete(x) && free(x.tag())
        },
        SymbolView::Other(kind) => match tail_class(kind) {
            Some(class) => open_tail(x, class),
            None => if kind == SymbolKind::Comparison {
                open_comparison(x)
            } else if lowers_free(kind) {
                complete(x) && free(x.tag())
            } else {
                complete(x)
            },
        },
    }
}

/// The shape of what the `i`-th child lowers to: what its symbol says, and
/// nothing for a child that is not there.
pub open spec fn kid_shape(syms: Seq<SymbolView>, i: int, x: AstView) -> bool {
    if 0 <= i < syms.len() {
        shape_of(syms[i], x)
    } else {
        x == AstView::null()
    }
}

/// Whether the lowered children have the shapes that the symbols of the
/// children say.
pub open spec fn kids_shaped(syms: Seq<SymbolView>, k: Kids) -> bool {
    &&& kid_shape(syms, 0, k.a0)
    &&& kid_shape(syms, 1, k.a1)
    &&& kid_shape(syms, 2, k.a2)
    &&& kid_shape(syms, 3, k.a3)
    &&& kid_shape(syms, 4, k.a4)
    &&& kid_shape(syms, 5, k.a5)
    &&& kid_shape(syms, 6, k.a6)
    &&& kid_shape(syms, 7, k.a7)
}

/// Whether the symbols are those of the children of a node of the kind:
/// none, or the symbols of a production that the table holds for the kind.
pub open spec fn spelled(kind: SymbolKind, look: Option<TokenTag>, syms: Seq<SymbolView>) -> bool {
    syms.len() == 0 || (production_of(kind, look) is Some && ({
        let items = production_of(kind, look)->0;
        if items.len() == 0 {
            syms =~= seq![SymbolView::Other(SymbolKind::Empty)]
        } else {
            syms.len() == items.len() && forall|i: int|
                0 <= i < items.len() ==> matches_item(#[trigger] syms[i], items[i])
        }
    }))
}

/// The kind of the first of the symbols.
pub open spec fn first_kind(syms: Seq<SymbolView>) -> SymbolKind {
    if syms.len() > 0 {
        syms[0].kind()
    } else {
        SymbolKind::Empty
    }
}

/// The tag of the first of the symbols, when it is a terminal.
pub open spec fn first_tag(syms: Seq<SymbolView>) -> Option<TokenTag> {
    if syms.len() > 0 {
        terminal_tag(syms[0])
    } else {
        None
    }
}

/// A tree of a node over complete subtrees is complete when the node may
/// have that many.
proof fn lemma_complete_node(node: NodeView, kids: Seq<AstView>)
    requires
        arity_rule(node.tag(), kids.len()),
        forall|i: int| 0 <= i < kids.len() ==> complete(#[trigger] kids[i]),
    ensures
        complete(AstView { node, children: kids }),
{
    let x = AstView { node, children: kids };
    assert forall|i: int| 0 <= i < x.children.len() implies #[trigger] complete(x.children[i]) by {
        assert(complete(kids[i]));
    }
    lemma_complete_of(x);
}

/// A complete tree with one more complete tree before its subtrees is
/// complete when its root may have any number of subtrees.
proof fn lemma_complete_prepend(first: AstView, x: AstView)
    requires
        complete(first),
        complete(x),
        free(x.tag()),
    ensures
        complete(prepend(first, x)),
        free(prepend(first, x).tag()),
{
    let kids = seq![first] + x.children;
    assert forall|i: int| 0 <= i < kids.len() implies complete(#[trigger] kids[i]) by {
        if i > 0 {
            lemma_complete_child(x, i - 1);
            assert(kids[i] == x.children[i - 1]);
        }
    }
    lemma_complete_node(x.node, kids);
}

/// An open operator with its left operand put first is complete.
proof fn lemma_complete_closed(first: AstView, x: AstView)
    requires
        complete(first),
        x.children.len() == 1,
        complete(x.children[0]),
        arity_rule(x.tag(), 2),
    ensures
        complete(prepend(first, x)),
{
    let kids = seq![first] + x.children;
    assert forall|i: int| 0 <= i < kids.len() implies complete(#[trigger] kids[i]) by {
        if i > 0 {
            assert(kids[i] == x.children[i - 1]);
        }
    }
    lemma_complete_node(x.node, kids);
}

proof fn lemma_chain_shape(first: AstView, rest: AstView, class: OpClass, depth: nat)
    requires
        complete(first),
        open_tail(rest, class),
    ensures
        complete(chain(first, rest, class, depth)),
{
    if in_class(rest.tag(), class) {
        lemma_complete_closed(first, rest);
        lemma_rebalanced_complete(prepend(first, rest), class, depth);
    }
}

proof fn lemma_tail_shape(op: NodeTag, operand: AstView, sub: AstView, class: OpClass)
    requires
        in_class(op, class),
        complete(operand),
        open_tail(sub, class),
    ensures
        open_tail(tail_node(op, operand, sub, class), class),
{
    if in_class(sub.tag(), class) {
        lemma_complete_closed(operand, sub);
    }
}

proof fn lemma_structure_shape(
    kind: SymbolKind,
    look: Option<TokenTag>,
    syms: Seq<SymbolView>,
    k: Kids,
)
    requires
        is_structure(kind),
        spelled(kind, look, syms),
        kids_shaped(syms, k),
    ensures
        shape_of(
            SymbolView::Other(kind),
            lower_structure(kind, first_kind(syms), first_tag(syms), syms.len(), k),
        ),
{
    let head = first_kind(syms);
    let tag = first_tag(syms);
    let out = lower_structure(kind, head, tag, syms.len(), k);
    lemma_complete_node(NodeView::Plain(NodeTag::NodeHeader), seq![k.a0, k.a1]);
    lemma_complete_node(NodeView::Plain(NodeTag::NodeList), seq![k.a0, k.a1]);
    lemma_complete_node(NodeView::Plain(NodeTag::NodeSeq), seq![k.a0, k.a1]);
    lemma_complete_node(NodeView::Plain(NodeTag::TLStmtSeq), seq![k.a0, k.a1]);
    lemma_complete_node(NodeView::Plain(NodeTag::ParamList), seq![k.a0, k.a1]);
    lemma_complete_node(NodeView::Plain(NodeTag::DeclareNode), seq![k.a1, k.a2]);
    lemma_complete_node(NodeView::Plain(NodeTag::DeclareFunc), seq![k.a1, k.a3, k.a6, k.a7]);
    lemma_complete_node(NodeView::Plain(NodeTag::Param), seq![k.a0, k.a2]);
    lemma_complete_node(NodeView::Plain(NodeTag::ReturnType), seq![k.a0]);
    lemma_complete_node(
        NodeView::Plain(NodeTag::ReturnType),
        seq![AstView::of(NodeTag::Void, Seq::empty())],
    );
    lemma_complete_node(
        NodeView::Plain(NodeTag::ReturnType),
        seq![AstView::of(NodeTag::NoReturn, Seq::empty())],
    );
}

proof fn lemma_statement_shape(
    kind: SymbolKind,
    look: Option<TokenTag>,
    syms: Seq<SymbolView>,
    k: Kids,
)
    requires
        is_statement(kind),
        spelled(kind, look, syms),
        kids_shaped(syms, k),
    ensures
        shape_of(
            SymbolView::Other(kind),
            lower_statement(kind, first_kind(syms), first_tag(syms), syms.len(), k),
        ),
{
    lemma_complete_node(NodeView::Plain(NodeTag::Index), seq![k.a1, k.a3]);
    lemma_complete_node(NodeView::Plain(NodeTag::Index), seq![k.a1]);
    lemma_complete_node(NodeView::Plain(NodeTag::StmtSeq), seq![k.a0, k.a1]);
    lemma_complete_node(NodeView::Plain(NodeTag::IfStmt), seq![k.a1, k.a2, k.a3]);
    lemma_complete_node(NodeView::Plain(NodeTag::WhileLoop), seq![k.a1, k.a2]);
    lemma_complete_node(NodeView::Plain(NodeTag::ReturnValue), seq![k.a1]);
    lemma_complete_node(NodeView::Plain(NodeTag::DeclareConst), seq![k.a1, k.a3, k.a5]);
    lemma_complete_node(NodeView::Plain(NodeTag::DeclareVar), seq![k.a1, k.a3, k.a5]);
    lemma_complete_node(NodeView::Plain(NodeTag::FnCall), seq![k.a1]);
    lemma_complete_node(NodeView::Plain(NodeTag::Assign), seq![k.a0, k.a2]);
    lemma_complete_node(NodeView::Plain(NodeTag::InputList), seq![k.a0, k.a1]);
    if kind == SymbolKind::Stmt && first_kind(syms) == SymbolKind::ID && syms.len() > 0 {
        if complete(k.a0) && complete(k.a1) && free(k.a1.tag()) {
            lemma_complete_prepend(k.a0, k.a1);
        }
    }
}

proof fn lemma_expression_shape(
    kind: SymbolKind,
    look: Option<TokenTag>,
    syms: Seq<SymbolView>,
    k: Kids,
    depth: nat,
)
    requires
        !is_structure(kind),
        !is_statement(kind),
        spelled(kind, look, syms),
        kids_shaped(syms, k),
    ensures
        shape_of(
            SymbolView::Other(kind),
            lower_expression(kind, first_kind(syms), first_tag(syms), syms.len(), k, depth),
        ),
{
    let head = first_kind(syms);
    let tag = first_tag(syms);
    match kind {
        SymbolKind::Expression => {
            if complete(k.a0) && open_tail(k.a1, OpClass::Sum) {
                lemma_chain_shape(k.a0, k.a1, OpClass::Sum, depth);
            }
        },
        SymbolKind::Term => {
            if complete(k.a0) && open_tail(k.a1, OpClass::Product) {
                lemma_chain_shape(k.a0, k.a1, OpClass::Product, depth);
            }
        },
        SymbolKind::Conditional => {
            if complete(k.a0) && open_tail(k.a1, OpClass::Disjunction) {
                lemma_chain_shape(k.a0, k.a1, OpClass::Disjunction, depth);
            }
        },
        SymbolKind::BoolTerm => {
            if complete(k.a0) && open_tail(k.a1, OpClass::Conjunction) {
                lemma_chain_shape(k.a0, k.a1, OpClass::Conjunction, depth);
            }
        },
        SymbolKind::Expression1 => {
            if complete(k.a1) && open_tail(k.a2, OpClass::Sum) {
                lemma_tail_shape(NodeTag::AddOp, k.a1, k.a2, OpClass::Sum);
                lemma_tail_shape(NodeTag::SubOp, k.a1, k.a2, OpClass::Sum);
            }
        },
        SymbolKind::Term1 => {
            if complete(k.a1) && open_tail(k.a2, OpClass::Product) {
                lemma_tail_shape(NodeTag::MulOp, k.a1, k.a2, OpClass::Product);
                lemma_tail_shape(NodeTag::DivOp, k.a1, k.a2, OpClass::Product);
            }
        },
        SymbolKind::Conditional1 => {
            if complete(k.a1) && open_tail(k.a2, OpClass::Disjunction) {
                lemma_tail_shape(NodeTag::OrOp, k.a1, k.a2, OpClass::Disjunction);
            }
        },
        SymbolKind::BoolTerm1 => {
            if complete(k.a1) && open_tail(k.a2, OpClass::Conjunction) {
                lemma_tail_shape(NodeTag::AndOp, k.a1, k.a2, OpClass::Conjunction);
            }
        },
        SymbolKind::Factor => {
            if head == SymbolKind::ID && syms.len() >= 2 {
                let name = k.a0;
                let sub = k.a1;
                if sub.tag() == NodeTag::Index {
                    lemma_complete_node(name.node, seq![sub]);
                } else if sub.tag() == NodeTag::FnCall {
                    lemma_complete_prepend(name, sub);
                }
            }
        },
        SymbolKind::Primitive => {},
        SymbolKind::Positive => {},
        SymbolKind::IDOrFn => {
            lemma_complete_node(NodeView::Plain(NodeTag::FnCall), seq![k.a1]);
        },
        SymbolKind::BoolExpr => {
            if syms.len() >= 2 && k.a1.tag() != NodeTag::Null {
                lemma_complete_closed(k.a0, k.a1);
            }
        },
        SymbolKind::Comparison => {
            if syms.len() >= 2 {
                let x = AstView { node: k.a0.node, children: seq![k.a1] };
                assert(x.children[0] == k.a1);
            }
        },
        _ => {},
    }
}

/// The symbols of the children of node `idx`, in order.
pub open spec fn child_symbols(t: TreeView, idx: int) -> Seq<SymbolView> {
    Seq::new(degree(t, idx), |i: int| t.nodes[t.children[idx][i] as int])
}

/// The shape of lowered trees. In a parse tree whose every node conforms
/// to the grammar, every node lowers to a tree of the shape that its
/// symbol says: a complete tree, but for tails and comparisons, which wait
/// for an operand.
pub proof fn lemma_lowered_shape(t: TreeView, idx: int)
    requires
        t.wf(),
        conforms_all(t),
        0 <= idx < t.nodes.len(),
    ensures
        shape_of(t.nodes[idx], lower(t, idx)),
    decreases t.nodes.len() - idx,
{
    match t.nodes[idx] {
        SymbolView::Terminal(tok) => {
            let x = leaf_of_token(tok);
            if !is_comparison_token(tok.tag()) {
                lemma_complete_leaf(x);
            }
        },
        SymbolView::Other(kind) => {
            let syms = child_symbols(t, idx);
            let k = Kids {
                a0: lower_kid(t, idx, 0),
                a1: lower_kid(t, idx, 1),
                a2: lower_kid(t, idx, 2),
                a3: lower_kid(t, idx, 3),
                a4: lower_kid(t, idx, 4),
                a5: lower_kid(t, idx, 5),
                a6: lower_kid(t, idx, 6),
                a7: lower_kid(t, idx, 7),
            };
            lemma_kid_shape(t, idx, 0);
            lemma_kid_shape(t, idx, 1);
            lemma_kid_shape(t, idx, 2);
            lemma_kid_shape(t, idx, 3);
            lemma_kid_shape(t, idx, 4);
            lemma_kid_shape(t, idx, 5);
            lemma_kid_shape(t, idx, 6);
            lemma_kid_shape(t, idx, 7);
            assert(kids_shaped(syms, k));
            assert(conforms(t, idx));
            let look = if degree(t, idx) == 0 {
                None
            } else {
                choose|look: Option<TokenTag>|
                    (#[trigger] production_of(kind, look)) is Some && built_from(
                        t,
                        idx,
                        production_of(kind, look)->0,
                    )
            };
            assert(spelled(kind, look, syms)) by {
                if degree(t, idx) > 0 {
                    let items = production_of(kind, look)->0;
                    if items.len() > 0 {
                        assert forall|i: int| 0 <= i < items.len() implies matches_item(
                            #[trigger] syms[i],
                            items[i],
                        ) by {
                            assert(matches_item(t.nodes[t.children[idx][i] as int], items[i]));
                        }
                    }
                }
            }
            assert(head_kind(t, idx) == first_kind(syms) && head_tag(t, idx) == first_tag(syms)) by {
                if degree(t, idx) > 0 {
                    assert(idx < t.children[idx][0] < t.nodes.len());
                }
            }
            assert(kid_count(t, idx) == syms.len());
            if is_structure(kind) {
                lemma_structure_shape(kind, look, syms, k);
            } else if is_statement(kind) {
                lemma_statement_shape(kind, look, syms, k);
            } else {
                lemma_expression_shape(kind, look, syms, k, spine_depth(t, idx));
            }
        },
    }
}

proof fn lemma_kid_shape(t: TreeView, idx: int, j: int)
    requires
        t.wf(),
        conforms_all(t),
        0 <= idx < t.nodes.len(),
        0 <= j,
    ensures
        kid_shape(child_symbols(t, idx), j, lower_kid(t, idx, j)),
    decreases t.nodes.len() - idx, 0nat,
{
    if j < degree(t, idx) {
        let c = t.children[idx][j] as int;
        assert(idx < c < t.nodes.len());
        lemma_lowered_shape(t, c);
    }
}

/// The shape of the syntax tree. The tree that a parse tree lowers to,
/// when every node of the parse tree conforms to the grammar and its root
/// is the start symbol, is complete: every operator has two operands,
/// every `if` its condition and two branches, every declaration its name,
/// type and value, and every function its name, parameters, return type
/// and body.
pub proof fn lemma_lowered_tree_complete(t: TreeView)
    requires
        t.wf(),
        conforms_all(t),
        t.nodes.len() > 0,
        t.nodes[0] == SymbolView::Other(SymbolKind::Program),
    ensures
        complete(lower(t, 0)),
{
    lemma_lowered_shape(t, 0);
}


} // verus!
