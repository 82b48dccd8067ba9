//! Lowering: from the parse tree to the abstract syntax tree.

use vstd::prelude::*;
use crate::ast::{AbstractSyntaxTree, AstView, NodeTag, NodeView, SyntaxTreeNode, lemma_view_children};
use crate::grammar::{GrammarSymbol, SymbolKind, SymbolView};
use crate::parse_tree::{ParseTree, TreeView};
use crate::rebalance::{
    OpClass,
    binary,
    in_class,
    left_nested,
    lemma_left_associative,
    lemma_rebalanced_is_left_nested,
    rebalance,
    rebalanced,
    right_nested,
    tag_in_class,
};
use crate::token::{FloatLiteral, FloatView, Token, TokenTag, TokenView};
use crate::types::{Type, TypeView};

verus! {

/// The index of the `k`-th child of node `idx`, if the node has one and it
/// lies after `idx` in the arena.
pub open spec fn kid_index(t: TreeView, idx: int, k: int) -> Option<int> {
    if 0 <= idx < t.children.len() && 0 <= k < t.children[idx].len() && idx < t.children[idx][k]
        < t.nodes.len() {
        Some(t.children[idx][k] as int)
    } else {
        None
    }
}

/// The number of children of node `idx`.
pub open spec fn kid_count(t: TreeView, idx: int) -> nat {
    if 0 <= idx < t.children.len() {
        t.children[idx].len()
    } else {
        0
    }
}

/// The kind of the first child of node `idx`; the empty production when
/// the node has no child.
pub open spec fn head_kind(t: TreeView, idx: int) -> SymbolKind {
    match kid_index(t, idx, 0) {
        Some(c) => t.nodes[c].kind(),
        None => SymbolKind::Empty,
    }
}

/// The tag of the token of a terminal.
pub open spec fn terminal_tag(sym: SymbolView) -> Option<TokenTag> {
    match sym {
        SymbolView::Terminal(t) => Some(t.tag()),
        _ => None,
    }
}

/// The tag of the first child of node `idx`, when that child is a terminal.
pub open spec fn head_tag(t: TreeView, idx: int) -> Option<TokenTag> {
    match kid_index(t, idx, 0) {
        Some(c) => terminal_tag(t.nodes[c]),
        None => None,
    }
}

/// How many operators the chain of tail productions holds that starts at
/// node `idx`: a tail node that begins with a terminal, its operator,
/// counts one and goes on in its third child.
pub open spec fn tail_depth(t: TreeView, idx: int) -> nat
    decreases t.nodes.len() - idx,
{
    if head_tag(t, idx) is Some {
        match kid_index(t, idx, 2) {
            Some(c) => 1 + tail_depth(t, c),
            None => 1,
        }
    } else {
        0
    }
}

/// How many operators follow the first operand of the expression at node
/// `idx`: the depth of the tail in its second child.
pub open spec fn spine_depth(t: TreeView, idx: int) -> nat {
    match kid_index(t, idx, 1) {
        Some(c) => tail_depth(t, c),
        None => 0,
    }
}

/// The tree `t` with `first` put before its subtrees.
pub open spec fn prepend(first: AstView, t: AstView) -> AstView {
    AstView { node: t.node, children: seq![first] + t.children }
}

/// The node of a tail production `op operand tail`: the operator over the
/// lowered rest of the tail with the operand put first in it, or, at the
/// end of the tail, over the operand alone.
pub open spec fn tail_node(op: NodeTag, operand: AstView, sub: AstView, class: OpClass) -> AstView {
    if in_class(sub.tag(), class) {
        AstView::of(op, seq![prepend(operand, sub)])
    } else {
        AstView::of(op, seq![operand])
    }
}

/// The tree of `first tail`: `first` alone when the tail is empty, and
/// otherwise the left-leaning tree of the right spine that the tail makes
/// with `first` as its first operand.
pub open spec fn chain(first: AstView, tail: AstView, class: OpClass, depth: nat) -> AstView {
    if in_class(tail.tag(), class) {
        rebalanced(prepend(first, tail), class, depth)
    } else {
        first
    }
}

/// The type that a lowered type annotation holds.
pub open spec fn type_in(t: AstView) -> TypeView {
    match t.node {
        NodeView::TypeName(ty) => ty,
        NodeView::Identifier(name) => TypeView::Named(name),
        _ => TypeView::Named(Seq::empty()),
    }
}

/// The number that a lowered array length holds.
pub open spec fn length_in(t: AstView) -> i32 {
    match t.node {
        NodeView::Integer(n) => n,
        _ => 0,
    }
}

/// The negative of a number, and the least number for itself.
pub open spec fn negated(n: i32) -> i32 {
    if n == i32::MIN {
        n
    } else {
        (0 - n) as i32
    }
}

/// The leaf that a terminal lowers to.
pub open spec fn leaf_of_token(t: TokenView) -> AstView {
    match t {
        TokenView::ID(name) => AstView::leaf(NodeView::Identifier(name)),
        TokenView::Integer(n) => AstView::leaf(NodeView::Integer(n)),
        TokenView::Float(f) => AstView::leaf(NodeView::Float(f)),
        TokenView::Character(c) => AstView::leaf(NodeView::Character(c)),
        TokenView::StringLiteral(_) => AstView::null(),
        TokenView::Plain(tag) => match tag {
            TokenTag::Equals => AstView::of(NodeTag::CompEq, Seq::empty()),
            TokenTag::Neq => AstView::of(NodeTag::CompNeq, Seq::empty()),
            TokenTag::Less => AstView::of(NodeTag::CompLess, Seq::empty()),
            TokenTag::Greater => AstView::of(NodeTag::CompGreater, Seq::empty()),
            TokenTag::Leq => AstView::of(NodeTag::CompLeq, Seq::empty()),
            TokenTag::Geq => AstView::of(NodeTag::CompGeq, Seq::empty()),
            TokenTag::True => AstView::of(NodeTag::True, Seq::empty()),
            TokenTag::False => AstView::of(NodeTag::False, Seq::empty()),
            TokenTag::Int => AstView::leaf(NodeView::TypeName(TypeView::Int)),
            TokenTag::FloatKW => AstView::leaf(NodeView::TypeName(TypeView::Float)),
            TokenTag::Bool => AstView::leaf(NodeView::TypeName(TypeView::Bool)),
            TokenTag::Char => AstView::leaf(NodeView::TypeName(TypeView::Char)),
            _ => AstView::null(),
        },
    }
}

/// The lowered children of a node, the first eight of them; a child the
/// node does not have stands as the `Null` tree.
pub struct Kids {
    pub a0: AstView,
    pub a1: AstView,
    pub a2: AstView,
    pub a3: AstView,
    pub a4: AstView,
    pub a5: AstView,
    pub a6: AstView,
    pub a7: AstView,
}

/// What a nonterminal of the program structure lowers to: nodes, their
/// headers and dependency lists, functions, parameters and types.
pub open spec fn lower_structure(
    kind: SymbolKind,
    head: SymbolKind,
    tag: Option<TokenTag>,
    count: nat,
    k: Kids,
) -> AstView {
    match kind {
        SymbolKind::ID => k.a0,
        SymbolKind::NodeHeader => AstView::of(NodeTag::NodeHeader, seq![k.a0, k.a1]),
        SymbolKind::OptIDList => if count == 1 {
            AstView::null()
        } else {
            k.a1
        },
        SymbolKind::NodeList => AstView::of(NodeTag::NodeList, seq![k.a0, k.a1]),
        SymbolKind::NodeRest => if tag == Some(TokenTag::Comma) {
            k.a1
        } else {
            AstView::null()
        },
        SymbolKind::NodeNT => AstView::of(NodeTag::DeclareNode, seq![k.a1, k.a2]),
        SymbolKind::Program => if head == SymbolKind::NodeNT {
            AstView::of(NodeTag::NodeSeq, seq![k.a0, k.a1])
        } else {
            AstView::null()
        },
        SymbolKind::NodeBlock => k.a1,
        SymbolKind::TLStmtList => if head == SymbolKind::TLStmt {
            AstView::of(NodeTag::TLStmtSeq, seq![k.a0, k.a1])
        } else {
            AstView::null()
        },
        SymbolKind::TLStmt => if head == SymbolKind::Func {
            k.a0
        } else {
            AstView::null()
        },
        SymbolKind::Func => AstView::of(NodeTag::DeclareFunc, seq![k.a1, k.a3, k.a6, k.a7]),
        SymbolKind::ParamList => if head == SymbolKind::Param {
            AstView::of(NodeTag::ParamList, seq![k.a0, k.a1])
        } else {
            AstView::null()
        },
        SymbolKind::Param => AstView::of(NodeTag::Param, seq![k.a0, k.a2]),
        SymbolKind::ParamRest => if tag == Some(TokenTag::Comma) {
            k.a1
        } else {
            AstView::null()
        },
        SymbolKind::ReturnType => if head == SymbolKind::Type {
            AstView::of(NodeTag::ReturnType, seq![k.a0])
        } else if tag == Some(TokenTag::LeftParen) {
            AstView::of(NodeTag::ReturnType, seq![AstView::of(NodeTag::Void, Seq::empty())])
        } else if tag == Some(TokenTag::Not) {
            AstView::of(NodeTag::ReturnType, seq![AstView::of(NodeTag::NoReturn, Seq::empty())])
        } else {
            AstView::null()
        },
        SymbolKind::Type => if tag == Some(TokenTag::LeftBracket) {
            AstView::leaf(
                NodeView::TypeName(TypeView::Array(Box::new(type_in(k.a1)), length_in(k.a3))),
            )
        } else if head == SymbolKind::ID || tag is Some {
            AstView::leaf(NodeView::TypeName(type_in(k.a0)))
        } else {
            AstView::null()
        },
        SymbolKind::Array => k.a1,
        SymbolKind::ArrLen => if tag == Some(TokenTag::Integer) {
            k.a0
        } else {
            AstView::null()
        },
        _ => AstView::null(),
    }
}

/// What a nonterminal of a function body lowers to: blocks, statements,
/// definitions, index lists and argument lists.
pub open spec fn lower_statement(
    kind: SymbolKind,
    head: SymbolKind,
    tag: Option<TokenTag>,
    count: nat,
    k: Kids,
) -> AstView {
    match kind {
        SymbolKind::OptIndex => if tag == Some(TokenTag::LeftBracket) {
            if count > 3 {
                AstView::of(NodeTag::Index, seq![k.a1, k.a3])
            } else {
                AstView::of(NodeTag::Index, seq![k.a1])
            }
        } else {
            AstView::null()
        },
        SymbolKind::Block => k.a1,
        SymbolKind::StmtList => if head == SymbolKind::Empty {
            AstView::null()
        } else {
            AstView::of(NodeTag::StmtSeq, seq![k.a0, k.a1])
        },
        SymbolKind::CondOrArr => k.a0,
        SymbolKind::Stmt => if tag == Some(TokenTag::If) {
            AstView::of(NodeTag::IfStmt, seq![k.a1, k.a2, k.a3])
        } else if head == SymbolKind::Definition {
            k.a0
        } else if tag == Some(TokenTag::While) {
            AstView::of(NodeTag::WhileLoop, seq![k.a1, k.a2])
        } else if head == SymbolKind::ID {
            prepend(k.a0, k.a1)
        } else if tag == Some(TokenTag::Return) {
            AstView::of(NodeTag::ReturnValue, seq![k.a1])
        } else {
            AstView::null()
        },
        SymbolKind::Definition => if tag == Some(TokenTag::Const) {
            AstView::of(NodeTag::DeclareConst, seq![k.a1, k.a3, k.a5])
        } else if tag == Some(TokenTag::Var) {
            AstView::of(NodeTag::DeclareVar, seq![k.a1, k.a3, k.a5])
        } else {
            AstView::null()
        },
        SymbolKind::OptElse => if tag == Some(TokenTag::Else) {
            k.a1
        } else {
            AstView::null()
        },
        SymbolKind::AssignOrFnCall => if tag == Some(TokenTag::LeftParen) {
            AstView::of(NodeTag::FnCall, seq![k.a1])
        } else if head == SymbolKind::OptIndex {
            AstView::of(NodeTag::Assign, seq![k.a0, k.a2])
        } else {
            AstView::null()
        },
        SymbolKind::InputList => if head == SymbolKind::CondOrArr {
            AstView::of(NodeTag::InputList, seq![k.a0, k.a1])
        } else {
            AstView::null()
        },
        SymbolKind::InputRest => if tag == Some(TokenTag::Comma) {
            k.a1
        } else {
            AstView::null()
        },
        _ => AstView::null(),
    }
}

/// A name with what follows it in a factor: the name alone, the name over
/// its index list, or a call of the name with its arguments.
pub open spec fn name_with(name: AstView, sub: AstView) -> AstView {
    if sub.tag() == NodeTag::Null {
        name
    } else if sub.tag() == NodeTag::Index {
        AstView { node: name.node, children: seq![sub] }
    } else if sub.tag() == NodeTag::FnCall {
        prepend(name, sub)
    } else {
        AstView::null()
    }
}

/// The negative of a lowered number.
pub open spec fn negative_of(sub: AstView) -> AstView {
    match sub.node {
        NodeView::Integer(n) => AstView::leaf(NodeView::Integer(negated(n))),
        NodeView::Float(f) => AstView::leaf(
            NodeView::Float(FloatView { negative: !f.negative, digits: f.digits }),
        ),
        _ => AstView::null(),
    }
}

/// What a nonterminal of an expression lowers to.
pub open spec fn lower_expression(
    kind: SymbolKind,
    head: SymbolKind,
    tag: Option<TokenTag>,
    count: nat,
    k: Kids,
    depth: nat,
) -> AstView {
    match kind {
        SymbolKind::Expression => chain(k.a0, k.a1, OpClass::Sum, depth),
        SymbolKind::Expression1 => if tag == Some(TokenTag::Add) {
            tail_node(NodeTag::AddOp, k.a1, k.a2, OpClass::Sum)
        } else if tag == Some(TokenTag::Sub) {
            tail_node(NodeTag::SubOp, k.a1, k.a2, OpClass::Sum)
        } else {
            AstView::null()
        },
        SymbolKind::Term => if head == SymbolKind::Factor {
            chain(k.a0, k.a1, OpClass::Product, depth)
        } else if tag == Some(TokenTag::Character) {
            k.a0
        } else {
            AstView::null()
        },
        SymbolKind::Term1 => if tag == Some(TokenTag::Mul) {
            tail_node(NodeTag::MulOp, k.a1, k.a2, OpClass::Product)
        } else if tag == Some(TokenTag::Div) {
            tail_node(NodeTag::DivOp, k.a1, k.a2, OpClass::Product)
        } else {
            AstView::null()
        },
        SymbolKind::Factor => if head == SymbolKind::Primitive {
            k.a0
        } else if head == SymbolKind::ID {
            name_with(k.a0, k.a1)
        } else if tag == Some(TokenTag::LeftParen) {
            k.a1
        } else {
            AstView::null()
        },
        SymbolKind::Primitive => if tag == Some(TokenTag::Sub) {
            negative_of(k.a1)
        } else if head == SymbolKind::Positive || tag == Some(TokenTag::True) || tag == Some(
            TokenTag::False,
        ) {
            k.a0
        } else {
            AstView::null()
        },
        SymbolKind::Positive => if tag == Some(TokenTag::Integer) || tag == Some(TokenTag::Float) {
            k.a0
        } else {
            AstView::null()
        },
        SymbolKind::IDOrFn => if tag == Some(TokenTag::LeftParen) {
            AstView::of(NodeTag::FnCall, seq![k.a1])
        } else if head == SymbolKind::OptIndex {
            k.a0
        } else {
            AstView::null()
        },
        SymbolKind::Conditional => chain(k.a0, k.a1, OpClass::Disjunction, depth),
        SymbolKind::Conditional1 => if tag == Some(TokenTag::LogicalOr) {
            tail_node(NodeTag::OrOp, k.a1, k.a2, OpClass::Disjunction)
        } else {
            AstView::null()
        },
        SymbolKind::BoolTerm => chain(k.a0, k.a1, OpClass::Conjunction, depth),
        SymbolKind::BoolTerm1 => if tag == Some(TokenTag::LogicalAnd) {
            tail_node(NodeTag::AndOp, k.a1, k.a2, OpClass::Conjunction)
        } else {
            AstView::null()
        },
        SymbolKind::BoolExpr => if k.a1.tag() == NodeTag::Null {
            k.a0
        } else {
            prepend(k.a0, k.a1)
        },
        SymbolKind::Comparison => if head == SymbolKind::Empty {
            AstView::null()
        } else {
            AstView { node: k.a0.node, children: seq![k.a1] }
        },
        _ => AstView::null(),
    }
}

/// Whether the nonterminal belongs to the program structure.
pub open spec fn is_structure(kind: SymbolKind) -> bool {
    kind == SymbolKind::ID || kind == SymbolKind::NodeHeader || kind == SymbolKind::OptIDList || kind
        == SymbolKind::NodeList || kind == SymbolKind::NodeRest || kind == SymbolKind::NodeNT || kind
        == SymbolKind::Program || kind == SymbolKind::NodeBlock || kind == SymbolKind::TLStmtList
        || kind == SymbolKind::TLStmt || kind == SymbolKind::Func || kind == SymbolKind::ParamList
        || kind == SymbolKind::Param || kind == SymbolKind::ParamRest || kind
        == SymbolKind::ReturnType || kind == SymbolKind::Type || kind == SymbolKind::Array || kind
        == SymbolKind::ArrLen
}

/// Whether the nonterminal belongs to function bodies.
pub open spec fn is_statement(kind: SymbolKind) -> bool {
    kind == SymbolKind::OptIndex || kind == SymbolKind::Block || kind == SymbolKind::StmtList || kind
        == SymbolKind::CondOrArr || kind == SymbolKind::Stmt || kind == SymbolKind::Definition || kind
        == SymbolKind::OptElse || kind == SymbolKind::AssignOrFnCall || kind == SymbolKind::InputList
        || kind == SymbolKind::InputRest
}

/// What a grammar symbol lowers to, given the kind and tag of its first
/// child, the number of its children, its lowered children, and the number
/// of operators in the tail of an expression.
pub open spec fn assemble(
    sym: SymbolView,
    head: SymbolKind,
    tag: Option<TokenTag>,
    count: nat,
    k: Kids,
    depth: nat,
) -> AstView {
    match sym {
        SymbolView::Terminal(t) => leaf_of_token(t),
        SymbolView::Other(kind) => if is_structure(kind) {
            lower_structure(kind, head, tag, count, k)
        } else if is_statement(kind) {
            lower_statement(kind, head, tag, count, k)
        } else {
            lower_expression(kind, head, tag, count, k, depth)
        },
    }
}

/// The syntax tree that the parse-tree node `idx` lowers to; the `Null`
/// tree for an index outside the arena.
pub open spec fn lower(t: TreeView, idx: int) -> AstView
    decreases t.nodes.len() - idx, 1nat,
{
    if 0 <= idx < t.nodes.len() {
        assemble(
            t.nodes[idx],
            head_kind(t, idx),
            head_tag(t, idx),
            kid_count(t, idx),
            Kids {
                a0: lower_kid(t, idx, 0),
                a1: lower_kid(t, idx, 1),
                a2: lower_kid(t, idx, 2),
                a3: lower_kid(t, idx, 3),
                a4: lower_kid(t, idx, 4),
                a5: lower_kid(t, idx, 5),
                a6: lower_kid(t, idx, 6),
                a7: lower_kid(t, idx, 7),
            },
            spine_depth(t, idx),
        )
    } else {
        AstView::null()
    }
}

/// The syntax tree that the `k`-th child of node `idx` lowers to; the
/// `Null` tree when the node has no such child.
pub open spec fn lower_kid(t: TreeView, idx: int, k: int) -> AstView
    decreases t.nodes.len() - idx, 0nat,
{
    match kid_index(t, idx, k) {
        Some(c) => lower(t, c),
        None => AstView::null(),
    }
}

/// The tag of the token of a terminal.
pub fn terminal_tag_of(sym: &GrammarSymbol) -> (r: Option<TokenTag>)
    ensures
        r == terminal_tag(sym@),
{
    match sym {
        GrammarSymbol::Terminal(t) => Some(t.tag()),
        _ => None,
    }
}

/// Whether `tag` is the tag `t`.
fn is(tag: Option<TokenTag>, t: TokenTag) -> (r: bool)
    ensures
        r == (tag == Some(t)),
{
    match tag {
        Some(k) => k == t,
        None => false,
    }
}

/// The leaf that a terminal lowers to.
pub fn leaf(t: &Token) -> (r: AbstractSyntaxTree)
    ensures
        r@ == leaf_of_token(t@),
{
    match t {
        Token::ID(name) => AbstractSyntaxTree::leaf(SyntaxTreeNode::Identifier(name.clone())),
        Token::Integer(n) => AbstractSyntaxTree::leaf(SyntaxTreeNode::Integer(*n)),
        Token::Float(f) => AbstractSyntaxTree::leaf(SyntaxTreeNode::Float(f.clone())),
        Token::Character(c) => AbstractSyntaxTree::leaf(SyntaxTreeNode::Character(*c)),
        Token::Equals => AbstractSyntaxTree::leaf(SyntaxTreeNode::CompEq),
        Token::Neq => AbstractSyntaxTree::leaf(SyntaxTreeNode::CompNeq),
        Token::Less => AbstractSyntaxTree::leaf(SyntaxTreeNode::CompLess),
        Token::Greater => AbstractSyntaxTree::leaf(SyntaxTreeNode::CompGreater),
        Token::Leq => AbstractSyntaxTree::leaf(SyntaxTreeNode::CompLeq),
        Token::Geq => AbstractSyntaxTree::leaf(SyntaxTreeNode::CompGeq),
        Token::True => AbstractSyntaxTree::leaf(SyntaxTreeNode::True),
        Token::False => AbstractSyntaxTree::leaf(SyntaxTreeNode::False),
        Token::Int => AbstractSyntaxTree::leaf(SyntaxTreeNode::TypeName(Type::Int)),
        Token::FloatKW => AbstractSyntaxTree::leaf(SyntaxTreeNode::TypeName(Type::Float)),
        Token::Bool => AbstractSyntaxTree::leaf(SyntaxTreeNode::TypeName(Type::Bool)),
        Token::Char => AbstractSyntaxTree::leaf(SyntaxTreeNode::TypeName(Type::Char)),
        _ => AbstractSyntaxTree::new(),
    }
}

/// The tree of a node without payload and without subtrees.
fn bare(tag: NodeTag) -> (r: AbstractSyntaxTree)
    requires
        crate::ast::blank_node(tag) == NodeView::Plain(tag),
    ensures
        r@ == AstView::of(tag, Seq::empty()),
{
    AbstractSyntaxTree::leaf(SyntaxTreeNode::of_tag(tag))
}

/// The tree of a node over one subtree.
fn over1(node: SyntaxTreeNode, a: AbstractSyntaxTree) -> (r: AbstractSyntaxTree)
    ensures
        r@ == (AstView { node: node@, children: seq![a@] }),
{
    let mut kids: Vec<AbstractSyntaxTree> = Vec::new();
    kids.push(a);
    let r = AbstractSyntaxTree::with(node, kids);
    assert(r@.children =~= seq![a@]);
    r
}

/// The tree of a node over two subtrees.
fn over2(node: SyntaxTreeNode, a: AbstractSyntaxTree, b: AbstractSyntaxTree) -> (r:
    AbstractSyntaxTree)
    ensures
        r@ == (AstView { node: node@, children: seq![a@, b@] }),
{
    let mut kids: Vec<AbstractSyntaxTree> = Vec::new();
    kids.push(a);
    kids.push(b);
    let r = AbstractSyntaxTree::with(node, kids);
    assert(r@.children =~= seq![a@, b@]);
    r
}

/// The tree of a node over three subtrees.
fn over3(
    node: SyntaxTreeNode,
    a: AbstractSyntaxTree,
    b: AbstractSyntaxTree,
    c: AbstractSyntaxTree,
) -> (r: AbstractSyntaxTree)
    ensures
        r@ == (AstView { node: node@, children: seq![a@, b@, c@] }),
{
    let mut kids: Vec<AbstractSyntaxTree> = Vec::new();
    kids.push(a);
    kids.push(b);
    kids.push(c);
    let r = AbstractSyntaxTree::with(node, kids);
    assert(r@.children =~= seq![a@, b@, c@]);
    r
}

/// The tree of a node over four subtrees.
fn over4(
    node: SyntaxTreeNode,
    a: AbstractSyntaxTree,
    b: AbstractSyntaxTree,
    c: AbstractSyntaxTree,
    d: AbstractSyntaxTree,
) -> (r: AbstractSyntaxTree)
    ensures
        r@ == (AstView { node: node@, children: seq![a@, b@, c@, d@] }),
{
    let mut kids: Vec<AbstractSyntaxTree> = Vec::new();
    kids.push(a);
    kids.push(b);
    kids.push(c);
    kids.push(d);
    let r = AbstractSyntaxTree::with(node, kids);
    assert(r@.children =~= seq![a@, b@, c@, d@]);
    r
}

/// Puts `first` before the subtrees of `t`.
fn put_first(first: AbstractSyntaxTree, t: AbstractSyntaxTree) -> (r: AbstractSyntaxTree)
    ensures
        r@ == prepend(first@, t@),
{
    proof {
        lemma_view_children(&t);
    }
    let AbstractSyntaxTree { node, children } = t;
    let mut children = children;
    children.insert(0, first);
    let r = AbstractSyntaxTree::with(node, children);
    assert(r@.children =~= seq![first@] + t@.children);
    r
}

fn tail(op: NodeTag, operand: AbstractSyntaxTree, sub: AbstractSyntaxTree, class: OpClass) -> (r:
    AbstractSyntaxTree)
    requires
        crate::ast::blank_node(op) == NodeView::Plain(op),
    ensures
        r@ == tail_node(op, operand@, sub@, class),
{
    if tag_in_class(sub.tag(), class) {
        over1(SyntaxTreeNode::of_tag(op), put_first(operand, sub))
    } else {
        over1(SyntaxTreeNode::of_tag(op), operand)
    }
}

fn chained(first: AbstractSyntaxTree, rest: AbstractSyntaxTree, class: OpClass, depth: usize) -> (r:
    AbstractSyntaxTree)
    ensures
        r@ == chain(first@, rest@, class, depth as nat),
{
    if tag_in_class(rest.tag(), class) {
        rebalance(put_first(first, rest), class, depth)
    } else {
        first
    }
}

fn type_from(t: AbstractSyntaxTree) -> (r: Type)
    ensures
        r@ == type_in(t@),
{
    match t.node {
        SyntaxTreeNode::TypeName(ty) => ty,
        SyntaxTreeNode::Identifier(name) => Type::Named(name),
        _ => Type::Named(String::new()),
    }
}

fn length_from(t: &AbstractSyntaxTree) -> (r: i32)
    ensures
        r == length_in(t@),
{
    match t.node {
        SyntaxTreeNode::Integer(n) => n,
        _ => 0,
    }
}

fn named(name: AbstractSyntaxTree, sub: AbstractSyntaxTree) -> (r: AbstractSyntaxTree)
    ensures
        r@ == name_with(name@, sub@),
{
    match sub.tag() {
        NodeTag::Null => name,
        NodeTag::Index => over1(name.node, sub),
        NodeTag::FnCall => put_first(name, sub),
        _ => AbstractSyntaxTree::new(),
    }
}

fn negative(sub: AbstractSyntaxTree) -> (r: AbstractSyntaxTree)
    ensures
        r@ == negative_of(sub@),
{
    match sub.node {
        SyntaxTreeNode::Integer(n) => AbstractSyntaxTree::leaf(
            SyntaxTreeNode::Integer(
                if n == i32::MIN {
                    n
                } else {
                    0 - n
                },
            ),
        ),
        SyntaxTreeNode::Float(f) => AbstractSyntaxTree::leaf(
            SyntaxTreeNode::Float(FloatLiteral { negative: !f.negative, digits: f.digits }),
        ),
        _ => AbstractSyntaxTree::new(),
    }
}

/// The lowered children of a node, the first eight of them.
pub struct Lowered {
    pub a0: AbstractSyntaxTree,
    pub a1: AbstractSyntaxTree,
    pub a2: AbstractSyntaxTree,
    pub a3: AbstractSyntaxTree,
    pub a4: AbstractSyntaxTree,
    pub a5: AbstractSyntaxTree,
    pub a6: AbstractSyntaxTree,
    pub a7: AbstractSyntaxTree,
}

impl View for Lowered {
    type V = Kids;

    open spec fn view(&self) -> Kids {
        Kids {
            a0: self.a0@,
            a1: self.a1@,
            a2: self.a2@,
            a3: self.a3@,
            a4: self.a4@,
            a5: self.a5@,
            a6: self.a6@,
            a7: self.a7@,
        }
    }
}

fn structure(kind: SymbolKind, head: SymbolKind, tag: Option<TokenTag>, count: usize, k: Lowered) -> (r:
    AbstractSyntaxTree)
    ensures
        r@ == lower_structure(kind, head, tag, count as nat, k@),
{
    match kind {
        SymbolKind::ID => k.a0,
        SymbolKind::NodeHeader => over2(SyntaxTreeNode::NodeHeader, k.a0, k.a1),
        SymbolKind::OptIDList => if count == 1 {
            AbstractSyntaxTree::new()
        } else {
            k.a1
        },
        SymbolKind::NodeList => over2(SyntaxTreeNode::NodeList, k.a0, k.a1),
        SymbolKind::NodeRest => if is(tag, TokenTag::Comma) {
            k.a1
        } else {
            AbstractSyntaxTree::new()
        },
        SymbolKind::NodeNT => over2(SyntaxTreeNode::DeclareNode, k.a1, k.a2),
        SymbolKind::Program => if head == SymbolKind::NodeNT {
            over2(SyntaxTreeNode::NodeSeq, k.a0, k.a1)
        } else {
            AbstractSyntaxTree::new()
        },
        SymbolKind::NodeBlock => k.a1,
        SymbolKind::TLStmtList => if head == SymbolKind::TLStmt {
            over2(SyntaxTreeNode::TLStmtSeq, k.a0, k.a1)
        } else {
            AbstractSyntaxTree::new()
        },
        SymbolKind::TLStmt => if head == SymbolKind::Func {
            k.a0
        } else {
            AbstractSyntaxTree::new()
        },
        SymbolKind::Func => over4(SyntaxTreeNode::DeclareFunc, k.a1, k.a3, k.a6, k.a7),
        SymbolKind::ParamList => if head == SymbolKind::Param {
            over2(SyntaxTreeNode::ParamList, k.a0, k.a1)
        } else {
            AbstractSyntaxTree::new()
        },
        SymbolKind::Param => over2(SyntaxTreeNode::Param, k.a0, k.a2),
        SymbolKind::ParamRest => if is(tag, TokenTag::Comma) {
            k.a1
        } else {
            AbstractSyntaxTree::new()
        },
        SymbolKind::ReturnType => if head == SymbolKind::Type {
            over1(SyntaxTreeNode::ReturnType, k.a0)
        } else if is(tag, TokenTag::LeftParen) {
            over1(SyntaxTreeNode::ReturnType, bare(NodeTag::Void))
        } else if is(tag, TokenTag::Not) {
            over1(SyntaxTreeNode::ReturnType, bare(NodeTag::NoReturn))
        } else {
            AbstractSyntaxTree::new()
        },
        SymbolKind::Type => if is(tag, TokenTag::LeftBracket) {
            let n = length_from(&k.a3);
            AbstractSyntaxTree::leaf(
                SyntaxTreeNode::TypeName(Type::Array(Box::new(type_from(k.a1)), n)),
            )
        } else if head == SymbolKind::ID || tag.is_some() {
            AbstractSyntaxTree::leaf(SyntaxTreeNode::TypeName(type_from(k.a0)))
        } else {
            AbstractSyntaxTree::new()
        },
        SymbolKind::Array => k.a1,
        SymbolKind::ArrLen => if is(tag, TokenTag::Integer) {
            k.a0
        } else {
            AbstractSyntaxTree::new()
        },
        _ => AbstractSyntaxTree::new(),
    }
}

fn statement(kind: SymbolKind, head: SymbolKind, tag: Option<TokenTag>, count: usize, k: Lowered) -> (r:
    AbstractSyntaxTree)
    ensures
        r@ == lower_statement(kind, head, tag, count as nat, k@),
{
    match kind {
        SymbolKind::OptIndex => if is(tag, TokenTag::LeftBracket) {
            if count > 3 {
                over2(SyntaxTreeNode::Index, k.a1, k.a3)
            } else {
                over1(SyntaxTreeNode::Index, k.a1)
            }
        } else {
            AbstractSyntaxTree::new()
        },
        SymbolKind::Block => k.a1,
        SymbolKind::StmtList => if head == SymbolKind::Empty {
            AbstractSyntaxTree::new()
        } else {
            over2(SyntaxTreeNode::StmtSeq, k.a0, k.a1)
        },
        SymbolKind::CondOrArr => k.a0,
        SymbolKind::Stmt => if is(tag, TokenTag::If) {
            over3(SyntaxTreeNode::IfStmt, k.a1, k.a2, k.a3)
        } else if head == SymbolKind::Definition {
            k.a0
        } else if is(tag, TokenTag::While) {
            over2(SyntaxTreeNode::WhileLoop, k.a1, k.a2)
        } else if head == SymbolKind::ID {
            put_first(k.a0, k.a1)
        } else if is(tag, TokenTag::Return) {
            over1(SyntaxTreeNode::ReturnValue, k.a1)
        } else {
            AbstractSyntaxTree::new()
        },
        SymbolKind::Definition => if is(tag, TokenTag::Const) {
            over3(SyntaxTreeNode::DeclareConst, k.a1, k.a3, k.a5)
        } else if is(tag, TokenTag::Var) {
            over3(SyntaxTreeNode::DeclareVar, k.a1, k.a3, k.a5)
        } else {
            AbstractSyntaxTree::new()
        },
        SymbolKind::OptElse => if is(tag, TokenTag::Else) {
            k.a1
        } else {
            AbstractSyntaxTree::new()
        },
        SymbolKind::AssignOrFnCall => if is(tag, TokenTag::LeftParen) {
            over1(SyntaxTreeNode::FnCall, k.a1)
        } else if head == SymbolKind::OptIndex {
            over2(SyntaxTreeNode::Assign, k.a0, k.a2)
        } else {
            AbstractSyntaxTree::new()
        },
        SymbolKind::InputList => if head == SymbolKind::CondOrArr {
            over2(SyntaxTreeNode::InputList, k.a0, k.a1)
        } else {
            AbstractSyntaxTree::new()
        },
        SymbolKind::InputRest => if is(tag, TokenTag::Comma) {
            k.a1
        } else {
            AbstractSyntaxTree::new()
        },
        _ => AbstractSyntaxTree::new(),
    }
}

fn expression(
    kind: SymbolKind,
    head: SymbolKind,
    tag: Option<TokenTag>,
    count: usize,
    k: Lowered,
    depth: usize,
) -> (r: AbstractSyntaxTree)
    ensures
        r@ == lower_expression(kind, head, tag, count as nat, k@, depth as nat),
{
    match kind {
        SymbolKind::Expression => chained(k.a0, k.a1, OpClass::Sum, depth),
        SymbolKind::Expression1 => if is(tag, TokenTag::Add) {
            tail(NodeTag::AddOp, k.a1, k.a2, OpClass::Sum)
        } else if is(tag, TokenTag::Sub) {
            tail(NodeTag::SubOp, k.a1, k.a2, OpClass::Sum)
        } else {
            AbstractSyntaxTree::new()
        },
        SymbolKind::Term => if head == SymbolKind::Factor {
            chained(k.a0, k.a1, OpClass::Product, depth)
        } else if is(tag, TokenTag::Character) {
            k.a0
        } else {
            AbstractSyntaxTree::new()
        },
        SymbolKind::Term1 => if is(tag, TokenTag::Mul) {
            tail(NodeTag::MulOp, k.a1, k.a2, OpClass::Product)
        } else if is(tag, TokenTag::Div) {
            tail(NodeTag::DivOp, k.a1, k.a2, OpClass::Product)
        } else {
            AbstractSyntaxTree::new()
        },
        SymbolKind::Factor => if head == SymbolKind::Primitive {
            k.a0
        } else if head == SymbolKind::ID {
            named(k.a0, k.a1)
        } else if is(tag, TokenTag::LeftParen) {
            k.a1
        } else {
            AbstractSyntaxTree::new()
        },
        SymbolKind::Primitive => if is(tag, TokenTag::Sub) {
            negative(k.a1)
        } else if head == SymbolKind::Positive || is(tag, TokenTag::True) || is(tag, TokenTag::False) {
            k.a0
        } else {
            AbstractSyntaxTree::new()
        },
        SymbolKind::Positive => if is(tag, TokenTag::Integer) || is(tag, TokenTag::Float) {
            k.a0
        } else {
            AbstractSyntaxTree::new()
        },
        SymbolKind::IDOrFn => if is(tag, TokenTag::LeftParen) {
            over1(SyntaxTreeNode::FnCall, k.a1)
        } else if head == SymbolKind::OptIndex {
            k.a0
        } else {
            AbstractSyntaxTree::new()
        },
        SymbolKind::Conditional => chained(k.a0, k.a1, OpClass::Disjunction, depth),
        SymbolKind::Conditional1 => if is(tag, TokenTag::LogicalOr) {
            tail(NodeTag::OrOp, k.a1, k.a2, OpClass::Disjunction)
        } else {
            AbstractSyntaxTree::new()
        },
        SymbolKind::BoolTerm => chained(k.a0, k.a1, OpClass::Conjunction, depth),
        SymbolKind::BoolTerm1 => if is(tag, TokenTag::LogicalAnd) {
            tail(NodeTag::AndOp, k.a1, k.a2, OpClass::Conjunction)
        } else {
            AbstractSyntaxTree::new()
        },
        SymbolKind::BoolExpr => if k.a1.tag() == NodeTag::Null {
            k.a0
        } else {
            put_first(k.a0, k.a1)
        },
        SymbolKind::Comparison => if head == SymbolKind::Empty {
            AbstractSyntaxTree::new()
        } else {
            over1(k.a0.node, k.a1)
        },
        _ => AbstractSyntaxTree::new(),
    }
}

fn structural(kind: SymbolKind) -> (r: bool)
    ensures
        r == is_structure(kind),
{
    match kind {
        SymbolKind::ID | SymbolKind::NodeHeader | SymbolKind::OptIDList | SymbolKind::NodeList
        | SymbolKind::NodeRest | SymbolKind::NodeNT | SymbolKind::Program | SymbolKind::NodeBlock
        | SymbolKind::TLStmtList | SymbolKind::TLStmt | SymbolKind::Func | SymbolKind::ParamList
        | SymbolKind::Param | SymbolKind::ParamRest | SymbolKind::ReturnType | SymbolKind::Type
        | SymbolKind::Array | SymbolKind::ArrLen => true,
        _ => false,
    }
}

fn statemental(kind: SymbolKind) -> (r: bool)
    ensures
        r == is_statement(kind),
{
    match kind {
        SymbolKind::OptIndex | SymbolKind::Block | SymbolKind::StmtList | SymbolKind::CondOrArr
        | SymbolKind::Stmt | SymbolKind::Definition | SymbolKind::OptElse
        | SymbolKind::AssignOrFnCall | SymbolKind::InputList | SymbolKind::InputRest => true,
        _ => false,
    }
}

/// How many operators the chain of tail productions holds that starts at
/// node `idx`.
fn depth_of_tail(tree: &ParseTree, idx: usize) -> (d: usize)
    ensures
        d == tail_depth(tree@, idx as int),
{
    let mut cur: usize = idx;
    let mut d: usize = 0;
    loop
        invariant
            idx <= cur,
            d <= cur - idx,
            tail_depth(tree@, idx as int) == d + tail_depth(tree@, cur as int),
        decreases tree@.nodes.len() - cur,
    {
        if cur >= tree.len() {
            return d;
        }
        let children = tree.get_children(cur);
        if children.len() == 0 || children[0] <= cur || children[0] >= tree.len() {
            return d;
        }
        let first = tree.get_node(children[0]);
        if terminal_tag_of(&first).is_none() {
            return d;
        }
        if children.len() >= 3 && children[2] > cur && children[2] < tree.len() {
            cur = children[2];
            d += 1;
        } else {
            return d + 1;
        }
    }
}

/// Lowers the `k`-th child of node `idx`, whose children are `children`.
fn lower_child(tree: &ParseTree, idx: usize, children: &Vec<usize>, k: usize) -> (r:
    AbstractSyntaxTree)
    requires
        idx < tree@.nodes.len(),
        idx < tree@.children.len() ==> children@ == tree@.children[idx as int],
        idx >= tree@.children.len() ==> children@.len() == 0,
    ensures
        r@ == lower_kid(tree@, idx as int, k as int),
    decreases tree@.nodes.len() - idx, 0nat,
{
    if k < children.len() && children[k] > idx && children[k] < tree.len() {
        lower_node(tree, children[k])
    } else {
        AbstractSyntaxTree::new()
    }
}

/// Lowers the parse-tree node `idx` to its syntax tree.
pub fn lower_node(tree: &ParseTree, idx: usize) -> (r: AbstractSyntaxTree)
    ensures
        r@ == lower(tree@, idx as int),
    decreases tree@.nodes.len() - idx, 1nat,
{
    if idx >= tree.len() {
        return AbstractSyntaxTree::new();
    }
    let sym = tree.get_node(idx);
    let children = tree.get_children(idx);
    let count = children.len();
    let mut head = SymbolKind::Empty;
    let mut tag: Option<TokenTag> = None;
    if count > 0 && children[0] > idx && children[0] < tree.len() {
        let first = tree.get_node(children[0]);
        head = first.kind();
        tag = terminal_tag_of(&first);
    }
    let mut depth: usize = 0;
    if count > 1 && children[1] > idx && children[1] < tree.len() {
        depth = depth_of_tail(tree, children[1]);
    }
    let k = Lowered {
        a0: lower_child(tree, idx, &children, 0),
        a1: lower_child(tree, idx, &children, 1),
        a2: lower_child(tree, idx, &children, 2),
        a3: lower_child(tree, idx, &children, 3),
        a4: lower_child(tree, idx, &children, 4),
        a5: lower_child(tree, idx, &children, 5),
        a6: lower_child(tree, idx, &children, 6),
        a7: lower_child(tree, idx, &children, 7),
    };
    match sym {
        GrammarSymbol::Terminal(t) => leaf(&t),
        other => {
            let kind = other.kind();
            if structural(kind) {
                structure(kind, head, tag, count, k)
            } else if statemental(kind) {
                statement(kind, head, tag, count, k)
            } else {
                expression(kind, head, tag, count, k, depth)
            }
        },
    }
}

/// The nonterminal of the expressions of a precedence class.
pub open spec fn chain_kind(class: OpClass) -> SymbolKind {
    match class {
        OpClass::Sum => SymbolKind::Expression,
        OpClass::Product => SymbolKind::Term,
        OpClass::Disjunction => SymbolKind::Conditional,
        OpClass::Conjunction => SymbolKind::BoolTerm,
    }
}

/// The nonterminal of the tails of a precedence class: an operator, an
/// operand and a tail again, or nothing.
pub open spec fn tail_kind(class: OpClass) -> SymbolKind {
    match class {
        OpClass::Sum => SymbolKind::Expression1,
        OpClass::Product => SymbolKind::Term1,
        OpClass::Disjunction => SymbolKind::Conditional1,
        OpClass::Conjunction => SymbolKind::BoolTerm1,
    }
}

/// The syntax-tree operator that an operator token of a class stands for.
pub open spec fn operator_node(class: OpClass, tag: TokenTag) -> Option<NodeTag> {
    match (class, tag) {
        (OpClass::Sum, TokenTag::Add) => Some(NodeTag::AddOp),
        (OpClass::Sum, TokenTag::Sub) => Some(NodeTag::SubOp),
        (OpClass::Product, TokenTag::Mul) => Some(NodeTag::MulOp),
        (OpClass::Product, TokenTag::Div) => Some(NodeTag::DivOp),
        (OpClass::Disjunction, TokenTag::LogicalOr) => Some(NodeTag::OrOp),
        (OpClass::Conjunction, TokenTag::LogicalAnd) => Some(NodeTag::AndOp),
        _ => None,
    }
}

/// Whether node `idx` is a tail of the class that begins with the operator
/// token `op`.
pub open spec fn is_tail_with(t: TreeView, idx: int, class: OpClass, op: TokenTag) -> bool {
    &&& 0 <= idx < t.nodes.len()
    &&& t.nodes[idx] == SymbolView::Other(tail_kind(class))
    &&& head_tag(t, idx) == Some(op)
    &&& operator_node(class, op) is Some
}

/// Whether node `idx` is the empty tail of the class.
pub open spec fn is_empty_tail(t: TreeView, idx: int, class: OpClass) -> bool {
    &&& 0 <= idx < t.nodes.len()
    &&& t.nodes[idx] == SymbolView::Other(tail_kind(class))
    &&& head_tag(t, idx) is None
}

/// Whether node `idx` begins a chain of tails of the class that holds `n`
/// operators and ends in the empty tail.
pub open spec fn is_tail_chain(t: TreeView, idx: int, class: OpClass, n: nat) -> bool
    decreases n,
{
    if n == 0 {
        is_empty_tail(t, idx, class)
    } else {
        &&& head_tag(t, idx) matches Some(op) && is_tail_with(t, idx, class, op)
        &&& kid_index(t, idx, 2) matches Some(c) && is_tail_chain(t, c, class, (n - 1) as nat)
    }
}

/// The operators of a chain of `n` tails, in source order.
pub open spec fn tail_operators(t: TreeView, idx: int, class: OpClass, n: nat) -> Seq<NodeTag>
    decreases n,
{
    if n == 0 {
        Seq::empty()
    } else {
        seq![operator_node(class, head_tag(t, idx)->0)->0] + tail_operators(
            t,
            kid_index(t, idx, 2)->0,
            class,
            (n - 1) as nat,
        )
    }
}

/// The lowered operands of a chain of `n` tails, in source order: the
/// operand that follows each operator.
pub open spec fn tail_operands(t: TreeView, idx: int, n: nat) -> Seq<AstView>
    decreases n,
{
    if n == 0 {
        Seq::empty()
    } else {
        seq![lower_kid(t, idx, 1)] + tail_operands(t, kid_index(t, idx, 2)->0, (n - 1) as nat)
    }
}

/// A chain of `n` tails has `n` operators of its class and `n` operands,
/// and its depth is `n`.
pub proof fn lemma_tail_chain_counts(t: TreeView, idx: int, class: OpClass, n: nat)
    requires
        is_tail_chain(t, idx, class, n),
    ensures
        tail_operators(t, idx, class, n).len() == n,
        tail_operands(t, idx, n).len() == n,
        tail_depth(t, idx) == n,
        forall|i: int| 0 <= i < n ==> in_class(#[trigger] tail_operators(t, idx, class, n)[i], class),
    decreases n,
{
    if n > 0 {
        let c = kid_index(t, idx, 2)->0;
        lemma_tail_chain_counts(t, c, class, (n - 1) as nat);
        let ops = tail_operators(t, idx, class, n);
        let below = tail_operators(t, c, class, (n - 1) as nat);
        assert forall|i: int| 0 <= i < n implies in_class(#[trigger] ops[i], class) by {
            if i > 0 {
                assert(ops[i] == below[i - 1]);
            }
        }
    }
}

/// The lowered tree of a chain of one or more tails, with an operand put
/// first in it, is the right-leaning tree of that operand, the operators
/// and the operands of the chain.
proof fn lemma_tail_chain_nests_right(t: TreeView, idx: int, class: OpClass, n: nat, first: AstView)
    requires
        n > 0,
        is_tail_chain(t, idx, class, n),
    ensures
        in_class(lower(t, idx).tag(), class),
        prepend(first, lower(t, idx)) == right_nested(
            first,
            tail_operators(t, idx, class, n),
            tail_operands(t, idx, n),
        ),
    decreases n,
{
    let c = kid_index(t, idx, 2)->0;
    let op = operator_node(class, head_tag(t, idx)->0)->0;
    let b = lower_kid(t, idx, 1);
    let sub = lower(t, c);
    let ops = tail_operators(t, idx, class, n);
    let rest = tail_operands(t, idx, n);
    let ops1 = tail_operators(t, c, class, (n - 1) as nat);
    let rest1 = tail_operands(t, c, (n - 1) as nat);
    lemma_tail_chain_counts(t, idx, class, n);
    assert(ops.drop_first() =~= ops1);
    assert(rest.drop_first() =~= rest1);
    assert(lower_kid(t, idx, 2) == sub);
    assert(lower(t, idx) == tail_node(op, b, sub, class));
    assert(in_class(op, class));
    if n == 1 {
        assert(is_tail_chain(t, c, class, 0));
        assert(is_empty_tail(t, c, class));
        assert(sub == AstView::null());
        assert(prepend(first, AstView::of(op, seq![b])).children =~= seq![first, b]);
        assert(right_nested(b, ops1, rest1) == b);
    } else {
        lemma_tail_chain_nests_right(t, c, class, (n - 1) as nat, b);
        assert(prepend(first, AstView::of(op, seq![prepend(b, sub)])).children =~= seq![
            first,
            prepend(b, sub),
        ]);
    }
}

/// Left associativity of parsing, for any number of operators. The parse
/// tree of `a op1 b1 op2 b2 ...`, with operators of one precedence class,
/// lowers to the left-leaning tree of its operands and operators: each
/// operator over everything to its left and the operand to its right.
pub proof fn lemma_lowering_nests_left(t: TreeView, e: int, class: OpClass, n: nat)
    requires
        0 <= e < t.nodes.len(),
        t.nodes[e] == SymbolView::Other(chain_kind(class)),
        class == OpClass::Product ==> head_kind(t, e) == SymbolKind::Factor,
        kid_index(t, e, 1) matches Some(e1) && is_tail_chain(t, e1, class, n),
    ensures
        ({
            let e1 = kid_index(t, e, 1)->0;
            lower(t, e) == left_nested(
                lower_kid(t, e, 0),
                tail_operators(t, e1, class, n),
                tail_operands(t, e1, n),
            )
        }),
{
    let e1 = kid_index(t, e, 1)->0;
    let a = lower_kid(t, e, 0);
    let l1 = lower(t, e1);
    lemma_tail_chain_counts(t, e1, class, n);
    assert(lower_kid(t, e, 1) == l1);
    assert(spine_depth(t, e) == n);
    assert(lower(t, e) == chain(a, l1, class, n));
    if n == 0 {
        assert(is_empty_tail(t, e1, class));
        assert(l1 == AstView::null());
    } else {
        lemma_tail_chain_nests_right(t, e1, class, n, a);
        lemma_rebalanced_is_left_nested(
            a,
            tail_operators(t, e1, class, n),
            tail_operands(t, e1, n),
            class,
            n,
        );
    }
}

/// Left associativity of parsing. The parse tree of `a op1 b op2 c`, with
/// two operators of one precedence class, lowers to `(a op1 b) op2 c`:
/// the second operator over the first operator, with `a` and `b`, and `c`.
pub proof fn lemma_lowering_is_left_associative(
    t: TreeView,
    e: int,
    class: OpClass,
    op1: TokenTag,
    op2: TokenTag,
)
    requires
        0 <= e < t.nodes.len(),
        t.nodes[e] == SymbolView::Other(chain_kind(class)),
        class == OpClass::Product ==> head_kind(t, e) == SymbolKind::Factor,
        kid_index(t, e, 1) matches Some(e1) && is_tail_with(t, e1, class, op1) && (kid_index(
            t,
            e1,
            2,
        ) matches Some(e2) && is_tail_with(t, e2, class, op2) && (kid_index(t, e2, 2) matches Some(
            e3,
        ) && is_empty_tail(t, e3, class))),
    ensures
        ({
            let e1 = kid_index(t, e, 1)->0;
            let e2 = kid_index(t, e1, 2)->0;
            lower(t, e) == binary(
                NodeView::Plain(operator_node(class, op2)->0),
                binary(
                    NodeView::Plain(operator_node(class, op1)->0),
                    lower_kid(t, e, 0),
                    lower_kid(t, e1, 1),
                ),
                lower_kid(t, e2, 1),
            )
        }),
{
    let e1 = kid_index(t, e, 1)->0;
    let e2 = kid_index(t, e1, 2)->0;
    let e3 = kid_index(t, e2, 2)->0;
    let a = lower_kid(t, e, 0);
    let b = lower_kid(t, e1, 1);
    let c = lower_kid(t, e2, 1);
    let n1 = operator_node(class, op1)->0;
    let n2 = operator_node(class, op2)->0;
    assert(lower(t, e3) == AstView::null());
    assert(lower_kid(t, e2, 2) == AstView::null());
    let l2 = lower(t, e2);
    assert(l2 == tail_node(n2, c, AstView::null(), class));
    assert(l2 == AstView::of(n2, seq![c]));
    assert(in_class(n2, class));
    assert(lower_kid(t, e1, 2) == l2);
    let l1 = lower(t, e1);
    assert(l1 == tail_node(n1, b, l2, class));
    assert(prepend(b, l2).children =~= seq![b, c]);
    assert(prepend(b, l2) == binary(NodeView::Plain(n2), b, c));
    assert(l1 == AstView::of(n1, seq![binary(NodeView::Plain(n2), b, c)]));
    assert(lower_kid(t, e, 1) == l1);
    assert(tail_depth(t, e3) == 0);
    assert(tail_depth(t, e2) == 1);
    assert(tail_depth(t, e1) == 2);
    assert(spine_depth(t, e) == 2);
    assert(prepend(a, l1).children =~= seq![a, binary(NodeView::Plain(n2), b, c)]);
    assert(prepend(a, l1) == binary(NodeView::Plain(n1), a, binary(NodeView::Plain(n2), b, c)));
    lemma_left_associative(a, b, c, n1, n2, class);
    assert(lower(t, e) == chain(a, l1, class, 2));
}


} // verus!
