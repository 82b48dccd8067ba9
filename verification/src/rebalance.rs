//! Left associativity: reshaping the right-leaning tree that the grammar's
//! tail productions yield into the left-leaning tree the operators mean.

use vstd::prelude::*;
use crate::ast::{AbstractSyntaxTree, AstView, NodeTag, NodeView, SyntaxTreeNode, lemma_view_children};

verus! {

/// A class of binary operators of one precedence.
#[derive(Clone, Copy, Debug, PartialEq, Eq, Structural)]
pub enum OpClass {
    /// `+` and `-`
    Sum,
    /// `*` and `/`
    Product,
    /// `||`
    Disjunction,
    /// `&&`
    Conjunction,
}

/// Whether the tag is an operator of the class.
pub open spec fn in_class(tag: NodeTag, class: OpClass) -> bool {
    match class {
        OpClass::Sum => tag == NodeTag::AddOp || tag == NodeTag::SubOp,
        OpClass::Product => tag == NodeTag::MulOp || tag == NodeTag::DivOp,
        OpClass::Disjunction => tag == NodeTag::OrOp,
        OpClass::Conjunction => tag == NodeTag::AndOp,
    }
}

/// The tree of a binary node.
pub open spec fn binary(op: NodeView, left: AstView, right: AstView) -> AstView {
    AstView { node: op, children: seq![left, right] }
}

/// Whether the tree is an operator of the class over two operands.
pub open spec fn is_spine(t: AstView, class: OpClass) -> bool {
    t.children.len() == 2 && in_class(t.tag(), class)
}

/// The walk down a right spine. `op` over `left` is the operator that waits
/// for its right operand, `right` what is to its right, and `depth` how
/// many operators the spine still holds below it. While the spine goes on,
/// the waiting operator takes the left operand of the next spine node as
/// its right operand and becomes the left operand of that node's operator.
pub open spec fn rotate(op: NodeView, left: AstView, right: AstView, class: OpClass, depth: nat) -> AstView
    decreases depth,
{
    if depth > 0 && is_spine(right, class) {
        rotate(
            right.node,
            binary(op, left, right.children[0]),
            right.children[1],
            class,
            (depth - 1) as nat,
        )
    } else {
        binary(op, left, right)
    }
}

/// The left-leaning tree of a right spine of `depth` operators of the
/// class. A tree that is no such spine is left as it is.
pub open spec fn rebalanced(t: AstView, class: OpClass, depth: nat) -> AstView {
    if depth > 0 && is_spine(t, class) {
        rotate(t.node, t.children[0], t.children[1], class, (depth - 1) as nat)
    } else {
        t
    }
}

/// The right-leaning tree of `first op0 rest0 op1 rest1 ...`: each operator
/// over the operand to its left and everything to its right.
pub open spec fn right_nested(first: AstView, ops: Seq<NodeTag>, rest: Seq<AstView>) -> AstView
    decreases ops.len(),
{
    if ops.len() == 0 || rest.len() == 0 {
        first
    } else {
        binary(
            NodeView::Plain(ops[0]),
            first,
            right_nested(rest[0], ops.drop_first(), rest.drop_first()),
        )
    }
}

/// The left-leaning tree of `first op0 rest0 op1 rest1 ...`: each operator
/// over everything to its left and the operand to its right.
pub open spec fn left_nested(first: AstView, ops: Seq<NodeTag>, rest: Seq<AstView>) -> AstView
    decreases ops.len(),
{
    if ops.len() == 0 || rest.len() == 0 {
        first
    } else {
        left_nested(
            binary(NodeView::Plain(ops[0]), first, rest[0]),
            ops.drop_first(),
            rest.drop_first(),
        )
    }
}

/// The last operand of `first op0 rest0 op1 rest1 ...`.
pub open spec fn last_operand(first: AstView, rest: Seq<AstView>) -> AstView {
    if rest.len() == 0 {
        first
    } else {
        rest.last()
    }
}

proof fn lemma_rotate_spine(
    op: NodeView,
    left: AstView,
    x: AstView,
    ops: Seq<NodeTag>,
    rest: Seq<AstView>,
    class: OpClass,
    depth: nat,
)
    requires
        ops.len() == rest.len(),
        forall|i: int| 0 <= i < ops.len() ==> in_class(#[trigger] ops[i], class),
        depth == ops.len() || (depth > ops.len() && !is_spine(last_operand(x, rest), class)),
    ensures
        rotate(op, left, right_nested(x, ops, rest), class, depth) == left_nested(
            binary(op, left, x),
            ops,
            rest,
        ),
    decreases ops.len(),
{
    if ops.len() > 0 {
        let inner = right_nested(rest[0], ops.drop_first(), rest.drop_first());
        let spine = right_nested(x, ops, rest);
        assert(spine == binary(NodeView::Plain(ops[0]), x, inner));
        assert(in_class(ops[0], class));
        assert(is_spine(spine, class));
        assert forall|i: int| 0 <= i < ops.drop_first().len() implies in_class(
            #[trigger] ops.drop_first()[i],
            class,
        ) by {
            assert(ops.drop_first()[i] == ops[i + 1]);
        }
        assert(last_operand(rest[0], rest.drop_first()) == last_operand(x, rest));
        lemma_rotate_spine(
            NodeView::Plain(ops[0]),
            binary(op, left, x),
            rest[0],
            ops.drop_first(),
            rest.drop_first(),
            class,
            (depth - 1) as nat,
        );
    }
}

/// Left associativity. For operators of one precedence class, whatever the
/// operands are, the rebalanced right-leaning tree of
/// `first op0 rest0 op1 rest1 ...` is its left-leaning tree: the same
/// operators over the same operands, in the same order from left to right,
/// each operand unchanged. The depth is the number of operators; a larger
/// one gives the same when the last operand is no operator of the class
/// over two operands.
pub proof fn lemma_rebalanced_is_left_nested(
    first: AstView,
    ops: Seq<NodeTag>,
    rest: Seq<AstView>,
    class: OpClass,
    depth: nat,
)
    requires
        ops.len() == rest.len(),
        forall|i: int| 0 <= i < ops.len() ==> in_class(#[trigger] ops[i], class),
        depth == ops.len() || (depth > ops.len() && !is_spine(last_operand(first, rest), class)),
    ensures
        rebalanced(right_nested(first, ops, rest), class, depth) == left_nested(first, ops, rest),
{
    if ops.len() > 0 {
        let inner = right_nested(rest[0], ops.drop_first(), rest.drop_first());
        assert(right_nested(first, ops, rest) == binary(NodeView::Plain(ops[0]), first, inner));
        assert(in_class(ops[0], class));
        assert forall|i: int| 0 <= i < ops.drop_first().len() implies in_class(
            #[trigger] ops.drop_first()[i],
            class,
        ) by {
            assert(ops.drop_first()[i] == ops[i + 1]);
        }
        assert(last_operand(rest[0], rest.drop_first()) == last_operand(first, rest));
        lemma_rotate_spine(
            NodeView::Plain(ops[0]),
            first,
            rest[0],
            ops.drop_first(),
            rest.drop_first(),
            class,
            (depth - 1) as nat,
        );
    }
}

/// A tree that is no operator of the class over two operands, or whose
/// right operand is none, is rebalanced to itself, whatever the depth; and
/// so is every tree at a depth below two.
pub proof fn lemma_rebalanced_unchanged(t: AstView, class: OpClass, depth: nat)
    requires
        depth <= 1 || !is_spine(t, class) || !is_spine(t.children[1], class),
    ensures
        rebalanced(t, class, depth) == t,
{
    if depth > 0 && is_spine(t, class) {
        assert(t.children =~= seq![t.children[0], t.children[1]]);
    }
}

/// Left associativity of two operators of one precedence class:
/// `a op1 b op2 c`, read by the grammar as `a op1 (b op2 c)`, is rebalanced
/// to `(a op1 b) op2 c`, whatever `a`, `b` and `c` are.
pub proof fn lemma_left_associative(
    a: AstView,
    b: AstView,
    c: AstView,
    op1: NodeTag,
    op2: NodeTag,
    class: OpClass,
)
    requires
        in_class(op1, class),
        in_class(op2, class),
    ensures
        rebalanced(
            binary(NodeView::Plain(op1), a, binary(NodeView::Plain(op2), b, c)),
            class,
            2,
        ) == binary(NodeView::Plain(op2), binary(NodeView::Plain(op1), a, b), c),
{
    let inner = binary(NodeView::Plain(op2), b, c);
    assert(is_spine(inner, class));
    assert(rotate(NodeView::Plain(op1), a, inner, class, 1) == rotate(
        NodeView::Plain(op2),
        binary(NodeView::Plain(op1), a, b),
        c,
        class,
        0,
    ));
}

/// Whether the tag is an operator of the class.
pub fn tag_in_class(tag: NodeTag, class: OpClass) -> (r: bool)
    ensures
        r == in_class(tag, class),
{
    match class {
        OpClass::Sum => tag == NodeTag::AddOp || tag == NodeTag::SubOp,
        OpClass::Product => tag == NodeTag::MulOp || tag == NodeTag::DivOp,
        OpClass::Disjunction => tag == NodeTag::OrOp,
        OpClass::Conjunction => tag == NodeTag::AndOp,
    }
}

fn spine(t: &AbstractSyntaxTree, class: OpClass) -> (r: bool)
    ensures
        r == is_spine(t@, class),
{
    proof {
        lemma_view_children(t);
    }
    t.children.len() == 2 && tag_in_class(t.tag(), class)
}

/// Takes a binary tree apart into its node and its two operands.
fn split(t: AbstractSyntaxTree) -> (r: (SyntaxTreeNode, AbstractSyntaxTree, AbstractSyntaxTree))
    requires
        t@.children.len() == 2,
    ensures
        r.0@ == t@.node,
        r.1@ == t@.children[0],
        r.2@ == t@.children[1],
{
    proof {
        lemma_view_children(&t);
    }
    let AbstractSyntaxTree { node, children } = t;
    let mut children = children;
    let right = children.pop().unwrap();
    let left = children.pop().unwrap();
    (node, left, right)
}

/// Puts a binary tree together.
fn join(op: SyntaxTreeNode, left: AbstractSyntaxTree, right: AbstractSyntaxTree) -> (r:
    AbstractSyntaxTree)
    ensures
        r@ == binary(op@, left@, right@),
{
    let mut children: Vec<AbstractSyntaxTree> = Vec::new();
    children.push(left);
    children.push(right);
    let r = AbstractSyntaxTree::with(op, children);
    assert(r@.children =~= seq![left@, right@]);
    r
}

/// Reshapes a right spine of `depth` operators of the class into the
/// left-leaning tree of the same operators and operands, in the same order.
pub fn rebalance(tree: AbstractSyntaxTree, class: OpClass, depth: usize) -> (r: AbstractSyntaxTree)
    ensures
        r@ == rebalanced(tree@, class, depth as nat),
{
    if depth == 0 || !spine(&tree, class) {
        return tree;
    }
    let ghost whole = tree@;
    let (node, first, second) = split(tree);
    let mut op = node;
    let mut left = first;
    let mut right = second;
    let mut d: usize = depth - 1;
    while d > 0 && spine(&right, class)
        invariant
            rebalanced(whole, class, depth as nat) == rotate(op@, left@, right@, class, d as nat),
        decreases d,
    {
        let (next, inner_left, inner_right) = split(right);
        left = join(op, left, inner_left);
        op = next;
        right = inner_right;
        d -= 1;
    }
    join(op, left, right)
}

/// Reshapes a right spine of `depth` operators `+` and `-`.
pub fn rebalance_expression_tree(tree: AbstractSyntaxTree, depth: usize) -> (r: AbstractSyntaxTree)
    ensures
        r@ == rebalanced(tree@, OpClass::Sum, depth as nat),
{
    rebalance(tree, OpClass::Sum, depth)
}

/// Reshapes a right spine of `depth` operators `*` and `/`.
pub fn rebalance_term_tree(tree: AbstractSyntaxTree, depth: usize) -> (r: AbstractSyntaxTree)
    ensures
        r@ == rebalanced(tree@, OpClass::Product, depth as nat),
{
    rebalance(tree, OpClass::Product, depth)
}

/// Reshapes a right spine of `depth` operators `||`.
pub fn rebalance_comparison_tree(tree: AbstractSyntaxTree, depth: usize) -> (r: AbstractSyntaxTree)
    ensures
        r@ == rebalanced(tree@, OpClass::Disjunction, depth as nat),
{
    rebalance(tree, OpClass::Disjunction, depth)
}

/// Reshapes a right spine of `depth` operators `&&`.
pub fn rebalance_bool_term_tree(tree: AbstractSyntaxTree, depth: usize) -> (r: AbstractSyntaxTree)
    ensures
        r@ == rebalanced(tree@, OpClass::Conjunction, depth as nat),
{
    rebalance(tree, OpClass::Conjunction, depth)
}

} // verus!
