//! Array literals: their elements in source order, the flat list that
//! holds them, and the order in which their bytecode is emitted.

use vstd::prelude::*;
use crate::ast::{AbstractSyntaxTree, AstView, NodeTag, SyntaxTreeNode, lemma_view_children};
use crate::bytecode::{ImageView, PUSH_I32};
use crate::emit::{
    CodegenError,
    Ctx,
    emit_array,
    emit_array_kid,
    emit_expr,
    emit_expr_kid,
    first_count,
    item_count,
};

verus! {

/// The elements that the first item of an input list stands for: those of
/// a nested list, none for no item, and the item itself otherwise.
pub open spec fn first_elements(t: AstView) -> Seq<AstView>
    decreases t, 0nat,
{
    if t.children.len() == 0 {
        Seq::empty()
    } else if t.children[0].tag() == NodeTag::InputList {
        elements(t.children[0])
    } else if t.children[0].tag() == NodeTag::Null {
        Seq::empty()
    } else {
        seq![t.children[0]]
    }
}

/// The elements of an array literal in source order, nested literals by
/// their elements.
pub open spec fn elements(t: AstView) -> Seq<AstView>
    decreases t, 1nat,
{
    if t.tag() == NodeTag::InputList {
        first_elements(t) + (if t.children.len() > 1 {
            elements(t.children[1])
        } else {
            Seq::empty()
        })
    } else {
        Seq::empty()
    }
}

/// An array literal has as many elements as are counted.
pub proof fn lemma_elements_count(t: AstView)
    ensures
        elements(t).len() == item_count(t),
        first_elements(t).len() == first_count(t),
    decreases t,
{
    if t.children.len() > 0 {
        lemma_elements_count(t.children[0]);
    }
    assert(first_elements(t).len() == first_count(t));
    if t.children.len() > 1 {
        lemma_elements_count(t.children[1]);
    }
    if t.tag() == NodeTag::InputList {
        let rest = if t.children.len() > 1 {
            elements(t.children[1])
        } else {
            Seq::empty()
        };
        assert(elements(t) == first_elements(t) + rest);
    }
}

/// The bytecode of the elements from position `k` on, the last first:
/// each element is its expression followed by the push of its index,
/// which is `base` plus its position.
pub open spec fn emit_down(ctx: Ctx, img: ImageView, elems: Seq<AstView>, base: int, k: int) -> Result<
    ImageView,
    CodegenError,
>
    decreases elems.len() - k,
{
    if k < 0 || k >= elems.len() {
        Ok(img)
    } else {
        match emit_down(ctx, img, elems, base, k + 1) {
            Err(e) => Err(e),
            Ok(a) => match emit_expr(ctx, a, elems[k]) {
                Err(e) => Err(e),
                Ok(b) => Ok(b.put_op(PUSH_I32, (base + k) as u32)),
            },
        }
    }
}

proof fn lemma_emit_down_tail(
    ctx: Ctx,
    img: ImageView,
    front: Seq<AstView>,
    back: Seq<AstView>,
    base: int,
    k: int,
)
    requires
        0 <= k <= back.len(),
    ensures
        emit_down(ctx, img, front + back, base, front.len() + k) == emit_down(
            ctx,
            img,
            back,
            base + front.len(),
            k,
        ),
    decreases back.len() - k,
{
    if k < back.len() {
        lemma_emit_down_tail(ctx, img, front, back, base, k + 1);
        assert((front + back)[front.len() + k] == back[k]);
    }
}

proof fn lemma_emit_down_front(
    ctx: Ctx,
    img: ImageView,
    front: Seq<AstView>,
    back: Seq<AstView>,
    base: int,
    k: int,
)
    requires
        0 <= k <= front.len(),
    ensures
        emit_down(ctx, img, front + back, base, k) == match emit_down(
            ctx,
            img,
            back,
            base + front.len(),
            0,
        ) {
            Err(e) => Err(e),
            Ok(a) => emit_down(ctx, a, front, base, k),
        },
    decreases front.len() - k,
{
    if k < front.len() {
        lemma_emit_down_front(ctx, img, front, back, base, k + 1);
        assert((front + back)[k] == front[k]);
    } else {
        lemma_emit_down_tail(ctx, img, front, back, base, 0);
    }
}

/// The order of emission. The bytecode of an array literal is the
/// bytecode of its elements from the last to the first, each followed by
/// the push of its index.
pub proof fn lemma_array_emits_elements_down(ctx: Ctx, img: ImageView, t: AstView, base: int)
    ensures
        emit_array(ctx, img, t, base) == emit_down(ctx, img, elements(t), base, 0),
    decreases t,
{
    if t.tag() == NodeTag::InputList {
        lemma_elements_count(t);
        let front = first_elements(t);
        let back = if t.children.len() > 1 {
            elements(t.children[1])
        } else {
            Seq::empty()
        };
        let inner = base + first_count(t);
        if t.children.len() > 1 {
            lemma_array_emits_elements_down(ctx, img, t.children[1], inner);
        }
        assert(emit_array_kid(ctx, img, t, 1, inner) == emit_down(ctx, img, back, inner, 0));
        lemma_emit_down_front(ctx, img, front, back, base, 0);
        if let Ok(a) = emit_array_kid(ctx, img, t, 1, inner) {
            if t.children.len() == 0 || t.children[0].tag() == NodeTag::Null {
            } else if t.children[0].tag() == NodeTag::InputList {
                lemma_array_emits_elements_down(ctx, a, t.children[0], base);
            } else {
                assert(front.len() == 1);
                assert(emit_down(ctx, a, front, base, 1) == Ok::<ImageView, CodegenError>(a));
                assert(emit_expr_kid(ctx, a, t, 0) == emit_expr(ctx, a, front[0]));
            }
        }
    }
}

/// The list `left` with the list `right` after it: the items of `left`,
/// an item that is no list counting as a list of itself, and then `right`.
pub open spec fn appended(left: AstView, right: AstView) -> AstView
    decreases left,
{
    if left.tag() == NodeTag::Null {
        right
    } else if left.tag() == NodeTag::InputList && left.children.len() == 2 {
        AstView::of(NodeTag::InputList, seq![left.children[0], appended(left.children[1], right)])
    } else {
        AstView::of(NodeTag::InputList, seq![left, right])
    }
}

/// The flat list of an array literal: the flat list of its first item with
/// the flat list of the others after it. A tree that is no input list of
/// two subtrees is left as it is.
pub open spec fn flattened(t: AstView) -> AstView
    decreases t,
{
    if t.tag() == NodeTag::InputList && t.children.len() == 2 {
        appended(flattened(t.children[0]), flattened(t.children[1]))
    } else {
        t
    }
}

/// Puts the list `right` after the list `left`.
pub fn build_arr_helper(left: &AbstractSyntaxTree, right: AbstractSyntaxTree) -> (r: AbstractSyntaxTree)
    ensures
        r@ == appended(left@, right@),
    decreases left,
{
    proof {
        lemma_view_children(left);
    }
    let tag = left.tag();
    if tag == NodeTag::Null {
        right
    } else if tag == NodeTag::InputList && left.children.len() == 2 {
        let rest = build_arr_helper(&left.children[1], right);
        let mut kids: Vec<AbstractSyntaxTree> = Vec::new();
        kids.push(left.children[0].clone());
        kids.push(rest);
        let r = AbstractSyntaxTree::with(SyntaxTreeNode::InputList, kids);
        assert(r@.children =~= seq![left@.children[0], rest@]);
        r
    } else {
        let mut kids: Vec<AbstractSyntaxTree> = Vec::new();
        let copy = left.clone();
        kids.push(copy);
        kids.push(right);
        let r = AbstractSyntaxTree::with(SyntaxTreeNode::InputList, kids);
        assert(r@.children =~= seq![left@, right@]);
        r
    }
}

/// The flat list of an array literal.
pub fn build_arr_from_input_list(ast: &AbstractSyntaxTree) -> (r: AbstractSyntaxTree)
    ensures
        r@ == flattened(ast@),
    decreases ast,
{
    proof {
        lemma_view_children(ast);
    }
    if ast.tag() == NodeTag::InputList && ast.children.len() == 2 {
        let left = build_arr_from_input_list(&ast.children[0]);
        let right = build_arr_from_input_list(&ast.children[1]);
        build_arr_helper(&left, right)
    } else {
        ast.clone()
    }
}

} // verus!
