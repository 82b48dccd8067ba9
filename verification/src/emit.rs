//! Emission of the bytecode of expressions and statements.

use vstd::prelude::*;
use vstd::string::StringExecFns;
use crate::ast::{AbstractSyntaxTree, AstView, NodeTag, NodeView, SyntaxTreeNode, lemma_view_children};
use crate::bytecode::{
    ADD_I32,
    AND,
    Image,
    ImageView,
    JMP,
    JMP_IF_FALSE,
    MUL_I32,
    OR,
    PUSH_BOOL,
    PUSH_CHAR,
    PUSH_F32,
    PUSH_I32,
    RET_VAL,
    arith_op,
    arith_opcode,
    bits,
    bits_of,
    byte,
    byte_of,
    compare_op,
    compare_opcode,
    load_op,
    load_opcode,
    store_arr_op,
    store_arr_opcode,
    store_op,
    store_opcode,
};
use crate::scope::{name_in, name_of};
use crate::symbols::{ReturnKind, ReturnView, Signature, SignatureView, Variable, VariableView, seq_view};
use crate::types::{Type, TypeView};
use crate::typing::{
    Env,
    get_kid_type,
    get_type,
    is_arithmetic,
    is_comparison,
    is_connective,
    kid_type,
    type_of,
};

verus! {

/// Why no image can be emitted.
#[derive(Clone, Copy, Debug, PartialEq)]
pub enum CodegenError {
    /// An offset in the image, or an index of an array literal, does not
    /// fit in 32 bits.
    TooLarge,
    /// An expression has no type; the code says why.
    IllTyped(usize),
    /// A name is used that is no variable of the function.
    UnknownVariable,
    /// A variable has a type without a size.
    UnsizedType,
    /// The variables of a node do not fit in the 32-bit address space.
    OutOfAddresses,
    /// A node with functions has no function `main`.
    MissingMain,
    /// A function is called that the node at hand does not define.
    UnresolvedCall,
    /// The encoder of the dependency graph failed.
    Encoding,
}

impl CodegenError {
    /// The diagnostic of the error.
    pub open spec fn text(self) -> Seq<char> {
        match self {
            CodegenError::TooLarge => "could not compile: the image is too large"@,
            CodegenError::IllTyped(_) => "could not compile: an expression has no type"@,
            CodegenError::UnknownVariable => "could not compile: unknown variable"@,
            CodegenError::UnsizedType => "could not compile: a variable has a type without a size"@,
            CodegenError::OutOfAddresses => "could not compile: the variables need too much room"@,
            CodegenError::MissingMain => "could not compile: a node has no function main"@,
            CodegenError::UnresolvedCall => "could not compile: a call leaves its node"@,
            CodegenError::Encoding => "could not compile: the graph cannot be encoded"@,
        }
    }

    /// The diagnostic of the error, as a string.
    pub fn message(&self) -> (r: String)
        ensures
            r@ == self.text(),
    {
        match self {
            CodegenError::TooLarge => String::from_str("could not compile: the image is too large"),
            CodegenError::IllTyped(_) => String::from_str(
                "could not compile: an expression has no type",
            ),
            CodegenError::UnknownVariable => String::from_str("could not compile: unknown variable"),
            CodegenError::UnsizedType => String::from_str(
                "could not compile: a variable has a type without a size",
            ),
            CodegenError::OutOfAddresses => String::from_str(
                "could not compile: the variables need too much room",
            ),
            CodegenError::MissingMain => String::from_str(
                "could not compile: a node has no function main",
            ),
            CodegenError::UnresolvedCall => String::from_str(
                "could not compile: a call leaves its node",
            ),
            CodegenError::Encoding => String::from_str(
                "could not compile: the graph cannot be encoded",
            ),
        }
    }
}

/// A variable with the address of its slot.
#[derive(Debug, PartialEq)]
pub struct Slot {
    pub name: String,
    pub ty: Type,
    pub addr: u32,
}

/// The view of a [`Slot`].
pub struct SlotView {
    pub name: Seq<char>,
    pub ty: TypeView,
    pub addr: u32,
}

impl View for Slot {
    type V = SlotView;

    open spec fn view(&self) -> SlotView {
        SlotView { name: self.name@, ty: self.ty@, addr: self.addr }
    }
}

/// The variables of a list of slots.
pub open spec fn variables_of(slots: Seq<SlotView>) -> Seq<VariableView> {
    Seq::new(slots.len(), |i: int| VariableView { name: slots[i].name, ty: slots[i].ty })
}

/// What emission knows: the signatures of all functions of all nodes, and
/// the variables of the function at hand with their slots.
pub struct Ctx {
    pub functions: Seq<SignatureView>,
    pub locals: Seq<VariableView>,
    pub slots: Seq<SlotView>,
}

impl Ctx {
    /// The environment in which the expressions of the function are typed.
    pub open spec fn env(self) -> Env {
        Env { functions: self.functions, locals: self.locals }
    }
}

/// The first slot of the name from `from` on.
pub open spec fn find_slot(slots: Seq<SlotView>, name: Seq<char>, from: int) -> Option<int>
    decreases slots.len() - from,
{
    if from < 0 || from >= slots.len() {
        None
    } else if slots[from].name == name {
        Some(from)
    } else {
        find_slot(slots, name, from + 1)
    }
}

/// The type by which an opcode is chosen: the type of a value, and a type
/// without opcodes for what is no value.
pub open spec fn typed(r: Result<ReturnView, usize>) -> Result<TypeView, CodegenError> {
    match r {
        Err(c) => Err(CodegenError::IllTyped(c)),
        Ok(ReturnView::Value(t)) => Ok(t),
        Ok(_) => Ok(TypeView::Named(Seq::empty())),
    }
}

/// The stride of an index into a value of the type: the number of bytes
/// that one element of the array takes. An index times its stride, all
/// indices added up, is the distance in bytes from the start of the value
/// to the element that the indices name.
pub open spec fn stride(t: TypeView) -> u32 {
    match t {
        TypeView::Array(e, _) => if e.sized() && e.size() <= u32::MAX {
            e.size() as u32
        } else {
            0
        },
        _ => 0,
    }
}

/// The strides of an array fill it: the stride of an index times the
/// length of the array is the size of the array in bytes, so that its
/// elements lie one after another from its start to its end.
pub proof fn lemma_stride_fills(t: TypeView)
    requires
        t.sized(),
        t.size() <= u32::MAX,
        t is Array,
    ensures
        stride(t) * t->Array_1 == t.size(),
        stride(t) >= 1,
{
    let e = *t->Array_0;
    let n = t->Array_1;
    crate::types::lemma_sized_positive(e);
    assert(e.size() <= e.size() * n) by (nonlinear_arith)
        requires
            e.size() >= 1,
            n >= 1,
    ;
}

/// The type of what an index into a value of the type yields.
pub open spec fn element(t: TypeView) -> TypeView {
    match t {
        TypeView::Array(e, _) => *e,
        _ => t,
    }
}

/// The number of innermost elements of a value of the type, as far as it
/// has a size and the number fits in a 32-bit signed integer.
pub open spec fn element_count(t: TypeView) -> int {
    if t.sized() && t.count() <= i32::MAX {
        t.count()
    } else {
        0
    }
}

/// The number of elements that the first item of an input list stands for:
/// a nested list for its own elements, nothing for none, and an expression
/// for one.
pub open spec fn first_count(t: AstView) -> nat
    decreases t, 0nat,
{
    if t.children.len() == 0 {
        0
    } else if t.children[0].tag() == NodeTag::InputList {
        item_count(t.children[0])
    } else if t.children[0].tag() == NodeTag::Null {
        0
    } else {
        1
    }
}

/// The number of elements of an array literal, nested literals counted by
/// their elements.
pub open spec fn item_count(t: AstView) -> nat
    decreases t, 1nat,
{
    if t.tag() == NodeTag::InputList {
        first_count(t) + (if t.children.len() > 1 {
            item_count(t.children[1])
        } else {
            0
        })
    } else {
        0
    }
}

/// The bytecode of an expression, put at the end of the image.
///
/// - An operator has its left operand, its right operand, and then the
///   opcode for the type of its operands.
/// - An array literal has its elements from the last to the first, each
///   followed by the push of its index.
/// - A call has the call sequence.
/// - A literal has its push instruction; a float literal has four zero
///   bytes for an operand, noted as awaiting the bits of the literal.
/// - A name has its index computation, if it is indexed, and the load of
///   its slot.
/// - Anything else has the bytecode of its subtrees, in order.
pub open spec fn emit_expr(ctx: Ctx, img: ImageView, t: AstView) -> Result<ImageView, CodegenError>
    decreases t, t.children.len() + 2,
{
    let tag = t.tag();
    if is_arithmetic(tag) || is_comparison(tag) || is_connective(tag) {
        match emit_expr_kid(ctx, img, t, 0) {
            Err(e) => Err(e),
            Ok(a) => match emit_expr_kid(ctx, a, t, 1) {
                Err(e) => Err(e),
                Ok(b) => {
                    if tag == NodeTag::AndOp {
                        Ok(b.put(seq![AND]))
                    } else if tag == NodeTag::OrOp {
                        Ok(b.put(seq![OR]))
                    } else if is_comparison(tag) {
                        match typed(kid_type(ctx.env(), t, 0)) {
                            Err(e) => Err(e),
                            Ok(ty) => Ok(b.put(seq![compare_op(tag, ty)])),
                        }
                    } else {
                        match typed(type_of(ctx.env(), t)) {
                            Err(e) => Err(e),
                            Ok(ty) => Ok(b.put(seq![arith_op(tag, ty)])),
                        }
                    }
                },
            },
        }
    } else if tag == NodeTag::InputList {
        if item_count(t) > u32::MAX {
            Err(CodegenError::TooLarge)
        } else {
            emit_array(ctx, img, t, 0)
        }
    } else if tag == NodeTag::FnCall {
        emit_call(ctx, img, t)
    } else {
        match t.node {
            NodeView::Integer(n) => Ok(img.put_op(PUSH_I32, bits_of(n))),
            NodeView::Float(f) => Ok(img.put_op(PUSH_F32, 0).with_float(f)),
            NodeView::Character(c) => Ok(img.put(seq![PUSH_CHAR, byte_of(c)])),
            NodeView::Plain(NodeTag::True) => Ok(img.put(seq![PUSH_BOOL, 1u8])),
            NodeView::Plain(NodeTag::False) => Ok(img.put(seq![PUSH_BOOL, 0u8])),
            NodeView::Identifier(name) => match find_slot(ctx.slots, name, 0) {
                None => Err(CodegenError::UnknownVariable),
                Some(i) => match emit_index_kid(ctx, img, t, 0, ctx.slots[i].ty) {
                    Err(e) => Err(e),
                    Ok(a) => Ok(a.put_op(load_op(ctx.slots[i].ty), ctx.slots[i].addr)),
                },
            },
            _ => emit_exprs_from(ctx, img, t, 0),
        }
    }
}

/// The bytecode of the `k`-th subtree of `t` as an expression.
pub open spec fn emit_expr_kid(ctx: Ctx, img: ImageView, t: AstView, k: int) -> Result<
    ImageView,
    CodegenError,
>
    decreases t, 0nat,
{
    if 0 <= k < t.children.len() {
        emit_expr(ctx, img, t.children[k])
    } else {
        Ok(img)
    }
}

/// The bytecode of the subtrees of `t` from the `i`-th on as expressions.
pub open spec fn emit_exprs_from(ctx: Ctx, img: ImageView, t: AstView, i: int) -> Result<
    ImageView,
    CodegenError,
>
    decreases t, t.children.len() - i,
{
    if i < 0 || i >= t.children.len() {
        Ok(img)
    } else {
        match emit_expr(ctx, img, t.children[i]) {
            Err(e) => Err(e),
            Ok(a) => emit_exprs_from(ctx, a, t, i + 1),
        }
    }
}

/// The bytecode of an array literal whose first element has the index
/// `base`: the elements after the first item come first, then the first
/// item; an element is its expression followed by the push of its index.
/// So the elements come from the last to the first. A literal of more
/// elements than a 32-bit index can count is refused before this.
pub open spec fn emit_array(ctx: Ctx, img: ImageView, t: AstView, base: int) -> Result<
    ImageView,
    CodegenError,
>
    decreases t, 1nat,
{
    if t.tag() != NodeTag::InputList {
        Ok(img)
    } else {
        match emit_array_kid(ctx, img, t, 1, base + first_count(t)) {
            Err(e) => Err(e),
            Ok(a) => {
                if t.children.len() == 0 || t.children[0].tag() == NodeTag::Null {
                    Ok(a)
                } else if t.children[0].tag() == NodeTag::InputList {
                    emit_array_kid(ctx, a, t, 0, base)
                } else {
                    match emit_expr_kid(ctx, a, t, 0) {
                        Err(e) => Err(e),
                        Ok(b) => Ok(b.put_op(PUSH_I32, base as u32)),
                    }
                }
            },
        }
    }
}

/// The bytecode of the `k`-th subtree of `t` as an array literal.
pub open spec fn emit_array_kid(ctx: Ctx, img: ImageView, t: AstView, k: int, base: int) -> Result<
    ImageView,
    CodegenError,
>
    decreases t, 0nat,
{
    if 0 <= k < t.children.len() {
        emit_array(ctx, img, t.children[k], base)
    } else {
        Ok(img)
    }
}

/// The call sequence: the push of the return address, the arguments, and
/// the jump to the callee. The operand of the jump is noted as awaiting
/// the offset of the callee; the return address is the offset just after
/// the jump.
pub open spec fn emit_call(ctx: Ctx, img: ImageView, t: AstView) -> Result<ImageView, CodegenError>
    decreases t, 1nat,
{
    let a = img.put_op(PUSH_I32, 0);
    match emit_inputs_kid(ctx, a, t, 1) {
        Err(e) => Err(e),
        Ok(b) => {
            let c = b.put_op(JMP, 0).with_call(name_of(t.child(0)), img.bytes.len() as int);
            if c.bytes.len() > u32::MAX {
                Err(CodegenError::TooLarge)
            } else {
                Ok(c.patched(img.bytes.len() as int + 1, c.bytes.len() as u32))
            }
        },
    }
}

/// The bytecode of the arguments of a call: the last argument first.
pub open spec fn emit_inputs(ctx: Ctx, img: ImageView, t: AstView) -> Result<ImageView, CodegenError>
    decreases t, t.children.len() + 2,
{
    if t.tag() == NodeTag::InputList {
        match emit_inputs_kid(ctx, img, t, 1) {
            Err(e) => Err(e),
            Ok(a) => emit_expr_kid(ctx, a, t, 0),
        }
    } else {
        emit_inputs_from(ctx, img, t, 0)
    }
}

/// The bytecode of the `k`-th subtree of `t` as arguments.
pub open spec fn emit_inputs_kid(ctx: Ctx, img: ImageView, t: AstView, k: int) -> Result<
    ImageView,
    CodegenError,
>
    decreases t, 0nat,
{
    if 0 <= k < t.children.len() {
        emit_inputs(ctx, img, t.children[k])
    } else {
        Ok(img)
    }
}

/// The bytecode of the subtrees of `t` from the `i`-th on as arguments.
pub open spec fn emit_inputs_from(ctx: Ctx, img: ImageView, t: AstView, i: int) -> Result<
    ImageView,
    CodegenError,
>
    decreases t, t.children.len() - i,
{
    if i < 0 || i >= t.children.len() {
        Ok(img)
    } else {
        match emit_inputs(ctx, img, t.children[i]) {
            Err(e) => Err(e),
            Ok(a) => emit_inputs_from(ctx, a, t, i + 1),
        }
    }
}

/// The bytecode that computes how many bytes an indexed element lies from
/// the start of a value of the type `ty`: each index times the stride of
/// its level, all added up.
pub open spec fn emit_index(ctx: Ctx, img: ImageView, t: AstView, ty: TypeView) -> Result<
    ImageView,
    CodegenError,
>
    decreases t, t.children.len() + 2,
{
    if t.tag() == NodeTag::Index {
        match emit_expr_kid(ctx, img, t, 0) {
            Err(e) => Err(e),
            Ok(a) => {
                let b = a.put_op(PUSH_I32, stride(ty)).put(seq![MUL_I32]);
                match emit_index_kid(ctx, b, t, 1, element(ty)) {
                    Err(e) => Err(e),
                    Ok(c) => if t.child(1).tag() != NodeTag::Null {
                        Ok(c.put(seq![ADD_I32]))
                    } else {
                        Ok(c)
                    },
                }
            },
        }
    } else {
        Ok(img)
    }
}

/// The index computation of the `k`-th subtree of `t`.
pub open spec fn emit_index_kid(ctx: Ctx, img: ImageView, t: AstView, k: int, ty: TypeView) -> Result<
    ImageView,
    CodegenError,
>
    decreases t, 0nat,
{
    if 0 <= k < t.children.len() {
        emit_index(ctx, img, t.children[k], ty)
    } else {
        Ok(img)
    }
}

/// The image with `n` indexed stores into the array at `addr`.
pub open spec fn put_stores(img: ImageView, op: u8, addr: u32, n: int) -> ImageView
    decreases n,
{
    if n <= 0 {
        img
    } else {
        put_stores(img, op, addr, n - 1).put_op(op, addr)
    }
}

/// The store that ends a declaration: one store into the slot of a
/// variable of a primitive type, and for an array one indexed store for
/// each of its innermost elements.
pub open spec fn put_initial_store(img: ImageView, ty: TypeView, addr: u32) -> ImageView {
    match ty {
        TypeView::Array(_, _) => put_stores(img, store_arr_op(ty), addr, element_count(ty)),
        _ => img.put_op(store_op(ty), addr),
    }
}

/// The opcode of the store that ends an assignment: into the slot of a
/// variable of a primitive type, or indexed into an array.
pub open spec fn assign_op(ty: TypeView, is_indexed: bool) -> u8 {
    match ty {
        TypeView::Array(_, _) => if is_indexed {
            store_arr_op(ty)
        } else {
            crate::bytecode::NO_OPCODE
        },
        _ => store_op(ty),
    }
}

/// The bytecode of a statement, put at the end of the image.
///
/// - A declaration has its initializer and the store into its slot.
/// - An assignment has its value, its index computation, if the target is
///   indexed, and the store.
/// - A call has the call sequence.
/// - A loop has its condition, a jump past the loop when it is false, its
///   body, and a jump back to the condition.
/// - An `if` has its condition, a jump to the `else` branch when it is
///   false, its first branch, a jump past the `else` branch, and that.
/// - A `return` has its expression and the return of a value.
/// - Anything else has the bytecode of its subtrees, in order.
pub open spec fn emit_stmt(ctx: Ctx, img: ImageView, t: AstView) -> Result<ImageView, CodegenError>
    decreases t, t.children.len() + 2,
{
    let tag = t.tag();
    if tag == NodeTag::DeclareConst || tag == NodeTag::DeclareVar {
        match emit_expr_kid(ctx, img, t, 2) {
            Err(e) => Err(e),
            Ok(a) => match find_slot(ctx.slots, name_of(t.child(0)), 0) {
                None => Err(CodegenError::UnknownVariable),
                Some(i) => Ok(put_initial_store(a, ctx.slots[i].ty, ctx.slots[i].addr)),
            },
        }
    } else if tag == NodeTag::Assign {
        match emit_expr_kid(ctx, img, t, 2) {
            Err(e) => Err(e),
            Ok(a) => match find_slot(ctx.slots, name_of(t.child(0)), 0) {
                None => Err(CodegenError::UnknownVariable),
                Some(i) => {
                    let is_indexed = t.child(1).tag() == NodeTag::Index;
                    let b = if is_indexed {
                        emit_index_kid(ctx, a, t, 1, ctx.slots[i].ty)
                    } else {
                        Ok(a)
                    };
                    match b {
                        Err(e) => Err(e),
                        Ok(b) => Ok(
                            b.put_op(assign_op(ctx.slots[i].ty, is_indexed), ctx.slots[i].addr),
                        ),
                    }
                },
            },
        }
    } else if tag == NodeTag::FnCall {
        emit_call(ctx, img, t)
    } else if tag == NodeTag::WhileLoop {
        if img.bytes.len() > u32::MAX {
            Err(CodegenError::TooLarge)
        } else {
            match emit_expr_kid(ctx, img, t, 0) {
                Err(e) => Err(e),
                Ok(a) => {
                    let b = a.put_op(JMP_IF_FALSE, 0);
                    match emit_stmt_kid(ctx, b, t, 1) {
                        Err(e) => Err(e),
                        Ok(c) => {
                            let d = c.put_op(JMP, img.bytes.len() as u32);
                            if d.bytes.len() > u32::MAX {
                                Err(CodegenError::TooLarge)
                            } else {
                                Ok(d.patched(a.bytes.len() as int + 1, d.bytes.len() as u32))
                            }
                        },
                    }
                },
            }
        }
    } else if tag == NodeTag::IfStmt {
        match emit_expr_kid(ctx, img, t, 0) {
            Err(e) => Err(e),
            Ok(a) => {
                let b = a.put_op(JMP_IF_FALSE, 0);
                match emit_stmt_kid(ctx, b, t, 1) {
                    Err(e) => Err(e),
                    Ok(c) => {
                        let d = c.put_op(JMP, 0);
                        if d.bytes.len() > u32::MAX {
                            Err(CodegenError::TooLarge)
                        } else {
                            let d1 = d.patched(a.bytes.len() as int + 1, d.bytes.len() as u32);
                            match emit_stmt_kid(ctx, d1, t, 2) {
                                Err(e) => Err(e),
                                Ok(f) => if f.bytes.len() > u32::MAX {
                                    Err(CodegenError::TooLarge)
                                } else {
                                    Ok(f.patched(c.bytes.len() as int + 1, f.bytes.len() as u32))
                                },
                            }
                        }
                    },
                }
            },
        }
    } else if tag == NodeTag::ReturnValue {
        match emit_expr_kid(ctx, img, t, 0) {
            Err(e) => Err(e),
            Ok(a) => Ok(a.put(seq![RET_VAL])),
        }
    } else {
        emit_stmts_from(ctx, img, t, 0)
    }
}

/// The bytecode of the `k`-th subtree of `t` as a statement.
pub open spec fn emit_stmt_kid(ctx: Ctx, img: ImageView, t: AstView, k: int) -> Result<
    ImageView,
    CodegenError,
>
    decreases t, 0nat,
{
    if 0 <= k < t.children.len() {
        emit_stmt(ctx, img, t.children[k])
    } else {
        Ok(img)
    }
}

/// The bytecode of the subtrees of `t` from the `i`-th on as statements.
pub open spec fn emit_stmts_from(ctx: Ctx, img: ImageView, t: AstView, i: int) -> Result<
    ImageView,
    CodegenError,
>
    decreases t, t.children.len() - i,
{
    if i < 0 || i >= t.children.len() {
        Ok(img)
    } else {
        match emit_stmt(ctx, img, t.children[i]) {
            Err(e) => Err(e),
            Ok(a) => emit_stmts_from(ctx, a, t, i + 1),
        }
    }
}

/// Whether the four bytes from `at` on are the bytes of the number `v`.
pub open spec fn holds_word(bytes: Seq<u8>, at: int, v: int) -> bool {
    &&& 0 <= at && at + 4 <= bytes.len() && 0 <= v <= u32::MAX
    &&& bytes[at] == crate::bytecode::be32(v as u32)[0]
    &&& bytes[at + 1] == crate::bytecode::be32(v as u32)[1]
    &&& bytes[at + 2] == crate::bytecode::be32(v as u32)[2]
    &&& bytes[at + 3] == crate::bytecode::be32(v as u32)[3]
}

/// Whether the call sequence of a call stands in the bytes: it begins
/// with the push of the offset at which it ends, just behind its jump,
/// and the place that awaits the callee is the operand of that jump.
pub open spec fn call_framed(bytes: Seq<u8>, c: crate::bytecode::CallView) -> bool {
    &&& 0 <= c.origin && c.origin + 6 <= c.offset && c.offset + 4 <= bytes.len()
    &&& bytes[c.origin] == PUSH_I32
    &&& holds_word(bytes, c.origin + 1, c.offset + 4)
    &&& bytes[c.offset - 1] == JMP
}

/// Whether the call sequences of all calls of an image stand in it, the
/// places that await a callee one after the other, and apart from the
/// pushes of the return addresses.
pub open spec fn framed(img: ImageView) -> bool {
    &&& forall|i: int| 0 <= i < img.calls.len() ==> call_framed(img.bytes, #[trigger] img.calls[i])
    &&& forall|i: int, k: int|
        0 <= i < k < img.calls.len() ==> (#[trigger] img.calls[i]).offset + 5 <= (
        #[trigger] img.calls[k]).offset
    &&& forall|i: int, k: int|
        0 <= i < img.calls.len() && 0 <= k < img.calls.len() ==> (#[trigger] img.calls[i]).origin + 5
            <= (#[trigger] img.calls[k]).offset || img.calls[k].offset + 4 <= img.calls[i].origin
}

/// Whether the image `new` is the image `old` grown at its end: the bytes
/// of `old` are a prefix of the bytes of `new`; the calls and float
/// literals that await a value are those of `old` and then new ones; and
/// every new place lies in the bytes that were added, apart from every
/// other new place of its kind, as does the call sequence that a new call
/// ends; and the call sequences stand in `new` when they stand in `old`.
pub open spec fn follows(old: ImageView, new: ImageView) -> bool {
    &&& old.bytes.len() <= new.bytes.len()
    &&& new.bytes.subrange(0, old.bytes.len() as int) =~= old.bytes
    &&& old.calls.len() <= new.calls.len()
    &&& new.calls.subrange(0, old.calls.len() as int) =~= old.calls
    &&& forall|j: int|
        old.calls.len() <= j < new.calls.len() ==> old.bytes.len() <= (#[trigger] new.calls[j]).origin
            && new.calls[j].origin + 6 <= new.calls[j].offset && new.calls[j].offset + 4
            <= new.bytes.len()
    &&& forall|i: int, j: int|
        old.calls.len() <= i < j < new.calls.len() ==> (#[trigger] new.calls[i]).offset + 4 <= (
        #[trigger] new.calls[j]).offset
    &&& old.floats.len() <= new.floats.len()
    &&& new.floats.subrange(0, old.floats.len() as int) =~= old.floats
    &&& forall|j: int|
        old.floats.len() <= j < new.floats.len() ==> old.bytes.len() <= (
        #[trigger] new.floats[j]).offset && new.floats[j].offset + 4 <= new.bytes.len()
    &&& framed(old) ==> framed(new)
}

/// An image that grows by an instruction whose operand awaits the bits of
/// a float literal.
pub proof fn lemma_follows_float(base: ImageView, img: ImageView, op: u8, literal: crate::token::FloatView)
    requires
        follows(base, img),
    ensures
        follows(base, img.put_op(op, 0).with_float(literal)),
{
    let new = img.put_op(op, 0).with_float(literal);
    assert(new.bytes.len() == img.bytes.len() + 5);
    assert(new.floats.subrange(0, base.floats.len() as int) =~= img.floats.subrange(
        0,
        base.floats.len() as int,
    ));
    assert forall|j: int| base.floats.len() <= j < new.floats.len() implies base.bytes.len() <= (
    #[trigger] new.floats[j]).offset && new.floats[j].offset + 4 <= new.bytes.len() by {
        if j < img.floats.len() {
            assert(new.floats[j] == img.floats[j]);
        }
    }
}

/// Indexed stores only add bytes.
pub proof fn lemma_follows_stores(base: ImageView, img: ImageView, op: u8, addr: u32, n: int)
    requires
        follows(base, img),
    ensures
        follows(base, put_stores(img, op, addr, n)),
    decreases n,
{
    if n > 0 {
        lemma_follows_stores(base, img, op, addr, n - 1);
    }
}

/// Emission of an expression only lets the image grow at its end.
pub proof fn lemma_emit_expr_follows(ctx: Ctx, base: ImageView, img: ImageView, t: AstView)
    requires
        follows(base, img),
    ensures
        emit_expr(ctx, img, t) matches Ok(r) ==> follows(base, r),
    decreases t, t.children.len() + 2,
{
    let tag = t.tag();
    if is_arithmetic(tag) || is_comparison(tag) || is_connective(tag) {
        lemma_emit_expr_kid_follows(ctx, base, img, t, 0);
        if let Ok(a) = emit_expr_kid(ctx, img, t, 0) {
            lemma_emit_expr_kid_follows(ctx, base, a, t, 1);
        }
    } else if tag == NodeTag::InputList {
        lemma_emit_array_follows(ctx, base, img, t, 0);
    } else if tag == NodeTag::FnCall {
        lemma_emit_call_follows(ctx, base, img, t);
    } else {
        match t.node {
            NodeView::Float(f) => {
                lemma_follows_float(base, img, PUSH_F32, f);
            },
            NodeView::Identifier(name) => {
                if let Some(i) = find_slot(ctx.slots, name, 0) {
                    lemma_emit_index_kid_follows(ctx, base, img, t, 0, ctx.slots[i].ty);
                }
            },
            NodeView::Integer(_) => {},
            NodeView::Character(_) => {},
            NodeView::Plain(NodeTag::True) => {},
            NodeView::Plain(NodeTag::False) => {},
            _ => {
                lemma_emit_exprs_from_follows(ctx, base, img, t, 0);
            },
        }
    }
}

/// Emission of a subtree as an expression only lets the image grow at its end.
pub proof fn lemma_emit_expr_kid_follows(ctx: Ctx, base: ImageView, img: ImageView, t: AstView, k: int)
    requires
        follows(base, img),
    ensures
        emit_expr_kid(ctx, img, t, k) matches Ok(r) ==> follows(base, r),
    decreases t, 0nat,
{
    if 0 <= k < t.children.len() {
        lemma_emit_expr_follows(ctx, base, img, t.children[k]);
    }
}

/// Emission of subtrees as expressions only lets the image grow at its end.
pub proof fn lemma_emit_exprs_from_follows(
    ctx: Ctx,
    base: ImageView,
    img: ImageView,
    t: AstView,
    i: int,
)
    requires
        follows(base, img),
    ensures
        emit_exprs_from(ctx, img, t, i) matches Ok(r) ==> follows(base, r),
    decreases t, t.children.len() - i,
{
    if 0 <= i < t.children.len() {
        lemma_emit_expr_follows(ctx, base, img, t.children[i]);
        if let Ok(a) = emit_expr(ctx, img, t.children[i]) {
            lemma_emit_exprs_from_follows(ctx, base, a, t, i + 1);
        }
    }
}

/// Emission of an array literal only lets the image grow at its end.
pub proof fn lemma_emit_array_follows(
    ctx: Ctx,
    base: ImageView,
    img: ImageView,
    t: AstView,
    first: int,
)
    requires
        follows(base, img),
    ensures
        emit_array(ctx, img, t, first) matches Ok(r) ==> follows(base, r),
    decreases t, 1nat,
{
    if t.tag() == NodeTag::InputList {
        lemma_emit_array_kid_follows(ctx, base, img, t, 1, first + first_count(t));
        if let Ok(a) = emit_array_kid(ctx, img, t, 1, first + first_count(t)) {
            if t.children.len() == 0 || t.children[0].tag() == NodeTag::Null {
            } else if t.children[0].tag() == NodeTag::InputList {
                lemma_emit_array_kid_follows(ctx, base, a, t, 0, first);
            } else {
                lemma_emit_expr_kid_follows(ctx, base, a, t, 0);
            }
        }
    }
}

/// Emission of a subtree as an array literal only lets the image grow at its end.
pub proof fn lemma_emit_array_kid_follows(
    ctx: Ctx,
    base: ImageView,
    img: ImageView,
    t: AstView,
    k: int,
    first: int,
)
    requires
        follows(base, img),
    ensures
        emit_array_kid(ctx, img, t, k, first) matches Ok(r) ==> follows(base, r),
    decreases t, 0nat,
{
    if 0 <= k < t.children.len() {
        lemma_emit_array_follows(ctx, base, img, t.children[k], first);
    }
}

/// Emission of a call only lets the image grow at its end.
pub proof fn lemma_emit_call_follows(ctx: Ctx, base: ImageView, img: ImageView, t: AstView)
    requires
        follows(base, img),
    ensures
        emit_call(ctx, img, t) matches Ok(r) ==> follows(base, r),
    decreases t, 1nat,
{
    let a = img.put_op(PUSH_I32, 0);
    lemma_emit_inputs_kid_follows(ctx, base, a, t, 1);
    if let Ok(b) = emit_inputs_kid(ctx, a, t, 1) {
        if let Ok(r) = emit_call(ctx, img, t) {
            let at = img.bytes.len() as int;
            let c = b.put_op(JMP, 0).with_call(name_of(t.child(0)), at);
            assert(a.bytes.len() == at + 5);
            assert(c.bytes.len() == b.bytes.len() + 5);
            lemma_follows_self(a);
            lemma_emit_inputs_kid_follows(ctx, a, a, t, 1);
            assert(r.calls.subrange(0, base.calls.len() as int) =~= b.calls.subrange(
                0,
                base.calls.len() as int,
            ));
            assert forall|j: int| base.calls.len() <= j < r.calls.len() implies base.bytes.len() <= (
            #[trigger] r.calls[j]).origin && r.calls[j].origin + 6 <= r.calls[j].offset
                && r.calls[j].offset + 4 <= r.bytes.len() by {
                if j < b.calls.len() {
                    assert(r.calls[j] == b.calls[j]);
                }
            }
            assert forall|i: int, j: int| base.calls.len() <= i < j < r.calls.len() implies (
            #[trigger] r.calls[i]).offset + 4 <= (#[trigger] r.calls[j]).offset by {
                assert(r.calls[i] == b.calls[i]);
                if j < b.calls.len() {
                    assert(r.calls[j] == b.calls[j]);
                }
            }
            assert(r.bytes.subrange(0, base.bytes.len() as int) =~= base.bytes) by {
                assert(b.bytes.subrange(0, base.bytes.len() as int) =~= base.bytes);
            }
            if framed(base) {
                lemma_call_framed(img, a, b, r, name_of(t.child(0)));
            }
        }
    }
}

/// The call sequences of an image stand in it after one more call
/// sequence is put at its end: `a` is the image with the push of the
/// return address, `b` the image with the arguments, and `r` the image
/// with the jump, once the return address is patched in.
proof fn lemma_call_framed(img: ImageView, a: ImageView, b: ImageView, r: ImageView, name: Seq<char>)
    requires
        framed(img),
        framed(b),
        a == img.put_op(PUSH_I32, 0),
        follows(a, b),
        b.bytes.len() + 5 <= u32::MAX,
        r == b.put_op(JMP, 0).with_call(name, img.bytes.len() as int).patched(
            img.bytes.len() as int + 1,
            (b.bytes.len() + 5) as u32,
        ),
    ensures
        framed(r),
{
    let at = img.bytes.len() as int;
    let n = b.calls.len() as int;
    let c = b.put_op(JMP, 0).with_call(name, at);
    let end = b.bytes.len() as int + 5;
    assert(a.bytes.len() == at + 5);
    assert(c.bytes.len() == end);
    assert(r.bytes.len() == end);
    assert(a.calls == img.calls);
    assert(r.calls[n] == (crate::bytecode::CallView { offset: end - 4, name, origin: at }));
    assert forall|k: int| 0 <= k < end && !(at + 1 <= k < at + 5) implies r.bytes[k] == c.bytes[k] by {}
    assert forall|k: int| 0 <= k < b.bytes.len() implies c.bytes[k] == b.bytes[k] by {}
    assert forall|k: int| 0 <= k < at + 5 implies b.bytes[k] == a.bytes[k] by {
        assert(b.bytes.subrange(0, a.bytes.len() as int)[k] == a.bytes[k]);
    }
    // Where every earlier call lies: before this sequence, or among its
    // arguments.
    assert forall|i: int| 0 <= i < n implies (#[trigger] b.calls[i]).offset + 4 <= at || at + 5
        <= b.calls[i].origin by {
        if i < img.calls.len() {
            assert(b.calls.subrange(0, a.calls.len() as int)[i] == a.calls[i]);
            assert(call_framed(img.bytes, img.calls[i]));
        }
    }
    assert forall|i: int| 0 <= i < r.calls.len() implies call_framed(r.bytes, #[trigger] r.calls[i]) by {
        if i < n {
            let ci = b.calls[i];
            assert(r.calls[i] == ci);
            assert(call_framed(b.bytes, ci));
            assert(ci.offset + 4 <= at || at + 5 <= ci.origin);
        } else {
            assert(r.bytes[at] == a.bytes[at]);
            assert(c.bytes[end - 5] == JMP);
        }
    }
    assert forall|i: int, k: int| 0 <= i < k < r.calls.len() implies (#[trigger] r.calls[i]).offset + 5
        <= (#[trigger] r.calls[k]).offset by {
        assert(r.calls[i] == b.calls[i]);
        assert(call_framed(b.bytes, b.calls[i]));
        if k < n {
            assert(r.calls[k] == b.calls[k]);
        }
    }
    assert forall|i: int, k: int| 0 <= i < r.calls.len() && 0 <= k < r.calls.len() implies (
    #[trigger] r.calls[i]).origin + 5 <= (#[trigger] r.calls[k]).offset || r.calls[k].offset + 4
        <= r.calls[i].origin by {
        if i < n {
            assert(r.calls[i] == b.calls[i]);
            assert(call_framed(b.bytes, b.calls[i]));
        }
        if k < n {
            assert(r.calls[k] == b.calls[k]);
            assert(call_framed(b.bytes, b.calls[k]));
            assert(b.calls[k].offset + 4 <= at || at + 5 <= b.calls[k].origin);
        }
    }
}

/// The first slot of a name is a slot of that name.
pub proof fn lemma_find_slot(slots: Seq<SlotView>, name: Seq<char>, from: int)
    requires
        0 <= from,
    ensures
        find_slot(slots, name, from) matches Some(i) ==> from <= i < slots.len() && slots[i].name
            == name,
    decreases slots.len() - from,
{
    if from < slots.len() && slots[from].name != name {
        lemma_find_slot(slots, name, from + 1);
    }
}

/// A load names a slot. The bytecode of the use of a name ends with the
/// load for the type of the first slot of that name, whose operand is the
/// address of that slot.
pub proof fn lemma_load_uses_slot(ctx: Ctx, img: ImageView, t: AstView, name: Seq<char>)
    requires
        t.node == NodeView::Identifier(name),
        emit_expr(ctx, img, t) is Ok,
    ensures
        ({
            let r = emit_expr(ctx, img, t)->Ok_0;
            let n = r.bytes.len() as int;
            &&& find_slot(ctx.slots, name, 0) matches Some(i) && 0 <= i < ctx.slots.len()
                && ctx.slots[i].name == name && n >= 5 && r.bytes[n - 5] == load_op(ctx.slots[i].ty)
                && r.bytes.subrange(n - 4, n) == crate::bytecode::be32(ctx.slots[i].addr)
        }),
{
    lemma_find_slot(ctx.slots, name, 0);
    let i = find_slot(ctx.slots, name, 0)->0;
    let a = emit_index_kid(ctx, img, t, 0, ctx.slots[i].ty)->Ok_0;
    let r = a.put_op(load_op(ctx.slots[i].ty), ctx.slots[i].addr);
    let n = r.bytes.len() as int;
    assert(n == a.bytes.len() + 5);
    assert(r.bytes.subrange(n - 4, n) =~= crate::bytecode::be32(ctx.slots[i].addr));
}

/// A store names a slot. The bytecode of an assignment ends with the store
/// for the type of the first slot of the name assigned to, whose operand
/// is the address of that slot.
pub proof fn lemma_store_uses_slot(ctx: Ctx, img: ImageView, t: AstView)
    requires
        t.tag() == NodeTag::Assign,
        emit_stmt(ctx, img, t) is Ok,
    ensures
        ({
            let r = emit_stmt(ctx, img, t)->Ok_0;
            let n = r.bytes.len() as int;
            let name = name_of(t.child(0));
            &&& find_slot(ctx.slots, name, 0) matches Some(i) && 0 <= i < ctx.slots.len()
                && ctx.slots[i].name == name && n >= 5 && r.bytes[n - 5] == assign_op(
                ctx.slots[i].ty,
                t.child(1).tag() == NodeTag::Index,
            ) && r.bytes.subrange(n - 4, n) == crate::bytecode::be32(ctx.slots[i].addr)
        }),
{
    let name = name_of(t.child(0));
    lemma_find_slot(ctx.slots, name, 0);
    let i = find_slot(ctx.slots, name, 0)->0;
    let r = emit_stmt(ctx, img, t)->Ok_0;
    let n = r.bytes.len() as int;
    let a = emit_expr_kid(ctx, img, t, 2)->Ok_0;
    let is_indexed = t.child(1).tag() == NodeTag::Index;
    let b = if is_indexed {
        emit_index_kid(ctx, a, t, 1, ctx.slots[i].ty)->Ok_0
    } else {
        a
    };
    assert(r == b.put_op(assign_op(ctx.slots[i].ty, is_indexed), ctx.slots[i].addr));
    assert(n == b.bytes.len() + 5);
    assert(r.bytes.subrange(n - 4, n) =~= crate::bytecode::be32(ctx.slots[i].addr));
}

/// The store of a declaration names a slot. The bytecode of a declaration
/// ends with a store for the type of the first slot of the name declared,
/// whose operand is the address of that slot; for an array that holds an
/// element, it is the last of its indexed stores.
pub proof fn lemma_declaration_uses_slot(ctx: Ctx, img: ImageView, t: AstView)
    requires
        t.tag() == NodeTag::DeclareConst || t.tag() == NodeTag::DeclareVar,
        emit_stmt(ctx, img, t) is Ok,
        find_slot(ctx.slots, name_of(t.child(0)), 0) matches Some(i) && (ctx.slots[i].ty is Array
            ==> element_count(ctx.slots[i].ty) >= 1),
    ensures
        ({
            let r = emit_stmt(ctx, img, t)->Ok_0;
            let n = r.bytes.len() as int;
            let slot = ctx.slots[find_slot(ctx.slots, name_of(t.child(0)), 0)->0];
            &&& slot.name == name_of(t.child(0))
            &&& n >= 5
            &&& r.bytes[n - 5] == (if slot.ty is Array {
                store_arr_op(slot.ty)
            } else {
                store_op(slot.ty)
            })
            &&& r.bytes.subrange(n - 4, n) == crate::bytecode::be32(slot.addr)
        }),
{
    let name = name_of(t.child(0));
    lemma_find_slot(ctx.slots, name, 0);
    let slot = ctx.slots[find_slot(ctx.slots, name, 0)->0];
    let a = emit_expr_kid(ctx, img, t, 2)->Ok_0;
    let r = emit_stmt(ctx, img, t)->Ok_0;
    let n = r.bytes.len() as int;
    assert(r == put_initial_store(a, slot.ty, slot.addr));
    if slot.ty is Array {
        let before = put_stores(a, store_arr_op(slot.ty), slot.addr, element_count(slot.ty) - 1);
        assert(r == before.put_op(store_arr_op(slot.ty), slot.addr));
        assert(n == before.bytes.len() + 5);
    } else {
        assert(n == a.bytes.len() + 5);
    }
    assert(r.bytes.subrange(n - 4, n) =~= crate::bytecode::be32(slot.addr));
}

/// The call sequence returns to where it ends. What a call adds to an
/// image begins with the push of the offset at which the sequence ends,
/// just behind its jump; it ends with the jump, whose operand is zero and
/// is noted as the last call that awaits the offset of its callee; and
/// the image before the call is untouched.
pub proof fn lemma_call_returns_behind_jump(ctx: Ctx, img: ImageView, t: AstView)
    requires
        emit_call(ctx, img, t) is Ok,
    ensures
        ({
            let r = emit_call(ctx, img, t)->Ok_0;
            let at = img.bytes.len() as int;
            let end = r.bytes.len() as int;
            &&& at + 10 <= end <= u32::MAX
            &&& r.bytes.subrange(0, at) == img.bytes
            &&& r.bytes[at] == PUSH_I32
            &&& r.bytes.subrange(at + 1, at + 5) == crate::bytecode::be32(end as u32)
            &&& r.bytes[end - 5] == JMP
            &&& r.bytes.subrange(end - 4, end) == crate::bytecode::be32(0)
            &&& r.calls.len() > 0
            &&& r.calls.last() == (crate::bytecode::CallView {
                offset: end - 4,
                name: name_of(t.child(0)),
                origin: at,
            })
        }),
{
    let a = img.put_op(PUSH_I32, 0);
    lemma_follows_self(a);
    lemma_emit_inputs_kid_follows(ctx, a, a, t, 1);
    let b = emit_inputs_kid(ctx, a, t, 1)->Ok_0;
    let c = b.put_op(JMP, 0).with_call(name_of(t.child(0)), img.bytes.len() as int);
    let r = emit_call(ctx, img, t)->Ok_0;
    let at = img.bytes.len() as int;
    let end = r.bytes.len() as int;
    assert(a.bytes.len() == at + 5);
    assert(c.bytes.len() == b.bytes.len() + 5);
    assert(r.bytes == crate::bytecode::patch(c.bytes, at + 1, end as u32));
    assert forall|k: int| 0 <= k < at + 5 implies c.bytes[k] == a.bytes[k] by {
        assert(b.bytes.subrange(0, a.bytes.len() as int)[k] == a.bytes[k]);
    }
    assert(r.bytes.subrange(0, at) =~= img.bytes);
    assert(r.bytes.subrange(at + 1, at + 5) =~= crate::bytecode::be32(end as u32));
    assert(r.bytes.subrange(end - 4, end) =~= crate::bytecode::be32(0));
}

/// Emission of arguments only lets the image grow at its end.
pub proof fn lemma_emit_inputs_follows(ctx: Ctx, base: ImageView, img: ImageView, t: AstView)
    requires
        follows(base, img),
    ensures
        emit_inputs(ctx, img, t) matches Ok(r) ==> follows(base, r),
    decreases t, t.children.len() + 2,
{
    if t.tag() == NodeTag::InputList {
        lemma_emit_inputs_kid_follows(ctx, base, img, t, 1);
        if let Ok(a) = emit_inputs_kid(ctx, img, t, 1) {
            lemma_emit_expr_kid_follows(ctx, base, a, t, 0);
        }
    } else {
        lemma_emit_inputs_from_follows(ctx, base, img, t, 0);
    }
}

/// Emission of a subtree as arguments only lets the image grow at its end.
pub proof fn lemma_emit_inputs_kid_follows(
    ctx: Ctx,
    base: ImageView,
    img: ImageView,
    t: AstView,
    k: int,
)
    requires
        follows(base, img),
    ensures
        emit_inputs_kid(ctx, img, t, k) matches Ok(r) ==> follows(base, r),
    decreases t, 0nat,
{
    if 0 <= k < t.children.len() {
        lemma_emit_inputs_follows(ctx, base, img, t.children[k]);
    }
}

/// Emission of subtrees as arguments only lets the image grow at its end.
pub proof fn lemma_emit_inputs_from_follows(
    ctx: Ctx,
    base: ImageView,
    img: ImageView,
    t: AstView,
    i: int,
)
    requires
        follows(base, img),
    ensures
        emit_inputs_from(ctx, img, t, i) matches Ok(r) ==> follows(base, r),
    decreases t, t.children.len() - i,
{
    if 0 <= i < t.children.len() {
        lemma_emit_inputs_follows(ctx, base, img, t.children[i]);
        if let Ok(a) = emit_inputs(ctx, img, t.children[i]) {
            lemma_emit_inputs_from_follows(ctx, base, a, t, i + 1);
        }
    }
}

/// Emission of an index computation only lets the image grow at its end.
pub proof fn lemma_emit_index_follows(
    ctx: Ctx,
    base: ImageView,
    img: ImageView,
    t: AstView,
    ty: TypeView,
)
    requires
        follows(base, img),
    ensures
        emit_index(ctx, img, t, ty) matches Ok(r) ==> follows(base, r),
    decreases t, t.children.len() + 2,
{
    if t.tag() == NodeTag::Index {
        lemma_emit_expr_kid_follows(ctx, base, img, t, 0);
        if let Ok(a) = emit_expr_kid(ctx, img, t, 0) {
            let b = a.put_op(PUSH_I32, stride(ty)).put(seq![MUL_I32]);
            lemma_emit_index_kid_follows(ctx, base, b, t, 1, element(ty));
        }
    }
}

/// Emission of a subtree as an index computation only lets the image grow at its end.
pub proof fn lemma_emit_index_kid_follows(
    ctx: Ctx,
    base: ImageView,
    img: ImageView,
    t: AstView,
    k: int,
    ty: TypeView,
)
    requires
        follows(base, img),
    ensures
        emit_index_kid(ctx, img, t, k, ty) matches Ok(r) ==> follows(base, r),
    decreases t, 0nat,
{
    if 0 <= k < t.children.len() {
        lemma_emit_index_follows(ctx, base, img, t.children[k], ty);
    }
}

/// An image that grows by bytes at its end.
pub proof fn lemma_follows_put(base: ImageView, img: ImageView, more: Seq<u8>)
    requires
        follows(base, img),
    ensures
        follows(base, img.put(more)),
{
}

/// Patching the operand of a jump keeps what an image holds. `a` is the
/// image before the jump, `x` an image of the size and with the calls of
/// `a` with the jump put at its end, and `img` an image grown from `x`.
/// The operand of the jump lies between the call sequences that `a`
/// holds and those that came after the jump.
pub proof fn lemma_follows_patched(base: ImageView, a: ImageView, x: ImageView, img: ImageView, v: u32)
    requires
        follows(base, a),
        follows(base, img),
        follows(x, img),
        x.bytes.len() == a.bytes.len() + 5,
        x.calls == a.calls,
    ensures
        follows(base, img.patched(a.bytes.len() as int + 1, v)),
{
    let p = a.bytes.len() as int + 1;
    let r = img.patched(p, v);
    assert(r.bytes.subrange(0, base.bytes.len() as int) =~= base.bytes) by {
        assert(img.bytes.subrange(0, base.bytes.len() as int) =~= base.bytes);
    }
    if framed(base) {
        assert(framed(a));
        assert(framed(img));
        assert forall|i: int| 0 <= i < img.calls.len() implies (#[trigger] img.calls[i]).offset + 4 < p
            || p + 4 <= img.calls[i].origin by {
            if i < a.calls.len() {
                assert(img.calls.subrange(0, x.calls.len() as int)[i] == x.calls[i]);
                assert(call_framed(a.bytes, a.calls[i]));
            }
        }
        assert forall|i: int| 0 <= i < r.calls.len() implies call_framed(
            r.bytes,
            #[trigger] r.calls[i],
        ) by {
            let ci = img.calls[i];
            assert(call_framed(img.bytes, ci));
            assert(ci.offset + 4 < p || p + 4 <= ci.origin);
        }
    }
}

/// Emission of a statement only lets the image grow at its end.
pub proof fn lemma_emit_stmt_follows(ctx: Ctx, base: ImageView, img: ImageView, t: AstView)
    requires
        follows(base, img),
    ensures
        emit_stmt(ctx, img, t) matches Ok(r) ==> follows(base, r),
    decreases t, t.children.len() + 2,
{
    let tag = t.tag();
    if tag == NodeTag::DeclareConst || tag == NodeTag::DeclareVar {
        lemma_emit_expr_kid_follows(ctx, base, img, t, 2);
        if let Ok(a) = emit_expr_kid(ctx, img, t, 2) {
            if let Some(i) = find_slot(ctx.slots, name_of(t.child(0)), 0) {
                let ty = ctx.slots[i].ty;
                lemma_follows_stores(
                    base,
                    a,
                    store_arr_op(ty),
                    ctx.slots[i].addr,
                    element_count(ty),
                );
            }
        }
    } else if tag == NodeTag::Assign {
        lemma_emit_expr_kid_follows(ctx, base, img, t, 2);
        if let Ok(a) = emit_expr_kid(ctx, img, t, 2) {
            if let Some(i) = find_slot(ctx.slots, name_of(t.child(0)), 0) {
                lemma_emit_index_kid_follows(ctx, base, a, t, 1, ctx.slots[i].ty);
            }
        }
    } else if tag == NodeTag::FnCall {
        lemma_emit_call_follows(ctx, base, img, t);
    } else if tag == NodeTag::WhileLoop {
        lemma_emit_expr_kid_follows(ctx, base, img, t, 0);
        if let Ok(a) = emit_expr_kid(ctx, img, t, 0) {
            let b = a.put_op(JMP_IF_FALSE, 0);
            lemma_follows_put(base, a, seq![JMP_IF_FALSE] + crate::bytecode::be32(0));
            lemma_emit_stmt_kid_follows(ctx, base, b, t, 1);
            lemma_follows_self(b);
            lemma_emit_stmt_kid_follows(ctx, b, b, t, 1);
            if let Ok(c) = emit_stmt_kid(ctx, b, t, 1) {
                let more = seq![JMP] + crate::bytecode::be32(img.bytes.len() as u32);
                let d = c.put(more);
                lemma_follows_put(base, c, more);
                lemma_follows_put(b, c, more);
                lemma_follows_patched(base, a, b, d, d.bytes.len() as u32);
            }
        }
    } else if tag == NodeTag::IfStmt {
        lemma_emit_expr_kid_follows(ctx, base, img, t, 0);
        if let Ok(a) = emit_expr_kid(ctx, img, t, 0) {
            let b = a.put_op(JMP_IF_FALSE, 0);
            lemma_follows_put(base, a, seq![JMP_IF_FALSE] + crate::bytecode::be32(0));
            lemma_emit_stmt_kid_follows(ctx, base, b, t, 1);
            lemma_follows_self(b);
            lemma_emit_stmt_kid_follows(ctx, b, b, t, 1);
            if let Ok(c) = emit_stmt_kid(ctx, b, t, 1) {
                let more = seq![JMP] + crate::bytecode::be32(0);
                let d = c.put(more);
                lemma_follows_put(base, c, more);
                lemma_follows_put(b, c, more);
                let d1 = d.patched(a.bytes.len() as int + 1, d.bytes.len() as u32);
                lemma_follows_patched(base, a, b, d, d.bytes.len() as u32);
                lemma_emit_stmt_kid_follows(ctx, base, d1, t, 2);
                lemma_follows_self(d1);
                lemma_emit_stmt_kid_follows(ctx, d1, d1, t, 2);
                if let Ok(f) = emit_stmt_kid(ctx, d1, t, 2) {
                    lemma_follows_patched(base, c, d1, f, f.bytes.len() as u32);
                }
            }
        }
    } else if tag == NodeTag::ReturnValue {
        lemma_emit_expr_kid_follows(ctx, base, img, t, 0);
    } else {
        lemma_emit_stmts_from_follows(ctx, base, img, t, 0);
    }
}

/// Emission of a subtree as a statement only lets the image grow at its end.
pub proof fn lemma_emit_stmt_kid_follows(ctx: Ctx, base: ImageView, img: ImageView, t: AstView, k: int)
    requires
        follows(base, img),
    ensures
        emit_stmt_kid(ctx, img, t, k) matches Ok(r) ==> follows(base, r),
    decreases t, 0nat,
{
    if 0 <= k < t.children.len() {
        lemma_emit_stmt_follows(ctx, base, img, t.children[k]);
    }
}

/// Emission of subtrees as statements only lets the image grow at its end.
pub proof fn lemma_emit_stmts_from_follows(
    ctx: Ctx,
    base: ImageView,
    img: ImageView,
    t: AstView,
    i: int,
)
    requires
        follows(base, img),
    ensures
        emit_stmts_from(ctx, img, t, i) matches Ok(r) ==> follows(base, r),
    decreases t, t.children.len() - i,
{
    if 0 <= i < t.children.len() {
        lemma_emit_stmt_follows(ctx, base, img, t.children[i]);
        if let Ok(a) = emit_stmt(ctx, img, t.children[i]) {
            lemma_emit_stmts_from_follows(ctx, base, a, t, i + 1);
        }
    }
}

/// An image is grown from itself.
pub proof fn lemma_follows_self(img: ImageView)
    ensures
        follows(img, img),
{
}

/// What emission works with: the signatures of all functions of all nodes,
/// and the variables of the function at hand with their slots.
pub struct Frame<'a> {
    pub functions: &'a Vec<Signature>,
    pub locals: &'a Vec<Variable>,
    pub slots: &'a Vec<Slot>,
}

impl<'a> Frame<'a> {
    /// What emission knows.
    pub open spec fn ctx(&self) -> Ctx {
        Ctx {
            functions: seq_view(self.functions@),
            locals: seq_view(self.locals@),
            slots: seq_view(self.slots@),
        }
    }

    /// The variables are the variables of the slots, name by name and type
    /// by type, in the same order.
    pub open spec fn wf(&self) -> bool {
        seq_view(self.locals@) == variables_of(seq_view(self.slots@))
    }
}

/// Whether emission ended as wanted: with the error wanted, or with the
/// image wanted.
pub open spec fn emitted(r: Result<(), CodegenError>, img: ImageView, want: Result<ImageView, CodegenError>) -> bool {
    match want {
        Ok(v) => r is Ok && img == v,
        Err(e) => r == Err::<(), CodegenError>(e),
    }
}

/// The position of the first slot of the name.
pub fn lookup_slot(slots: &Vec<Slot>, name: &String) -> (r: Option<usize>)
    ensures
        r is None <==> find_slot(seq_view(slots@), name@, 0) is None,
        r matches Some(i) ==> find_slot(seq_view(slots@), name@, 0) == Some(i as int) && i
            < slots@.len(),
{
    let mut i: usize = 0;
    while i < slots.len()
        invariant
            i <= slots.len(),
            find_slot(seq_view(slots@), name@, 0) == find_slot(seq_view(slots@), name@, i as int),
        decreases slots.len() - i,
    {
        if slots[i].name == *name {
            return Some(i);
        }
        i += 1;
    }
    None
}

fn opcode_type(r: Result<ReturnKind, usize>, Ghost(want): Ghost<Result<ReturnView, usize>>) -> (t: Result<
    Type,
    CodegenError,
>)
    requires
        crate::typing::agrees(r, want),
    ensures
        match typed(want) {
            Ok(v) => t matches Ok(x) && x@ == v,
            Err(e) => t matches Err(c) && c == e,
        },
{
    match r {
        Err(c) => Err(CodegenError::IllTyped(c)),
        Ok(ReturnKind::Value(t)) => Ok(t),
        Ok(_) => Ok(Type::Named(String::new())),
    }
}

/// The stride of an index into a value of the type, in bytes.
pub fn stride_of(ty: &Type) -> (r: u32)
    ensures
        r == stride(ty@),
{
    match ty {
        Type::Array(e, _) => {
            if e.sized() {
                match e.size() {
                    Some(s) => s,
                    None => 0,
                }
            } else {
                0
            }
        },
        _ => 0,
    }
}

/// The type of what an index into a value of the type yields.
pub fn element_of(ty: &Type) -> (r: &Type)
    ensures
        r@ == element(ty@),
{
    match ty {
        Type::Array(e, _) => &**e,
        _ => ty,
    }
}

/// The number of innermost elements of a value of the type.
pub fn count_of(ty: &Type) -> (r: u32)
    ensures
        r == element_count(ty@),
{
    if ty.sized() {
        proof {
            crate::types::lemma_sized_positive(ty@);
        }
        match ty.count() {
            Some(c) => c as u32,
            None => 0,
        }
    } else {
        0
    }
}

/// The number of elements of an array literal, if a 32-bit index can count
/// them.
pub fn count_items(ast: &AbstractSyntaxTree) -> (r: Option<u32>)
    ensures
        r is None <==> item_count(ast@) > u32::MAX,
        r matches Some(n) ==> n == item_count(ast@),
    decreases ast, 1nat,
{
    proof {
        lemma_view_children(ast);
    }
    if ast.tag() != NodeTag::InputList {
        return Some(0);
    }
    let first = count_first(ast);
    let rest = if ast.children.len() > 1 {
        count_items(&ast.children[1])
    } else {
        Some(0)
    };
    match (first, rest) {
        (Some(a), Some(b)) => {
            if a > 0xffff_ffff - b {
                None
            } else {
                Some(a + b)
            }
        },
        _ => None,
    }
}

fn count_first(ast: &AbstractSyntaxTree) -> (r: Option<u32>)
    ensures
        r is None <==> first_count(ast@) > u32::MAX,
        r matches Some(n) ==> n == first_count(ast@),
    decreases ast, 0nat,
{
    proof {
        lemma_view_children(ast);
    }
    if ast.children.len() == 0 {
        Some(0)
    } else if ast.children[0].tag() == NodeTag::InputList {
        count_items(&ast.children[0])
    } else if ast.children[0].tag() == NodeTag::Null {
        Some(0)
    } else {
        Some(1)
    }
}

/// Emits the bytecode of an expression.
pub fn generate_expr_bytecode(frame: &Frame, img: &mut Image, ast: &AbstractSyntaxTree) -> (r: Result<
    (),
    CodegenError,
>)
    requires
        frame.wf(),
    ensures
        emitted(r, final(img)@, emit_expr(frame.ctx(), old(img)@, ast@)),
    decreases ast, ast.children.len() + 2,
{
    proof {
        lemma_view_children(ast);
    }
    let tag = ast.tag();
    if crate::typing::arithmetic(tag) || crate::typing::comparison(tag) || crate::typing::connective(
        tag,
    ) {
        expr_kid(frame, img, ast, 0)?;
        expr_kid(frame, img, ast, 1)?;
        if tag == NodeTag::AndOp {
            img.put_byte(AND);
        } else if tag == NodeTag::OrOp {
            img.put_byte(OR);
        } else if crate::typing::comparison(tag) {
            let ty = opcode_type(
                get_kid_type(frame.functions, frame.locals, ast, 0),
                Ghost(kid_type(frame.ctx().env(), ast@, 0)),
            )?;
            img.put_byte(compare_opcode(tag, &ty));
        } else {
            let ty = opcode_type(
                get_type(frame.functions, frame.locals, ast),
                Ghost(type_of(frame.ctx().env(), ast@)),
            )?;
            img.put_byte(arith_opcode(tag, &ty));
        }
        Ok(())
    } else if tag == NodeTag::InputList {
        match count_items(ast) {
            None => Err(CodegenError::TooLarge),
            Some(_) => generate_arr_bytecode(frame, img, ast, 0),
        }
    } else if tag == NodeTag::FnCall {
        generate_call_bytecode(frame, img, ast)
    } else {
        match &ast.node {
            SyntaxTreeNode::Integer(n) => {
                img.put_op(PUSH_I32, bits(*n));
                Ok(())
            },
            SyntaxTreeNode::Float(f) => {
                img.put_op(PUSH_F32, 0);
                img.note_float(f.clone());
                Ok(())
            },
            SyntaxTreeNode::Character(c) => {
                img.put_pair(PUSH_CHAR, byte(*c));
                Ok(())
            },
            SyntaxTreeNode::True => {
                img.put_pair(PUSH_BOOL, 1);
                Ok(())
            },
            SyntaxTreeNode::False => {
                img.put_pair(PUSH_BOOL, 0);
                Ok(())
            },
            SyntaxTreeNode::Identifier(name) => {
                match lookup_slot(frame.slots, name) {
                    None => Err(CodegenError::UnknownVariable),
                    Some(i) => {
                        let slot = &frame.slots[i];
                        index_kid(frame, img, ast, 0, &slot.ty)?;
                        img.put_op(load_opcode(&slot.ty), slot.addr);
                        Ok(())
                    },
                }
            },
            _ => {
                let ghost start = img@;
                let mut i: usize = 0;
                while i < ast.children.len()
                    invariant
                        i <= ast.children.len(),
                        frame.wf(),
                        ast@.children.len() == ast.children@.len(),
                        forall|k: int|
                            0 <= k < ast.children@.len() ==> (#[trigger] ast@.children[k])
                                == ast.children@[k]@,
                        start == old(img)@,
                        emit_expr(frame.ctx(), start, ast@) == emit_exprs_from(
                            frame.ctx(),
                            img@,
                            ast@,
                            i as int,
                        ),
                    decreases ast.children.len() - i,
                {
                    match generate_expr_bytecode(frame, img, &ast.children[i]) {
                        Err(e) => {
                            return Err(e);
                        },
                        Ok(_) => {},
                    }
                    i += 1;
                }
                Ok(())
            },
        }
    }
}

fn expr_kid(frame: &Frame, img: &mut Image, ast: &AbstractSyntaxTree, k: usize) -> (r: Result<
    (),
    CodegenError,
>)
    requires
        frame.wf(),
    ensures
        emitted(r, final(img)@, emit_expr_kid(frame.ctx(), old(img)@, ast@, k as int)),
    decreases ast, 0nat,
{
    proof {
        lemma_view_children(ast);
    }
    if k < ast.children.len() {
        generate_expr_bytecode(frame, img, &ast.children[k])
    } else {
        Ok(())
    }
}

/// Emits the bytecode of an array literal whose first element has the
/// index `base`.
pub fn generate_arr_bytecode(
    frame: &Frame,
    img: &mut Image,
    ast: &AbstractSyntaxTree,
    base: u32,
) -> (r: Result<(), CodegenError>)
    requires
        frame.wf(),
        base + item_count(ast@) <= u32::MAX,
    ensures
        emitted(r, final(img)@, emit_array(frame.ctx(), old(img)@, ast@, base as int)),
    decreases ast, 1nat,
{
    proof {
        lemma_view_children(ast);
    }
    if ast.tag() != NodeTag::InputList {
        return Ok(());
    }
    let first = match count_first(ast) {
        Some(n) => n,
        None => 0,
    };
    arr_kid(frame, img, ast, 1, base + first)?;
    if ast.children.len() == 0 || ast.children[0].tag() == NodeTag::Null {
        Ok(())
    } else if ast.children[0].tag() == NodeTag::InputList {
        arr_kid(frame, img, ast, 0, base)
    } else {
        expr_kid(frame, img, ast, 0)?;
        img.put_op(PUSH_I32, base);
        Ok(())
    }
}

fn arr_kid(frame: &Frame, img: &mut Image, ast: &AbstractSyntaxTree, k: usize, base: u32) -> (r: Result<
    (),
    CodegenError,
>)
    requires
        frame.wf(),
        k < ast@.children.len() ==> base + item_count(ast@.children[k as int]) <= u32::MAX,
    ensures
        emitted(r, final(img)@, emit_array_kid(frame.ctx(), old(img)@, ast@, k as int, base as int)),
    decreases ast, 0nat,
{
    proof {
        lemma_view_children(ast);
    }
    if k < ast.children.len() {
        generate_arr_bytecode(frame, img, &ast.children[k], base)
    } else {
        Ok(())
    }
}

/// Emits the call sequence of a call.
pub fn generate_call_bytecode(frame: &Frame, img: &mut Image, ast: &AbstractSyntaxTree) -> (r: Result<
    (),
    CodegenError,
>)
    requires
        frame.wf(),
    ensures
        emitted(r, final(img)@, emit_call(frame.ctx(), old(img)@, ast@)),
    decreases ast, 1nat,
{
    let at = img.bytes.len();
    img.put_op(PUSH_I32, 0);
    let ghost a = img@;
    inputs_kid(frame, img, ast, 1)?;
    proof {
        lemma_follows_self(a);
        lemma_emit_inputs_kid_follows(frame.ctx(), a, a, ast@, 1);
    }
    img.put_op(JMP, 0);
    img.note_call(name_in(ast, 0), at);
    match img.offset() {
        None => Err(CodegenError::TooLarge),
        Some(here) => {
            img.patch(at + 1, here);
            Ok(())
        },
    }
}

/// Emits the bytecode of the arguments of a call, the last one first.
pub fn generate_inputs_bytecode(frame: &Frame, img: &mut Image, ast: &AbstractSyntaxTree) -> (r: Result<
    (),
    CodegenError,
>)
    requires
        frame.wf(),
    ensures
        emitted(r, final(img)@, emit_inputs(frame.ctx(), old(img)@, ast@)),
    decreases ast, ast.children.len() + 2,
{
    proof {
        lemma_view_children(ast);
    }
    if ast.tag() == NodeTag::InputList {
        inputs_kid(frame, img, ast, 1)?;
        expr_kid(frame, img, ast, 0)
    } else {
        let ghost start = img@;
        let mut i: usize = 0;
        while i < ast.children.len()
            invariant
                i <= ast.children.len(),
                frame.wf(),
                ast@.children.len() == ast.children@.len(),
                forall|k: int|
                    0 <= k < ast.children@.len() ==> (#[trigger] ast@.children[k])
                        == ast.children@[k]@,
                start == old(img)@,
                emit_inputs(frame.ctx(), start, ast@) == emit_inputs_from(
                    frame.ctx(),
                    img@,
                    ast@,
                    i as int,
                ),
            decreases ast.children.len() - i,
        {
            match generate_inputs_bytecode(frame, img, &ast.children[i]) {
                Err(e) => {
                    return Err(e);
                },
                Ok(_) => {},
            }
            i += 1;
        }
        Ok(())
    }
}

fn inputs_kid(frame: &Frame, img: &mut Image, ast: &AbstractSyntaxTree, k: usize) -> (r: Result<
    (),
    CodegenError,
>)
    requires
        frame.wf(),
    ensures
        emitted(r, final(img)@, emit_inputs_kid(frame.ctx(), old(img)@, ast@, k as int)),
    decreases ast, 0nat,
{
    proof {
        lemma_view_children(ast);
    }
    if k < ast.children.len() {
        generate_inputs_bytecode(frame, img, &ast.children[k])
    } else {
        Ok(())
    }
}

/// Emits the index computation of an indexed value of the type `ty`.
pub fn generate_index_bytecode(
    frame: &Frame,
    img: &mut Image,
    ast: &AbstractSyntaxTree,
    ty: &Type,
) -> (r: Result<(), CodegenError>)
    requires
        frame.wf(),
    ensures
        emitted(r, final(img)@, emit_index(frame.ctx(), old(img)@, ast@, ty@)),
    decreases ast, ast.children.len() + 2,
{
    proof {
        lemma_view_children(ast);
    }
    if ast.tag() == NodeTag::Index {
        expr_kid(frame, img, ast, 0)?;
        img.put_op(PUSH_I32, stride_of(ty));
        img.put_byte(MUL_I32);
        index_kid(frame, img, ast, 1, element_of(ty))?;
        if ast.children.len() > 1 && ast.children[1].tag() != NodeTag::Null {
            img.put_byte(ADD_I32);
        }
        Ok(())
    } else {
        Ok(())
    }
}

fn index_kid(frame: &Frame, img: &mut Image, ast: &AbstractSyntaxTree, k: usize, ty: &Type) -> (r: Result<
    (),
    CodegenError,
>)
    requires
        frame.wf(),
    ensures
        emitted(r, final(img)@, emit_index_kid(frame.ctx(), old(img)@, ast@, k as int, ty@)),
    decreases ast, 0nat,
{
    proof {
        lemma_view_children(ast);
    }
    if k < ast.children.len() {
        generate_index_bytecode(frame, img, &ast.children[k], ty)
    } else {
        Ok(())
    }
}

/// Puts `n` indexed stores into the array at `addr` at the end.
fn put_array_stores(img: &mut Image, op: u8, addr: u32, n: u32)
    ensures
        final(img)@ == put_stores(old(img)@, op, addr, n as int),
{
    let mut i: u32 = 0;
    while i < n
        invariant
            i <= n,
            img@ == put_stores(old(img)@, op, addr, i as int),
        decreases n - i,
    {
        img.put_op(op, addr);
        i += 1;
    }
}

fn assign_opcode(ty: &Type, is_indexed: bool) -> (r: u8)
    ensures
        r == assign_op(ty@, is_indexed),
{
    match ty {
        Type::Array(_, _) => if is_indexed {
            store_arr_opcode(ty)
        } else {
            crate::bytecode::NO_OPCODE
        },
        _ => store_opcode(ty),
    }
}

/// Emits the bytecode of a statement.
pub fn generate_function_bytecode(frame: &Frame, img: &mut Image, ast: &AbstractSyntaxTree) -> (r:
    Result<(), CodegenError>)
    requires
        frame.wf(),
    ensures
        emitted(r, final(img)@, emit_stmt(frame.ctx(), old(img)@, ast@)),
    decreases ast, ast.children.len() + 2,
{
    proof {
        lemma_view_children(ast);
    }
    let tag = ast.tag();
    if tag == NodeTag::DeclareConst || tag == NodeTag::DeclareVar {
        expr_kid(frame, img, ast, 2)?;
        let name = name_in(ast, 0);
        match lookup_slot(frame.slots, &name) {
            None => Err(CodegenError::UnknownVariable),
            Some(i) => {
                let slot = &frame.slots[i];
                match &slot.ty {
                    Type::Array(_, _) => {
                        put_array_stores(
                            img,
                            store_arr_opcode(&slot.ty),
                            slot.addr,
                            count_of(&slot.ty),
                        );
                    },
                    _ => {
                        img.put_op(store_opcode(&slot.ty), slot.addr);
                    },
                }
                Ok(())
            },
        }
    } else if tag == NodeTag::Assign {
        expr_kid(frame, img, ast, 2)?;
        let name = name_in(ast, 0);
        match lookup_slot(frame.slots, &name) {
            None => Err(CodegenError::UnknownVariable),
            Some(i) => {
                let slot = &frame.slots[i];
                let is_indexed = ast.children.len() > 1 && ast.children[1].tag() == NodeTag::Index;
                if is_indexed {
                    index_kid(frame, img, ast, 1, &slot.ty)?;
                }
                img.put_op(assign_opcode(&slot.ty, is_indexed), slot.addr);
                Ok(())
            },
        }
    } else if tag == NodeTag::FnCall {
        generate_call_bytecode(frame, img, ast)
    } else if tag == NodeTag::WhileLoop {
        let start = match img.offset() {
            None => {
                return Err(CodegenError::TooLarge);
            },
            Some(v) => v,
        };
        expr_kid(frame, img, ast, 0)?;
        let at = img.bytes.len();
        img.put_op(JMP_IF_FALSE, 0);
        let ghost b = img@;
        stmt_kid(frame, img, ast, 1)?;
        proof {
            lemma_follows_self(b);
            lemma_emit_stmt_kid_follows(frame.ctx(), b, b, ast@, 1);
        }
        img.put_op(JMP, start);
        match img.offset() {
            None => Err(CodegenError::TooLarge),
            Some(here) => {
                img.patch(at + 1, here);
                Ok(())
            },
        }
    } else if tag == NodeTag::IfStmt {
        expr_kid(frame, img, ast, 0)?;
        let at = img.bytes.len();
        img.put_op(JMP_IF_FALSE, 0);
        let ghost b = img@;
        stmt_kid(frame, img, ast, 1)?;
        proof {
            lemma_follows_self(b);
            lemma_emit_stmt_kid_follows(frame.ctx(), b, b, ast@, 1);
        }
        let over = img.bytes.len();
        img.put_op(JMP, 0);
        match img.offset() {
            None => {
                return Err(CodegenError::TooLarge);
            },
            Some(here) => {
                img.patch(at + 1, here);
            },
        }
        let ghost d = img@;
        stmt_kid(frame, img, ast, 2)?;
        proof {
            lemma_follows_self(d);
            lemma_emit_stmt_kid_follows(frame.ctx(), d, d, ast@, 2);
        }
        match img.offset() {
            None => Err(CodegenError::TooLarge),
            Some(here) => {
                img.patch(over + 1, here);
                Ok(())
            },
        }
    } else if tag == NodeTag::ReturnValue {
        expr_kid(frame, img, ast, 0)?;
        img.put_byte(RET_VAL);
        Ok(())
    } else {
        let ghost start = img@;
        let mut i: usize = 0;
        while i < ast.children.len()
            invariant
                i <= ast.children.len(),
                frame.wf(),
                ast@.children.len() == ast.children@.len(),
                forall|k: int|
                    0 <= k < ast.children@.len() ==> (#[trigger] ast@.children[k])
                        == ast.children@[k]@,
                start == old(img)@,
                emit_stmt(frame.ctx(), start, ast@) == emit_stmts_from(
                    frame.ctx(),
                    img@,
                    ast@,
                    i as int,
                ),
            decreases ast.children.len() - i,
        {
            match generate_function_bytecode(frame, img, &ast.children[i]) {
                Err(e) => {
                    return Err(e);
                },
                Ok(_) => {},
            }
            i += 1;
        }
        Ok(())
    }
}

fn stmt_kid(frame: &Frame, img: &mut Image, ast: &AbstractSyntaxTree, k: usize) -> (r: Result<
    (),
    CodegenError,
>)
    requires
        frame.wf(),
    ensures
        emitted(r, final(img)@, emit_stmt_kid(frame.ctx(), old(img)@, ast@, k as int)),
    decreases ast, 0nat,
{
    proof {
        lemma_view_children(ast);
    }
    if k < ast.children.len() {
        generate_function_bytecode(frame, img, &ast.children[k])
    } else {
        Ok(())
    }
}

} // verus!
