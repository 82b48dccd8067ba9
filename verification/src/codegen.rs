//! Emission of a node: addresses for the variables of its functions, the
//! functions one after the other with `main` first, the built-in print
//! functions, and the calls patched with the offsets of their callees.

use vstd::prelude::*;
use crate::bytecode::{
    ALLOC_ARR,
    CallSite,
    CallView,
    FloatSite,
    FloatSiteView,
    Image,
    ImageView,
    RET_VOID,
    alloc_op,
    alloc_opcode,
    be32,
    bind_op,
    bind_opcode,
    patch,
};
use crate::emit::{
    CodegenError,
    Ctx,
    Frame,
    Slot,
    SlotView,
    call_framed,
    emit_stmt,
    emitted,
    find_slot,
    follows,
    framed,
    generate_function_bytecode,
    lemma_emit_stmt_follows,
    lemma_follows_self,
    lookup_slot,
    variables_of,
};
use crate::seed::{find_function, lookup_function};
use crate::symbols::{
    FunctionEntry,
    FunctionView,
    NodeEntry,
    NodeView,
    ReturnKind,
    Signature,
    SignatureView,
    Variable,
    VariableView,
    lemma_seq_view_push,
    seq_view,
};
use crate::text::literal;
use crate::token::spells;
use crate::types::{Type, TypeView, lemma_sized_positive};

verus! {

/// The first address past the 32-bit address space.
pub const ADDRESS_LIMIT: u64 = 0x1_0000_0000;

/// The slots of the first `n` variables of a list, laid out one after the
/// other from the address `cursor` on, and the first address after them.
/// A variable takes as many bytes as its type says. A type without a size,
/// an array of more elements than a 32-bit signed integer can count, and a
/// variable that does not fit below the address limit are refused.
pub open spec fn assign_slots(locals: Seq<VariableView>, cursor: int, n: int) -> Result<
    (Seq<SlotView>, int),
    CodegenError,
>
    decreases n,
{
    if n <= 0 || n > locals.len() {
        Ok((Seq::empty(), cursor))
    } else {
        match assign_slots(locals, cursor, n - 1) {
            Err(e) => Err(e),
            Ok((slots, next)) => {
                let v = locals[n - 1];
                if !v.ty.sized() {
                    Err(CodegenError::UnsizedType)
                } else if v.ty.size() > u32::MAX || v.ty.count() > i32::MAX || next + v.ty.size()
                    > ADDRESS_LIMIT {
                    Err(CodegenError::OutOfAddresses)
                } else {
                    Ok(
                        (
                            slots.push(SlotView { name: v.name, ty: v.ty, addr: next as u32 }),
                            next + v.ty.size(),
                        ),
                    )
                }
            },
        }
    }
}

/// Whether the slots lie apart: every slot has a type with a size, lies
/// between `from` and `to`, and ends before the next slot starts.
pub open spec fn slots_apart(slots: Seq<SlotView>, from: int, to: int) -> bool {
    &&& forall|i: int|
        0 <= i < slots.len() ==> (#[trigger] slots[i]).ty.sized() && slots[i].ty.size() >= 1
            && slots[i].ty.count() <= i32::MAX && from <= slots[i].addr && slots[i].addr
            + slots[i].ty.size() <= to
    &&& forall|i: int, j: int|
        0 <= i < j < slots.len() ==> (#[trigger] slots[i]).addr + slots[i].ty.size() <= (
        #[trigger] slots[j]).addr
}

/// The slots that are assigned to variables are the variables' own, one
/// for each in order, and lie apart between the cursor before and the
/// cursor after.
pub proof fn lemma_assign_slots(locals: Seq<VariableView>, cursor: int, n: int)
    requires
        0 <= cursor <= ADDRESS_LIMIT,
        0 <= n <= locals.len(),
    ensures
        assign_slots(locals, cursor, n) matches Ok(r) ==> r.0.len() == n && variables_of(r.0)
            =~= locals.subrange(0, n) && slots_apart(r.0, cursor, r.1) && cursor <= r.1
            <= ADDRESS_LIMIT,
    decreases n,
{
    if n == 0 {
        assert(variables_of(Seq::<SlotView>::empty()) =~= locals.subrange(0, 0));
    }
    if n > 0 {
        lemma_assign_slots(locals, cursor, n - 1);
        if let Ok((slots, next)) = assign_slots(locals, cursor, n - 1) {
            let v = locals[n - 1];
            if v.ty.sized() {
                lemma_sized_positive(v.ty);
            }
            if let Ok(r) = assign_slots(locals, cursor, n) {
                let s = SlotView { name: v.name, ty: v.ty, addr: next as u32 };
                assert(r.0 == slots.push(s));
                assert(r.1 == next + v.ty.size());
                assert forall|i: int| 0 <= i < r.0.len() implies (#[trigger] r.0[i]).ty.sized()
                    && r.0[i].ty.size() >= 1 && r.0[i].ty.count() <= i32::MAX && cursor
                    <= r.0[i].addr && r.0[i].addr + r.0[i].ty.size() <= r.1 by {
                    if i < slots.len() {
                        assert(r.0[i] == slots[i]);
                    }
                }
                assert forall|i: int, j: int| 0 <= i < j < r.0.len() implies (
                #[trigger] r.0[i]).addr + r.0[i].ty.size() <= (#[trigger] r.0[j]).addr by {
                    assert(r.0[i] == slots[i]);
                    if j < slots.len() {
                        assert(r.0[j] == slots[j]);
                    }
                }
                assert(variables_of(r.0) =~= locals.subrange(0, n));
            }
        }
    }
}

/// Address uniqueness. Slots that lie apart have different addresses.
pub proof fn lemma_addresses_injective(slots: Seq<SlotView>, from: int, to: int, i: int, j: int)
    requires
        slots_apart(slots, from, to),
        0 <= i < slots.len(),
        0 <= j < slots.len(),
        i != j,
    ensures
        slots[i].addr != slots[j].addr,
{
    if i < j {
        assert(slots[i].addr + slots[i].ty.size() <= slots[j].addr);
    } else {
        assert(slots[j].addr + slots[j].ty.size() <= slots[i].addr);
    }
}

/// Address uniqueness for the variables of a function. When slots are
/// assigned to the variables of a function, two variables at different
/// positions get different addresses.
pub proof fn lemma_variable_addresses_differ(locals: Seq<VariableView>, cursor: int, i: int, j: int)
    requires
        0 <= cursor <= ADDRESS_LIMIT,
        0 <= i < locals.len(),
        0 <= j < locals.len(),
        i != j,
        assign_slots(locals, cursor, locals.len() as int) is Ok,
    ensures
        ({
            let slots = assign_slots(locals, cursor, locals.len() as int)->Ok_0.0;
            slots.len() == locals.len() && slots[i].addr != slots[j].addr
        }),
{
    lemma_assign_slots(locals, cursor, locals.len() as int);
    let r = assign_slots(locals, cursor, locals.len() as int)->Ok_0;
    lemma_addresses_injective(r.0, cursor, r.1, i, j);
}

/// The operands that follow the address in the allocation and the binding
/// of an array: the size of an innermost element in one byte, and the
/// number of innermost elements in four.
pub open spec fn array_operands(t: TypeView) -> Seq<u8> {
    seq![t.base().size() as u8] + be32(t.count() as u32)
}

/// The image with the allocation of a slot at its end.
pub open spec fn put_alloc(img: ImageView, slot: SlotView) -> ImageView {
    match slot.ty {
        TypeView::Array(_, _) => img.put_op(ALLOC_ARR, slot.addr).put(array_operands(slot.ty)),
        _ => img.put_op(alloc_op(slot.ty), slot.addr),
    }
}

/// The image with the allocations of the first `n` slots at its end.
pub open spec fn put_allocs(img: ImageView, slots: Seq<SlotView>, n: int) -> ImageView
    decreases n,
{
    if n <= 0 || n > slots.len() {
        img
    } else {
        put_alloc(put_allocs(img, slots, n - 1), slots[n - 1])
    }
}

/// The image with the binding of a parameter to its slot at its end.
pub open spec fn put_bind(img: ImageView, slot: SlotView) -> ImageView {
    match slot.ty {
        TypeView::Array(_, _) => img.put_op(bind_op(slot.ty), slot.addr).put(
            array_operands(slot.ty),
        ),
        _ => img.put_op(bind_op(slot.ty), slot.addr),
    }
}

/// The image with the bindings of the first `n` parameters at its end.
pub open spec fn put_binds(img: ImageView, slots: Seq<SlotView>, params: Seq<VariableView>, n: int) -> Result<
    ImageView,
    CodegenError,
>
    decreases n,
{
    if n <= 0 || n > params.len() {
        Ok(img)
    } else {
        match put_binds(img, slots, params, n - 1) {
            Err(e) => Err(e),
            Ok(a) => match find_slot(slots, params[n - 1].name, 0) {
                None => Err(CodegenError::UnknownVariable),
                Some(i) => Ok(put_bind(a, slots[i])),
            },
        }
    }
}

/// The image with a function at its end, and the first free address after
/// the function's variables: the allocations of all its variables, the
/// bindings of its parameters, the bytecode of its body, and for a
/// function that returns nothing a return without a value.
#[verifier::opaque]
pub open spec fn emit_function(sigs: Seq<SignatureView>, img: ImageView, cursor: int, f: FunctionView) -> Result<
    (ImageView, int),
    CodegenError,
> {
    match assign_slots(f.locals, cursor, f.locals.len() as int) {
        Err(e) => Err(e),
        Ok((slots, next)) => {
            let a = put_allocs(img, slots, slots.len() as int);
            match put_binds(a, slots, f.params, f.params.len() as int) {
                Err(e) => Err(e),
                Ok(b) => match emit_stmt(Ctx { functions: sigs, locals: f.locals, slots }, b, f.body) {
                    Err(e) => Err(e),
                    Ok(c) => Ok(
                        (
                            if f.return_type is Void {
                                c.put(seq![RET_VOID])
                            } else {
                                c
                            },
                            next,
                        ),
                    ),
                },
            }
        },
    }
}

/// The allocations only add bytes.
pub proof fn lemma_put_allocs_follows(base: ImageView, img: ImageView, slots: Seq<SlotView>, n: int)
    requires
        follows(base, img),
    ensures
        follows(base, put_allocs(img, slots, n)),
    decreases n,
{
    if 0 < n <= slots.len() {
        lemma_put_allocs_follows(base, img, slots, n - 1);
    }
}

/// The bindings only add bytes.
pub proof fn lemma_put_binds_follows(
    base: ImageView,
    img: ImageView,
    slots: Seq<SlotView>,
    params: Seq<VariableView>,
    n: int,
)
    requires
        follows(base, img),
    ensures
        put_binds(img, slots, params, n) matches Ok(r) ==> follows(base, r),
    decreases n,
{
    if 0 < n <= params.len() {
        lemma_put_binds_follows(base, img, slots, params, n - 1);
    }
}

/// Emission of a function only lets the image grow at its end.
pub proof fn lemma_emit_function_follows(
    sigs: Seq<SignatureView>,
    base: ImageView,
    img: ImageView,
    cursor: int,
    f: FunctionView,
)
    requires
        follows(base, img),
        0 <= cursor <= ADDRESS_LIMIT,
    ensures
        emit_function(sigs, img, cursor, f) matches Ok(r) ==> follows(base, r.0) && cursor <= r.1
            <= ADDRESS_LIMIT,
{
    reveal(emit_function);
    lemma_assign_slots(f.locals, cursor, f.locals.len() as int);
    if let Ok((slots, next)) = assign_slots(f.locals, cursor, f.locals.len() as int) {
        lemma_put_allocs_follows(base, img, slots, slots.len() as int);
        let a = put_allocs(img, slots, slots.len() as int);
        lemma_put_binds_follows(base, a, slots, f.params, f.params.len() as int);
        if let Ok(b) = put_binds(a, slots, f.params, f.params.len() as int) {
            lemma_emit_stmt_follows(Ctx { functions: sigs, locals: f.locals, slots }, base, b, f.body);
        }
    }
}

/// The bytes of the built-in print functions: each prints the value on
/// top of the stack and returns; `println` pushes a line feed first.
pub open spec fn stubs() -> Seq<u8> {
    seq![0x90u8, 0x64u8, 0x91u8, 0x64u8, 0x92u8, 0x64u8, 0x93u8, 0x64u8, 0x15u8, 0x0Au8, 0x93u8, 0x64u8]
}

/// The offset of a built-in print function among the stubs.
pub open spec fn stub_offset(name: Seq<char>) -> Option<int> {
    if name == "print_int"@ {
        Some(0)
    } else if name == "print_float"@ {
        Some(2)
    } else if name == "print_bool"@ {
        Some(4)
    } else if name == "print_char"@ {
        Some(6)
    } else if name == "println"@ {
        Some(8)
    } else {
        None
    }
}

/// The functions of a node in the image: the image, the first free
/// address, and for each function placed so far the offset where it starts.
pub struct Placed {
    pub img: ImageView,
    pub cursor: int,
    pub starts: Seq<int>,
}

/// The image of a node after `main`, which comes first, and then those of
/// its first `n` functions that are not `main`, in order.
pub open spec fn place_functions(sigs: Seq<SignatureView>, fs: Seq<FunctionView>, main: int, n: int) -> Result<
    Placed,
    CodegenError,
>
    decreases n,
{
    if n <= 0 || n > fs.len() {
        match emit_function(sigs, ImageView::empty(), 0, fs[main]) {
            Err(e) => Err(e),
            Ok((img, cursor)) => Ok(Placed { img, cursor, starts: Seq::empty() }),
        }
    } else {
        match place_functions(sigs, fs, main, n - 1) {
            Err(e) => Err(e),
            Ok(p) => if n - 1 == main {
                Ok(Placed { starts: p.starts.push(0), ..p })
            } else {
                match emit_function(sigs, p.img, p.cursor, fs[n - 1]) {
                    Err(e) => Err(e),
                    Ok((img, cursor)) => Ok(
                        Placed { img, cursor, starts: p.starts.push(p.img.bytes.len() as int) },
                    ),
                }
            },
        }
    }
}

/// The offset where the callee of a call starts: a function of the node
/// by that name, or else a built-in print function, which come after all
/// functions of the node, from `stub_base` on.
pub open spec fn resolve(fs: Seq<FunctionView>, starts: Seq<int>, stub_base: int, name: Seq<char>) -> Option<
    int,
> {
    match find_function(fs, name, 0) {
        Some(i) => Some(starts[i]),
        None => match stub_offset(name) {
            Some(o) => Some(stub_base + o),
            None => None,
        },
    }
}

/// The bytes of an image after the first `n` of its calls are patched
/// with the offsets of their callees. A call of a function that is
/// neither a function of the node nor built in is refused.
pub open spec fn fix_calls(
    img: ImageView,
    fs: Seq<FunctionView>,
    starts: Seq<int>,
    stub_base: int,
    n: int,
) -> Result<Seq<u8>, CodegenError>
    decreases n,
{
    if n <= 0 || n > img.calls.len() {
        Ok(img.bytes)
    } else {
        match fix_calls(img, fs, starts, stub_base, n - 1) {
            Err(e) => Err(e),
            Ok(bytes) => match resolve(fs, starts, stub_base, img.calls[n - 1].name) {
                None => Err(CodegenError::UnresolvedCall),
                Some(target) => if target < 0 || target > u32::MAX {
                    Err(CodegenError::TooLarge)
                } else {
                    Ok(patch(bytes, img.calls[n - 1].offset, target as u32))
                },
            },
        }
    }
}

/// The view of a [`NodeImage`].
pub struct NodeImageView {
    pub name: Seq<char>,
    pub bytes: Seq<u8>,
    pub calls: Seq<CallView>,
    pub floats: Seq<FloatSiteView>,
    pub starts: Seq<int>,
}

/// The image of a node: its functions with `main` first, the built-in
/// print functions after them, and every call patched with the offset of
/// its callee. A node without a function `main` is refused.
pub open spec fn emit_node(sigs: Seq<SignatureView>, node: NodeView) -> Result<NodeImageView, CodegenError> {
    match find_function(node.functions, "main"@, 0) {
        None => Err(CodegenError::MissingMain),
        Some(main) => match place_functions(
            sigs,
            node.functions,
            main,
            node.functions.len() as int,
        ) {
            Err(e) => Err(e),
            Ok(p) => {
                let img = p.img.put(stubs());
                match fix_calls(img, node.functions, p.starts, p.img.bytes.len() as int, img.calls.len() as int) {
                    Err(e) => Err(e),
                    Ok(bytes) => Ok(
                        NodeImageView {
                            name: node.name,
                            bytes,
                            calls: img.calls,
                            floats: img.floats,
                            starts: p.starts,
                        },
                    ),
                }
            },
        }
    }
}

/// Whether the functions are placed inside the image: every function has
/// a start, and every start is an offset of the image.
pub open spec fn placed_inside(p: Placed, n: int) -> bool {
    &&& follows(ImageView::empty(), p.img)
    &&& 0 <= p.cursor <= ADDRESS_LIMIT
    &&& p.starts.len() == n
    &&& forall|i: int| 0 <= i < n ==> 0 <= #[trigger] p.starts[i] <= p.img.bytes.len()
}

/// The functions of a node are placed inside its image.
pub proof fn lemma_place_functions(sigs: Seq<SignatureView>, fs: Seq<FunctionView>, main: int, n: int)
    requires
        0 <= main < fs.len(),
        0 <= n <= fs.len(),
    ensures
        place_functions(sigs, fs, main, n) matches Ok(p) ==> placed_inside(p, n),
    decreases n,
{
    lemma_follows_self(ImageView::empty());
    if n == 0 {
        lemma_emit_function_follows(sigs, ImageView::empty(), ImageView::empty(), 0, fs[main]);
    } else {
        lemma_place_functions(sigs, fs, main, n - 1);
        if let Ok(p) = place_functions(sigs, fs, main, n - 1) {
            if n - 1 != main {
                lemma_emit_function_follows(sigs, ImageView::empty(), p.img, p.cursor, fs[n - 1]);
                lemma_follows_self(p.img);
                lemma_emit_function_follows(sigs, p.img, p.img, p.cursor, fs[n - 1]);
            }
            if let Ok(q) = place_functions(sigs, fs, main, n) {
                assert forall|i: int| 0 <= i < n implies 0 <= #[trigger] q.starts[i]
                    <= q.img.bytes.len() by {
                    if i < n - 1 {
                        assert(q.starts[i] == p.starts[i]);
                    }
                }
            }
        }
    }
}

proof fn lemma_place_error_sticks(
    sigs: Seq<SignatureView>,
    fs: Seq<FunctionView>,
    main: int,
    n: int,
    m: int,
)
    requires
        0 <= n <= m <= fs.len(),
        place_functions(sigs, fs, main, n) is Err,
    ensures
        place_functions(sigs, fs, main, m) == place_functions(sigs, fs, main, n),
    decreases m - n,
{
    if n < m {
        lemma_place_error_sticks(sigs, fs, main, n, m - 1);
    }
}

proof fn lemma_fix_error_sticks(
    img: ImageView,
    fs: Seq<FunctionView>,
    starts: Seq<int>,
    stub_base: int,
    n: int,
    m: int,
)
    requires
        0 <= n <= m <= img.calls.len(),
        fix_calls(img, fs, starts, stub_base, n) is Err,
    ensures
        fix_calls(img, fs, starts, stub_base, m) == fix_calls(img, fs, starts, stub_base, n),
    decreases m - n,
{
    if n < m {
        lemma_fix_error_sticks(img, fs, starts, stub_base, n, m - 1);
    }
}

/// The four bytes of an image from `at` on.
pub open spec fn operand_at(bytes: Seq<u8>, at: int) -> Seq<u8> {
    bytes.subrange(at, at + 4)
}

/// After the calls of an image are patched, the place of every call that
/// was patched holds the offset of its callee.
pub proof fn lemma_fix_calls(
    img: ImageView,
    fs: Seq<FunctionView>,
    starts: Seq<int>,
    stub_base: int,
    n: int,
)
    requires
        follows(ImageView::empty(), img),
        0 <= n <= img.calls.len(),
    ensures
        fix_calls(img, fs, starts, stub_base, n) matches Ok(bytes) ==> bytes.len()
            == img.bytes.len() && forall|i: int|
            0 <= i < n ==> resolve(fs, starts, stub_base, (#[trigger] img.calls[i]).name) is Some
                && 0 <= resolve(fs, starts, stub_base, img.calls[i].name)->0 <= u32::MAX
                && operand_at(bytes, img.calls[i].offset) == be32(
                resolve(fs, starts, stub_base, img.calls[i].name)->0 as u32,
            ),
    decreases n,
{
    if n > 0 {
        lemma_fix_calls(img, fs, starts, stub_base, n - 1);
        if let Ok(before) = fix_calls(img, fs, starts, stub_base, n - 1) {
            if let Ok(bytes) = fix_calls(img, fs, starts, stub_base, n) {
                let last = img.calls[n - 1];
                let target = resolve(fs, starts, stub_base, last.name)->0;
                assert(bytes == patch(before, last.offset, target as u32));
                assert(0 <= last.offset && last.offset + 4 <= img.bytes.len());
                assert(operand_at(bytes, last.offset) =~= be32(target as u32));
                assert forall|i: int| 0 <= i < n implies resolve(
                    fs,
                    starts,
                    stub_base,
                    (#[trigger] img.calls[i]).name,
                ) is Some && 0 <= resolve(fs, starts, stub_base, img.calls[i].name)->0 <= u32::MAX
                    && operand_at(bytes, img.calls[i].offset) == be32(
                    resolve(fs, starts, stub_base, img.calls[i].name)->0 as u32,
                ) by {
                    if i < n - 1 {
                        assert(img.calls[i].offset + 4 <= last.offset);
                        assert(0 <= img.calls[i].offset);
                        assert(operand_at(bytes, img.calls[i].offset) =~= operand_at(
                            before,
                            img.calls[i].offset,
                        ));
                    }
                }
            }
        }
    }
}

/// A function that is found has the name that was looked up.
pub proof fn lemma_find_function(fs: Seq<FunctionView>, name: Seq<char>, from: int)
    requires
        0 <= from,
    ensures
        find_function(fs, name, from) matches Some(i) ==> from <= i < fs.len() && fs[i].name == name,
    decreases fs.len() - from,
{
    if from < fs.len() && fs[from].name != name {
        lemma_find_function(fs, name, from + 1);
    }
}

/// The offset where the callee of a call starts in the image of a node:
/// the start of the function of the node by that name, or else of the
/// built-in print function, in the last twelve bytes of the image.
pub open spec fn callee_offset(fs: Seq<FunctionView>, image: NodeImageView, name: Seq<char>) -> Option<
    int,
> {
    resolve(fs, image.starts, image.bytes.len() - 12, name)
}

/// Call fix-ups. In the image of a node, the place of every call holds the
/// offset where its callee starts, and that offset lies inside the image.
/// Unless the callee starts the image, as `main` does, the place no longer
/// holds the zero bytes it was emitted with.
pub proof fn lemma_calls_resolved(sigs: Seq<SignatureView>, node: NodeView, i: int)
    requires
        emit_node(sigs, node) matches Ok(image) && 0 <= i < image.calls.len(),
    ensures
        ({
            let image = emit_node(sigs, node)->Ok_0;
            let call = image.calls[i];
            &&& callee_offset(node.functions, image, call.name) matches Some(target) && 0 <= target
                < image.bytes.len() && operand_at(image.bytes, call.offset) == be32(target as u32)
                && (target != 0 ==> operand_at(image.bytes, call.offset) != be32(0))
            &&& 0 <= call.offset && call.offset + 4 <= image.bytes.len()
        }),
{
    let fs = node.functions;
    lemma_find_function(fs, "main"@, 0);
    let main = find_function(fs, "main"@, 0)->0;
    lemma_place_functions(sigs, fs, main, fs.len() as int);
    let p = place_functions(sigs, fs, main, fs.len() as int)->Ok_0;
    let img = p.img.put(stubs());
    assert(follows(ImageView::empty(), img));
    let base = p.img.bytes.len() as int;
    lemma_fix_calls(img, fs, p.starts, base, img.calls.len() as int);
    let image = emit_node(sigs, node)->Ok_0;
    assert(image.bytes.len() == base + 12);
    let call = image.calls[i];
    lemma_find_function(fs, call.name, 0);
    let target = callee_offset(fs, image, call.name)->0;
    crate::bytecode::lemma_be32_round_trip(target as u32);
    crate::bytecode::lemma_be32_round_trip(0);
}


/// Lays the slots of variables out one after the other from `cursor` on.
pub fn assign_addresses(locals: &Vec<Variable>, cursor: u64) -> (r: Result<(Vec<Slot>, u64), CodegenError>)
    requires
        cursor <= ADDRESS_LIMIT,
    ensures
        match assign_slots(seq_view(locals@), cursor as int, locals@.len() as int) {
            Ok((slots, next)) => r matches Ok(x) && seq_view(x.0@) == slots && x.1 == next,
            Err(e) => r matches Err(c) && c == e,
        },
{
    let ghost vars = seq_view(locals@);
    let mut slots: Vec<Slot> = Vec::new();
    assert(seq_view(slots@) =~= Seq::<SlotView>::empty());
    let mut next: u64 = cursor;
    let mut i: usize = 0;
    while i < locals.len()
        invariant
            i <= locals.len(),
            vars == seq_view(locals@),
            cursor <= ADDRESS_LIMIT,
            next <= ADDRESS_LIMIT,
            assign_slots(vars, cursor as int, i as int) == Ok::<(Seq<SlotView>, int), CodegenError>(
                (seq_view(slots@), next as int),
            ),
        decreases locals.len() - i,
    {
        let v = &locals[i];
        assert(vars[i as int] == v@);
        if !v.ty.sized() {
            proof {
                lemma_assign_error_sticks(vars, cursor as int, i + 1, locals@.len() as int);
            }
            return Err(CodegenError::UnsizedType);
        }
        proof {
            lemma_sized_positive(v.ty@);
        }
        let size = v.ty.size();
        let count = v.ty.count();
        let fits = match (size, count) {
            (Some(s), Some(_)) => s as u64 <= ADDRESS_LIMIT - next,
            _ => false,
        };
        if !fits {
            proof {
                assert(assign_slots(vars, cursor as int, i + 1) is Err);
                lemma_assign_error_sticks(vars, cursor as int, i + 1, locals@.len() as int);
            }
            return Err(CodegenError::OutOfAddresses);
        }
        let s = match size {
            Some(s) => s,
            None => 0,
        };
        let slot = Slot { name: v.name.clone(), ty: v.ty.clone(), addr: next as u32 };
        proof {
            lemma_seq_view_push(slots@, slot);
        }
        slots.push(slot);
        next = next + s as u64;
        i += 1;
    }
    Ok((slots, next))
}

proof fn lemma_assign_error_sticks(locals: Seq<VariableView>, cursor: int, n: int, m: int)
    requires
        0 <= n <= m <= locals.len(),
        assign_slots(locals, cursor, n) is Err,
    ensures
        assign_slots(locals, cursor, m) == assign_slots(locals, cursor, n),
    decreases m - n,
{
    if n < m {
        lemma_assign_error_sticks(locals, cursor, n, m - 1);
    }
}

proof fn lemma_binds_error_sticks(
    img: ImageView,
    slots: Seq<SlotView>,
    params: Seq<VariableView>,
    n: int,
    m: int,
)
    requires
        0 <= n <= m <= params.len(),
        put_binds(img, slots, params, n) is Err,
    ensures
        put_binds(img, slots, params, m) == put_binds(img, slots, params, n),
    decreases m - n,
{
    if n < m {
        lemma_binds_error_sticks(img, slots, params, n, m - 1);
    }
}

/// Puts the operands that follow the address of an array at the end.
fn put_array_operands(img: &mut Image, ty: &Type)
    requires
        ty@.sized(),
        ty@.count() <= i32::MAX,
    ensures
        final(img)@ == old(img)@.put(array_operands(ty@)),
{
    proof {
        lemma_sized_positive(ty@);
    }
    let base: u8 = match ty.base() {
        Type::Int | Type::Float => 4,
        _ => 1,
    };
    let count: u32 = match ty.count() {
        Some(c) => c as u32,
        None => 0,
    };
    let b = crate::bytecode::be_bytes(count);
    img.bytes.push(base);
    img.bytes.push(b[0]);
    img.bytes.push(b[1]);
    img.bytes.push(b[2]);
    img.bytes.push(b[3]);
    assert(img.bytes@ =~= old(img).bytes@ + array_operands(ty@));
}

fn put_allocation(img: &mut Image, slot: &Slot)
    requires
        slot@.ty.sized(),
        slot@.ty.count() <= i32::MAX,
    ensures
        final(img)@ == put_alloc(old(img)@, slot@),
{
    match &slot.ty {
        Type::Array(_, _) => {
            img.put_op(ALLOC_ARR, slot.addr);
            put_array_operands(img, &slot.ty);
        },
        _ => {
            img.put_op(alloc_opcode(&slot.ty), slot.addr);
        },
    }
}

fn put_binding(img: &mut Image, slot: &Slot)
    requires
        slot@.ty.sized(),
        slot@.ty.count() <= i32::MAX,
    ensures
        final(img)@ == put_bind(old(img)@, slot@),
{
    match &slot.ty {
        Type::Array(_, _) => {
            img.put_op(bind_opcode(&slot.ty), slot.addr);
            put_array_operands(img, &slot.ty);
        },
        _ => {
            img.put_op(bind_opcode(&slot.ty), slot.addr);
        },
    }
}

/// Whether emission of a function ended as wanted.
pub open spec fn function_emitted(
    r: Result<u64, CodegenError>,
    img: ImageView,
    want: Result<(ImageView, int), CodegenError>,
) -> bool {
    match want {
        Ok((v, next)) => r matches Ok(c) && c == next && img == v,
        Err(e) => r matches Err(c) && c == e,
    }
}

/// Puts the allocations of all slots at the end.
fn put_allocations(img: &mut Image, slots: &Vec<Slot>, Ghost(from): Ghost<int>, Ghost(to): Ghost<int>)
    requires
        slots_apart(seq_view(slots@), from, to),
    ensures
        final(img)@ == put_allocs(old(img)@, seq_view(slots@), slots@.len() as int),
{
    let ghost sv = seq_view(slots@);
    let mut i: usize = 0;
    while i < slots.len()
        invariant
            i <= slots.len(),
            sv == seq_view(slots@),
            slots_apart(sv, from, to),
            img@ == put_allocs(old(img)@, sv, i as int),
        decreases slots.len() - i,
    {
        assert(sv[i as int] == slots@[i as int]@);
        put_allocation(img, &slots[i]);
        i += 1;
    }
}

/// Puts the bindings of all parameters at the end.
fn put_bindings(
    img: &mut Image,
    slots: &Vec<Slot>,
    params: &Vec<Variable>,
    Ghost(from): Ghost<int>,
    Ghost(to): Ghost<int>,
) -> (r: Result<(), CodegenError>)
    requires
        slots_apart(seq_view(slots@), from, to),
    ensures
        emitted(
            r,
            final(img)@,
            put_binds(old(img)@, seq_view(slots@), seq_view(params@), params@.len() as int),
        ),
{
    let ghost sv = seq_view(slots@);
    let ghost pv = seq_view(params@);
    let ghost a = img@;
    let mut k: usize = 0;
    while k < params.len()
        invariant
            k <= params.len(),
            sv == seq_view(slots@),
            pv == seq_view(params@),
            a == old(img)@,
            slots_apart(sv, from, to),
            put_binds(a, sv, pv, k as int) == Ok::<ImageView, CodegenError>(img@),
        decreases params.len() - k,
    {
        assert(pv[k as int] == params@[k as int]@);
        match lookup_slot(slots, &params[k].name) {
            None => {
                proof {
                    assert(put_binds(a, sv, pv, k + 1) is Err);
                    lemma_binds_error_sticks(a, sv, pv, k + 1, pv.len() as int);
                }
                return Err(CodegenError::UnknownVariable);
            },
            Some(at) => {
                assert(sv[at as int] == slots@[at as int]@);
                put_binding(img, &slots[at]);
            },
        }
        k += 1;
    }
    Ok(())
}

/// Emits a function at the end of the image, with its variables laid out
/// from `cursor` on, and returns the first free address after them.
pub fn generate_function(sigs: &Vec<Signature>, img: &mut Image, cursor: u64, f: &FunctionEntry) -> (r:
    Result<u64, CodegenError>)
    requires
        cursor <= ADDRESS_LIMIT,
    ensures
        function_emitted(r, final(img)@, emit_function(seq_view(sigs@), old(img)@, cursor as int, f@)),
        r matches Ok(next) ==> cursor <= next <= ADDRESS_LIMIT,
{
    reveal(emit_function);
    let ghost locals = seq_view(f.locals@);
    let (slots, next) = assign_addresses(&f.locals, cursor)?;
    proof {
        lemma_assign_slots(locals, cursor as int, locals.len() as int);
        assert(locals.subrange(0, locals.len() as int) =~= locals);
    }
    put_allocations(img, &slots, Ghost(cursor as int), Ghost(next as int));
    put_bindings(img, &slots, &f.params, Ghost(cursor as int), Ghost(next as int))?;
    let frame = Frame { functions: sigs, locals: &f.locals, slots: &slots };
    generate_function_bytecode(&frame, img, &f.body)?;
    match f.return_type {
        ReturnKind::Void => {
            img.put_byte(RET_VOID);
        },
        _ => {},
    }
    Ok(next)
}

/// The image of a node, ready but for the bits of its float literals.
#[derive(Debug, PartialEq)]
pub struct NodeImage {
    /// The name of the node.
    pub name: String,
    /// The bytecode, with every call patched.
    pub bytes: Vec<u8>,
    /// The calls, each with the place of its callee's offset.
    pub calls: Vec<CallSite>,
    /// The float literals, each with the place that awaits its bits.
    pub floats: Vec<FloatSite>,
    /// For each function of the node, the offset where it starts.
    pub starts: Vec<usize>,
}

/// The offsets of a list as integers.
pub open spec fn offsets_of(starts: Seq<usize>) -> Seq<int> {
    Seq::new(starts.len(), |i: int| starts[i] as int)
}

impl View for NodeImage {
    type V = NodeImageView;

    open spec fn view(&self) -> NodeImageView {
        NodeImageView {
            name: self.name@,
            bytes: self.bytes@,
            calls: seq_view(self.calls@),
            floats: seq_view(self.floats@),
            starts: offsets_of(self.starts@),
        }
    }
}

/// The offset of a built-in print function among the stubs.
pub fn builtin_offset(name: &String) -> (r: Option<usize>)
    ensures
        r is None <==> stub_offset(name@) is None,
        r matches Some(o) ==> stub_offset(name@) == Some(o as int) && o <= 8,
{
    if spells(name, "print_int") {
        Some(0)
    } else if spells(name, "print_float") {
        Some(2)
    } else if spells(name, "print_bool") {
        Some(4)
    } else if spells(name, "print_char") {
        Some(6)
    } else if spells(name, "println") {
        Some(8)
    } else {
        None
    }
}

/// Whether the functions of a node are placed as wanted.
pub open spec fn placed_as(
    r: Result<(Image, Vec<usize>), CodegenError>,
    want: Result<Placed, CodegenError>,
) -> bool {
    match want {
        Ok(p) => r matches Ok(x) && x.0@ == p.img && offsets_of(x.1@) == p.starts,
        Err(e) => r matches Err(c) && c == e,
    }
}

/// Emits the functions of a node, `main` first.
fn place_all(sigs: &Vec<Signature>, functions: &Vec<FunctionEntry>, main: usize) -> (r: Result<
    (Image, Vec<usize>),
    CodegenError,
>)
    requires
        main < functions@.len(),
    ensures
        placed_as(
            r,
            place_functions(
                seq_view(sigs@),
                seq_view(functions@),
                main as int,
                functions@.len() as int,
            ),
        ),
{
    let ghost fs = seq_view(functions@);
    let ghost sg = seq_view(sigs@);
    let mut img = Image::new();
    let n = functions.len();
    let mut cursor = match generate_function(sigs, &mut img, 0, &functions[main]) {
        Err(e) => {
            proof {
                assert(place_functions(sg, fs, main as int, 0) is Err);
                lemma_place_error_sticks(sg, fs, main as int, 0, n as int);
            }
            return Err(e);
        },
        Ok(c) => c,
    };
    let mut starts: Vec<usize> = Vec::new();
    assert(offsets_of(starts@) =~= Seq::<int>::empty());
    let mut i: usize = 0;
    while i < n
        invariant
            i <= n,
            n == functions.len(),
            main < n,
            fs == seq_view(functions@),
            sg == seq_view(sigs@),
            cursor <= ADDRESS_LIMIT,
            place_functions(sg, fs, main as int, i as int) == Ok::<Placed, CodegenError>(
                Placed { img: img@, cursor: cursor as int, starts: offsets_of(starts@) },
            ),
        decreases n - i,
    {
        let ghost before = offsets_of(starts@);
        if i == main {
            starts.push(0);
            assert(offsets_of(starts@) =~= before.push(0));
        } else {
            let here = img.bytes.len();
            match generate_function(sigs, &mut img, cursor, &functions[i]) {
                Err(e) => {
                    proof {
                        assert(place_functions(sg, fs, main as int, i + 1) is Err);
                        lemma_place_error_sticks(sg, fs, main as int, i + 1, n as int);
                    }
                    return Err(e);
                },
                Ok(c) => {
                    cursor = c;
                },
            }
            starts.push(here);
            assert(offsets_of(starts@) =~= before.push(here as int));
        }
        i += 1;
    }
    Ok((img, starts))
}

/// Patches every call of the image with the offset of its callee.
fn fix_all(img: &mut Image, functions: &Vec<FunctionEntry>, starts: &Vec<usize>, base: usize) -> (r:
    Result<(), CodegenError>)
    requires
        follows(ImageView::empty(), old(img)@),
        starts@.len() == functions@.len(),
        old(img)@.bytes.len() == base + 12,
    ensures
        match fix_calls(
            old(img)@,
            seq_view(functions@),
            offsets_of(starts@),
            base as int,
            old(img)@.calls.len() as int,
        ) {
            Ok(bytes) => r is Ok && final(img)@ == (ImageView { bytes, ..old(img)@ }),
            Err(e) => r matches Err(c) && c == e,
        },
{
    let ghost whole = img@;
    let ghost fs = seq_view(functions@);
    let ghost st = offsets_of(starts@);
    let total = img.bytes.len();
    let count = img.calls.len();
    let mut k: usize = 0;
    while k < count
        invariant
            k <= count,
            count == img.calls@.len(),
            whole == old(img)@,
            fs == seq_view(functions@),
            st == offsets_of(starts@),
            starts@.len() == functions@.len(),
            total == base + 12,
            whole.bytes.len() == total,
            follows(ImageView::empty(), whole),
            img@.calls == whole.calls,
            img@.floats == whole.floats,
            img@.bytes.len() == whole.bytes.len(),
            fix_calls(whole, fs, st, base as int, k as int) == Ok::<Seq<u8>, CodegenError>(
                img@.bytes,
            ),
        decreases count - k,
    {
        let name = &img.calls[k].name;
        assert(whole.calls[k as int] == img.calls@[k as int]@);
        let target: usize = match lookup_function(functions, name) {
            Some(f) => starts[f],
            None => match builtin_offset(name) {
                Some(o) => base + o,
                None => {
                    proof {
                        assert(fix_calls(whole, fs, st, base as int, k + 1) is Err);
                        lemma_fix_error_sticks(whole, fs, st, base as int, k + 1, count as int);
                    }
                    return Err(CodegenError::UnresolvedCall);
                },
            },
        };
        if target > 0xffff_ffff {
            proof {
                assert(fix_calls(whole, fs, st, base as int, k + 1) is Err);
                lemma_fix_error_sticks(whole, fs, st, base as int, k + 1, count as int);
            }
            return Err(CodegenError::TooLarge);
        }
        let at = img.calls[k].offset;
        img.patch(at, target as u32);
        k += 1;
    }
    Ok(())
}

/// Emits the image of a node.
///
/// The functions come one after the other, `main` first and then the
/// others in the order of their declarations, each with the allocations of
/// its variables, the bindings of its parameters and its body; the
/// built-in print functions come last; and every call is patched with the
/// offset where its callee starts.
pub fn generate_bytecode(sigs: &Vec<Signature>, node: &NodeEntry) -> (r: Result<NodeImage, CodegenError>)
    ensures
        crate::source::produced(r, emit_node(seq_view(sigs@), node@)),
{
    let ghost fs = seq_view(node.functions@);
    let ghost sg = seq_view(sigs@);
    let main_name = literal("main");
    let main = match lookup_function(&node.functions, &main_name) {
        None => {
            return Err(CodegenError::MissingMain);
        },
        Some(i) => i,
    };
    let (placed, starts) = place_all(sigs, &node.functions, main)?;
    proof {
        lemma_place_functions(sg, fs, main as int, fs.len() as int);
    }
    let mut img = placed;
    let base = img.bytes.len();
    put_stubs(&mut img);
    let total = img.bytes.len();
    fix_all(&mut img, &node.functions, &starts, base)?;
    let Image { bytes, calls, floats } = img;
    Ok(NodeImage { name: node.name.clone(), bytes, calls, floats, starts })
}

/// Puts the built-in print functions at the end.
fn put_stubs(img: &mut Image)
    ensures
        final(img)@ == old(img)@.put(stubs()),
{
    img.put_pair(0x90, 0x64);
    img.put_pair(0x91, 0x64);
    img.put_pair(0x92, 0x64);
    img.put_pair(0x93, 0x64);
    img.put_pair(0x15, 0x0A);
    img.put_pair(0x93, 0x64);
    assert(img@.bytes =~= old(img)@.bytes + stubs());
}


/// The allocation of a slot: the opcode for its type and its address.
pub open spec fn allocation(slot: SlotView) -> Seq<u8> {
    seq![alloc_op(slot.ty)] + be32(slot.addr)
}

/// The number of bytes that the allocation of a slot takes with its
/// operands.
pub open spec fn allocation_len(slot: SlotView) -> int {
    match slot.ty {
        TypeView::Array(_, _) => 10,
        _ => 5,
    }
}

/// The offset of the allocation of the `i`-th slot among the allocations
/// of a function.
pub open spec fn allocation_offset(slots: Seq<SlotView>, i: int) -> int
    decreases i,
{
    if i <= 0 || i > slots.len() {
        0
    } else {
        allocation_offset(slots, i - 1) + allocation_len(slots[i - 1])
    }
}

proof fn lemma_put_allocs_hold(img: ImageView, slots: Seq<SlotView>, n: int, i: int)
    requires
        0 <= i < n <= slots.len(),
    ensures
        put_allocs(img, slots, n).bytes.len() == img.bytes.len() + allocation_offset(slots, n),
        operand_at_len(
            put_allocs(img, slots, n).bytes,
            img.bytes.len() + allocation_offset(slots, i),
            5,
        ) == allocation(slots[i]),
    decreases n,
{
    lemma_put_allocs_len(img, slots, n - 1);
    let before = put_allocs(img, slots, n - 1);
    let after = put_allocs(img, slots, n);
    assert(after == put_alloc(before, slots[n - 1]));
    if i < n - 1 {
        lemma_put_allocs_hold(img, slots, n - 1, i);
        let at = img.bytes.len() + allocation_offset(slots, i);
        lemma_allocation_offsets_grow(slots, i + 1, n - 1);
        lemma_allocation_offset_bounds(slots, i);
        assert(at + 5 <= before.bytes.len());
        assert(after.bytes.subrange(0, before.bytes.len() as int) =~= before.bytes);
        assert(operand_at_len(after.bytes, at, 5) =~= operand_at_len(before.bytes, at, 5));
    } else {
        let at = before.bytes.len() as int;
        assert(operand_at_len(after.bytes, at, 5) =~= allocation(slots[i]));
    }
}

proof fn lemma_put_allocs_len(img: ImageView, slots: Seq<SlotView>, n: int)
    requires
        0 <= n <= slots.len(),
    ensures
        put_allocs(img, slots, n).bytes.len() == img.bytes.len() + allocation_offset(slots, n),
    decreases n,
{
    if n > 0 {
        lemma_put_allocs_len(img, slots, n - 1);
    }
}

proof fn lemma_allocation_offset_bounds(slots: Seq<SlotView>, i: int)
    ensures
        0 <= allocation_offset(slots, i),
    decreases i,
{
    if 0 < i <= slots.len() {
        lemma_allocation_offset_bounds(slots, i - 1);
    }
}

proof fn lemma_allocation_offsets_grow(slots: Seq<SlotView>, i: int, n: int)
    requires
        0 <= i <= n <= slots.len(),
    ensures
        allocation_offset(slots, i) <= allocation_offset(slots, n),
        i > 0 ==> allocation_offset(slots, i) == allocation_offset(slots, i - 1) + allocation_len(
            slots[i - 1],
        ),
    decreases n - i,
{
    if i < n {
        lemma_allocation_offsets_grow(slots, i + 1, n);
    }
}

/// The `len` bytes of an image from `at` on.
pub open spec fn operand_at_len(bytes: Seq<u8>, at: int, len: int) -> Seq<u8> {
    bytes.subrange(at, at + len)
}

/// Allocation before use. The bytecode of a function begins with the
/// allocations of all its slots: the slot of every variable, which is the
/// only address that the loads and stores of the body take for the
/// variable, is allocated at a known offset from the start of the function.
pub proof fn lemma_function_allocates(
    sigs: Seq<SignatureView>,
    img: ImageView,
    cursor: int,
    f: FunctionView,
    i: int,
)
    requires
        0 <= cursor <= ADDRESS_LIMIT,
        emit_function(sigs, img, cursor, f) is Ok,
        0 <= i < f.locals.len(),
    ensures
        ({
            let slots = assign_slots(f.locals, cursor, f.locals.len() as int)->Ok_0.0;
            let out = emit_function(sigs, img, cursor, f)->Ok_0.0;
            slots.len() == f.locals.len() && operand_at_len(
                out.bytes,
                img.bytes.len() + allocation_offset(slots, i),
                5,
            ) == allocation(slots[i])
        }),
{
    reveal(emit_function);
    lemma_assign_slots(f.locals, cursor, f.locals.len() as int);
    let slots = assign_slots(f.locals, cursor, f.locals.len() as int)->Ok_0.0;
    let n = slots.len() as int;
    let a = put_allocs(img, slots, n);
    lemma_put_allocs_hold(img, slots, n, i);
    lemma_allocation_offsets_grow(slots, i + 1, n);
    lemma_follows_self(a);
    lemma_put_binds_follows(a, a, slots, f.params, f.params.len() as int);
    let b = put_binds(a, slots, f.params, f.params.len() as int)->Ok_0;
    lemma_emit_stmt_follows(Ctx { functions: sigs, locals: f.locals, slots }, a, b, f.body);
    let out = emit_function(sigs, img, cursor, f)->Ok_0.0;
    assert(follows(a, out));
    let at = img.bytes.len() + allocation_offset(slots, i);
    lemma_allocation_offset_bounds(slots, i);
    assert(at + 5 <= a.bytes.len());
    assert(operand_at_len(out.bytes, at, 5) =~= operand_at_len(
        out.bytes.subrange(0, a.bytes.len() as int),
        at,
        5,
    ));
}


/// The image with the allocations of the variables of a function, laid
/// out from `cursor` on, at its end.
pub open spec fn with_allocations(img: ImageView, cursor: int, f: FunctionView) -> ImageView {
    match assign_slots(f.locals, cursor, f.locals.len() as int) {
        Ok((slots, _)) => put_allocs(img, slots, slots.len() as int),
        Err(_) => img,
    }
}

/// The allocations of a function add no call, and everything after them
/// in the function comes after them in the image.
proof fn lemma_function_after_allocations(
    sigs: Seq<SignatureView>,
    img: ImageView,
    cursor: int,
    f: FunctionView,
)
    requires
        0 <= cursor <= ADDRESS_LIMIT,
        emit_function(sigs, img, cursor, f) is Ok,
    ensures
        with_allocations(img, cursor, f).calls == img.calls,
        follows(with_allocations(img, cursor, f), emit_function(sigs, img, cursor, f)->Ok_0.0),
        with_allocations(img, cursor, f).bytes.len() >= img.bytes.len(),
{
    reveal(emit_function);
    lemma_assign_slots(f.locals, cursor, f.locals.len() as int);
    let slots = assign_slots(f.locals, cursor, f.locals.len() as int)->Ok_0.0;
    let n = slots.len() as int;
    let a = put_allocs(img, slots, n);
    lemma_put_allocs_calls(img, slots, n);
    lemma_follows_self(a);
    lemma_put_binds_follows(a, a, slots, f.params, f.params.len() as int);
    let b = put_binds(a, slots, f.params, f.params.len() as int)->Ok_0;
    lemma_emit_stmt_follows(Ctx { functions: sigs, locals: f.locals, slots }, a, b, f.body);
}

proof fn lemma_put_allocs_calls(img: ImageView, slots: Seq<SlotView>, n: int)
    ensures
        put_allocs(img, slots, n).calls == img.calls,
        put_allocs(img, slots, n).bytes.len() >= img.bytes.len(),
    decreases n,
{
    if 0 < n <= slots.len() {
        lemma_put_allocs_calls(img, slots, n - 1);
    }
}

/// Placing more functions only lets the image grow at its end.
proof fn lemma_place_follows(
    sigs: Seq<SignatureView>,
    fs: Seq<FunctionView>,
    main: int,
    base: ImageView,
    k: int,
    n: int,
)
    requires
        0 <= main < fs.len(),
        0 <= k <= n <= fs.len(),
        place_functions(sigs, fs, main, n) is Ok,
        place_functions(sigs, fs, main, k) is Ok,
        follows(base, place_functions(sigs, fs, main, k)->Ok_0.img),
    ensures
        follows(base, place_functions(sigs, fs, main, n)->Ok_0.img),
    decreases n - k,
{
    if k < n {
        if place_functions(sigs, fs, main, n - 1) is Err {
            lemma_place_error_sticks(sigs, fs, main, n - 1, n);
        }
        lemma_place_follows(sigs, fs, main, base, k, n - 1);
        lemma_place_functions(sigs, fs, main, n - 1);
        let p = place_functions(sigs, fs, main, n - 1)->Ok_0;
        if n - 1 != main {
            lemma_emit_function_follows(sigs, base, p.img, p.cursor, fs[n - 1]);
        }
    }
}

proof fn lemma_place_prefix_ok(sigs: Seq<SignatureView>, fs: Seq<FunctionView>, main: int, k: int, n: int)
    requires
        0 <= k <= n <= fs.len(),
        place_functions(sigs, fs, main, n) is Ok,
    ensures
        place_functions(sigs, fs, main, k) is Ok,
{
    if place_functions(sigs, fs, main, k) is Err {
        lemma_place_error_sticks(sigs, fs, main, k, n);
    }
}

/// Patching calls leaves every byte outside the places of the calls as it
/// was.
proof fn lemma_fix_calls_elsewhere(
    img: ImageView,
    fs: Seq<FunctionView>,
    starts: Seq<int>,
    stub_base: int,
    n: int,
    x: int,
)
    requires
        0 <= n <= img.calls.len(),
        0 <= x < img.bytes.len(),
        forall|c: int|
            0 <= c < n ==> !((#[trigger] img.calls[c]).offset <= x < img.calls[c].offset + 4),
    ensures
        fix_calls(img, fs, starts, stub_base, n) matches Ok(bytes) ==> bytes.len()
            == img.bytes.len() && bytes[x] == img.bytes[x],
    decreases n,
{
    if n > 0 {
        lemma_fix_calls_elsewhere(img, fs, starts, stub_base, n - 1, x);
        assert(!(img.calls[n - 1].offset <= x < img.calls[n - 1].offset + 4));
    }
}

/// The first free address when function `j` of a node is emitted: zero for
/// `main`, which comes first, and for any other function what `main` and
/// the functions before it have left.
pub open spec fn cursor_before(sigs: Seq<SignatureView>, fs: Seq<FunctionView>, main: int, j: int) -> int {
    if j == main {
        0
    } else {
        match place_functions(sigs, fs, main, j) {
            Ok(p) => p.cursor,
            Err(_) => 0,
        }
    }
}

/// The slots of function `j` of a node.
pub open spec fn slots_of(sigs: Seq<SignatureView>, fs: Seq<FunctionView>, main: int, j: int) -> Seq<
    SlotView,
> {
    match assign_slots(fs[j].locals, cursor_before(sigs, fs, main, j), fs[j].locals.len() as int) {
        Ok((slots, _)) => slots,
        Err(_) => Seq::empty(),
    }
}

/// Allocation before use, in the image. In the image of a node, every
/// function starts with the allocations of all its slots: the allocation
/// of the slot of its `i`-th variable stands at a known offset from the
/// start of the function, and no patch of a call has touched it.
pub proof fn lemma_image_allocates(sigs: Seq<SignatureView>, node: NodeView, j: int, i: int)
    requires
        emit_node(sigs, node) is Ok,
        0 <= j < node.functions.len(),
        0 <= i < node.functions[j].locals.len(),
    ensures
        ({
            let image = emit_node(sigs, node)->Ok_0;
            let main = find_function(node.functions, "main"@, 0)->0;
            let slots = slots_of(sigs, node.functions, main, j);
            &&& slots.len() == node.functions[j].locals.len()
            &&& image.starts.len() == node.functions.len()
            &&& operand_at_len(image.bytes, image.starts[j] + allocation_offset(slots, i), 5)
                == allocation(slots[i])
        }),
{
    let fs = node.functions;
    let n = fs.len() as int;
    lemma_find_function(fs, "main"@, 0);
    let main = find_function(fs, "main"@, 0)->0;
    lemma_place_functions(sigs, fs, main, n);
    let last = place_functions(sigs, fs, main, n)->Ok_0;
    let whole = last.img.put(stubs());
    let image = emit_node(sigs, node)->Ok_0;
    let f = fs[j];
    let cursor = cursor_before(sigs, fs, main, j);
    // The image before and after function `j` is emitted.
    lemma_place_prefix_ok(sigs, fs, main, 0, n);
    lemma_place_prefix_ok(sigs, fs, main, j, n);
    lemma_place_prefix_ok(sigs, fs, main, j + 1, n);
    lemma_place_functions(sigs, fs, main, j);
    lemma_place_functions(sigs, fs, main, j + 1);
    let before = if j == main {
        ImageView::empty()
    } else {
        place_functions(sigs, fs, main, j)->Ok_0.img
    };
    let from = if j == main {
        0
    } else {
        j + 1
    };
    let after = place_functions(sigs, fs, main, from)->Ok_0.img;
    assert(emit_function(sigs, before, cursor, f) is Ok && emit_function(
        sigs,
        before,
        cursor,
        f,
    )->Ok_0.0 == after);
    lemma_follows_self(ImageView::empty());
    let start = before.bytes.len() as int;
    assert(last.starts[j] == start) by {
        lemma_place_starts(sigs, fs, main, n, j);
    }
    lemma_function_allocates(sigs, before, cursor, f, i);
    lemma_function_after_allocations(sigs, before, cursor, f);
    let slots = slots_of(sigs, fs, main, j);
    let a = with_allocations(before, cursor, f);
    let at = start + allocation_offset(slots, i);
    reveal(emit_function);
    lemma_assign_slots(f.locals, cursor, f.locals.len() as int);
    lemma_put_allocs_hold(before, slots, slots.len() as int, i);
    lemma_allocation_offsets_grow(slots, i + 1, slots.len() as int);
    lemma_allocation_offset_bounds(slots, i);
    assert(0 <= at && at + 5 <= a.bytes.len());
    // Everything later comes after the allocations.
    lemma_place_follows(sigs, fs, main, a, from, n);
    assert(follows(a, whole));
    assert(operand_at_len(whole.bytes, at, 5) =~= operand_at_len(after.bytes, at, 5)) by {
        assert(follows(after, last.img)) by {
            lemma_follows_self(after);
            lemma_place_follows(sigs, fs, main, after, from, n);
        }
        assert(whole.bytes.subrange(0, after.bytes.len() as int) =~= after.bytes);
        assert(a.bytes.len() <= after.bytes.len());
    }
    // No call is patched inside the allocations.
    lemma_fix_calls(whole, fs, last.starts, last.img.bytes.len() as int, whole.calls.len() as int);
    assert(follows(ImageView::empty(), before));
    assert forall|x: int| at <= x < at + 5 implies image.bytes[x] == whole.bytes[x] by {
        assert forall|c: int| 0 <= c < whole.calls.len() implies !((
        #[trigger] whole.calls[c]).offset <= x < whole.calls[c].offset + 4) by {
            if c < a.calls.len() {
                assert(whole.calls.subrange(0, a.calls.len() as int)[c] == whole.calls[c]);
                assert(before.calls[c].offset + 4 <= before.bytes.len());
            } else {
                assert(a.bytes.len() <= whole.calls[c].offset);
            }
        }
        lemma_fix_calls_elsewhere(
            whole,
            fs,
            last.starts,
            last.img.bytes.len() as int,
            whole.calls.len() as int,
            x,
        );
    }
    assert(operand_at_len(image.bytes, at, 5) =~= operand_at_len(whole.bytes, at, 5));
}

/// Where a function starts is where the image ended before it was
/// emitted; `main` starts the image.
proof fn lemma_place_starts(sigs: Seq<SignatureView>, fs: Seq<FunctionView>, main: int, n: int, j: int)
    requires
        0 <= main < fs.len(),
        0 <= j < n <= fs.len(),
        place_functions(sigs, fs, main, n) is Ok,
    ensures
        place_functions(sigs, fs, main, j) is Ok,
        place_functions(sigs, fs, main, n)->Ok_0.starts[j] == (if j == main {
            0
        } else {
            place_functions(sigs, fs, main, j)->Ok_0.img.bytes.len() as int
        }),
    decreases n,
{
    lemma_place_prefix_ok(sigs, fs, main, n - 1, n);
    lemma_place_prefix_ok(sigs, fs, main, j, n);
    lemma_place_functions(sigs, fs, main, n - 1);
    if j < n - 1 {
        lemma_place_starts(sigs, fs, main, n - 1, j);
    }
}


/// The first free address after the variables of function `j` of a node.
pub open spec fn cursor_after(sigs: Seq<SignatureView>, fs: Seq<FunctionView>, main: int, j: int) -> int {
    match assign_slots(fs[j].locals, cursor_before(sigs, fs, main, j), fs[j].locals.len() as int) {
        Ok((_, next)) => next,
        Err(_) => cursor_before(sigs, fs, main, j),
    }
}

/// The first free address never goes back: placing more functions of a
/// node leaves it where it was or moves it up.
pub proof fn lemma_place_cursor_grows(sigs: Seq<SignatureView>, fs: Seq<FunctionView>, main: int, m: int, n: int)
    requires
        0 <= main < fs.len(),
        0 <= m <= n <= fs.len(),
        place_functions(sigs, fs, main, n) is Ok,
    ensures
        place_functions(sigs, fs, main, m) is Ok,
        0 <= place_functions(sigs, fs, main, m)->Ok_0.cursor <= place_functions(
            sigs,
            fs,
            main,
            n,
        )->Ok_0.cursor,
    decreases n - m,
{
    lemma_place_prefix_ok(sigs, fs, main, m, n);
    lemma_place_functions(sigs, fs, main, m);
    if m < n {
        lemma_place_prefix_ok(sigs, fs, main, m + 1, n);
        lemma_place_cursor_grows(sigs, fs, main, m + 1, n);
        let p = place_functions(sigs, fs, main, m)->Ok_0;
        if m != main {
            lemma_follows_self(p.img);
            lemma_emit_function_follows(sigs, p.img, p.img, p.cursor, fs[m]);
        }
    }
}

/// The slots of function `j` of a node lie apart between the first free
/// address before the function and the first free address after it.
proof fn lemma_function_slots(sigs: Seq<SignatureView>, fs: Seq<FunctionView>, main: int, j: int)
    requires
        0 <= main < fs.len(),
        0 <= j < fs.len(),
        place_functions(sigs, fs, main, fs.len() as int) is Ok,
    ensures
        slots_of(sigs, fs, main, j).len() == fs[j].locals.len(),
        slots_apart(
            slots_of(sigs, fs, main, j),
            cursor_before(sigs, fs, main, j),
            cursor_after(sigs, fs, main, j),
        ),
        0 <= cursor_before(sigs, fs, main, j) <= cursor_after(sigs, fs, main, j),
        cursor_after(sigs, fs, main, j) == place_functions(
            sigs,
            fs,
            main,
            if j == main {
                0
            } else {
                j + 1
            },
        )->Ok_0.cursor,
{
    let n = fs.len() as int;
    let cursor = cursor_before(sigs, fs, main, j);
    lemma_place_cursor_grows(sigs, fs, main, 0, n);
    lemma_place_cursor_grows(sigs, fs, main, j, n);
    lemma_place_cursor_grows(sigs, fs, main, j + 1, n);
    let before = if j == main {
        ImageView::empty()
    } else {
        place_functions(sigs, fs, main, j)->Ok_0.img
    };
    let after = place_functions(
        sigs,
        fs,
        main,
        if j == main {
            0
        } else {
            j + 1
        },
    )->Ok_0;
    assert(emit_function(sigs, before, cursor, fs[j]) matches Ok(r) && r.1 == after.cursor);
    lemma_emit_function_cursor(sigs, before, cursor, fs[j]);
    lemma_place_functions(sigs, fs, main, j);
    lemma_assign_slots(fs[j].locals, cursor, fs[j].locals.len() as int);
    assert(fs[j].locals.subrange(0, fs[j].locals.len() as int) =~= fs[j].locals);
}

/// The first free address after a function is the first free address
/// after the slots of its variables.
proof fn lemma_emit_function_cursor(sigs: Seq<SignatureView>, img: ImageView, cursor: int, f: FunctionView)
    ensures
        emit_function(sigs, img, cursor, f) matches Ok(r) ==> (assign_slots(
            f.locals,
            cursor,
            f.locals.len() as int,
        ) matches Ok(s) && s.1 == r.1),
{
    reveal(emit_function);
}

/// Address uniqueness in a node. When the image of a node is made, then
/// of all variables of all its functions no two share a byte: the range of
/// addresses of each lies apart from the range of every other, whether the
/// two are variables of one function or of two. The addresses start at
/// zero with `main`.
pub proof fn lemma_node_variables_apart(
    sigs: Seq<SignatureView>,
    node: NodeView,
    j: int,
    a: int,
    k: int,
    b: int,
)
    requires
        emit_node(sigs, node) is Ok,
        0 <= j < node.functions.len(),
        0 <= k < node.functions.len(),
        0 <= a < node.functions[j].locals.len(),
        0 <= b < node.functions[k].locals.len(),
        j != k || a != b,
    ensures
        ({
            let main = find_function(node.functions, "main"@, 0)->0;
            let x = slots_of(sigs, node.functions, main, j)[a];
            let y = slots_of(sigs, node.functions, main, k)[b];
            &&& cursor_before(sigs, node.functions, main, main) == 0
            &&& 0 <= x.addr && 0 <= y.addr
            &&& x.ty.size() >= 1 && y.ty.size() >= 1
            &&& x.addr + x.ty.size() <= y.addr || y.addr + y.ty.size() <= x.addr
        }),
{
    let fs = node.functions;
    let n = fs.len() as int;
    lemma_find_function(fs, "main"@, 0);
    let main = find_function(fs, "main"@, 0)->0;
    lemma_function_slots(sigs, fs, main, j);
    lemma_function_slots(sigs, fs, main, k);
    let sj = slots_of(sigs, fs, main, j);
    let sk = slots_of(sigs, fs, main, k);
    lemma_place_prefix_ok(sigs, fs, main, j, n);
    lemma_place_prefix_ok(sigs, fs, main, k, n);
    assert(sj[a].ty.size() >= 1 && sk[b].ty.size() >= 1);
    assert(cursor_before(sigs, fs, main, j) <= sj[a].addr);
    assert(cursor_before(sigs, fs, main, k) <= sk[b].addr);
    assert(sj[a].addr + sj[a].ty.size() <= cursor_after(sigs, fs, main, j));
    assert(sk[b].addr + sk[b].ty.size() <= cursor_after(sigs, fs, main, k));
    if j == k {
        if a < b {
            assert(sj[a].addr + sj[a].ty.size() <= sj[b].addr);
        } else {
            assert(sj[b].addr + sj[b].ty.size() <= sj[a].addr);
        }
    } else if j == main {
        lemma_place_cursor_grows(sigs, fs, main, 0, k);
    } else if k == main {
        lemma_place_cursor_grows(sigs, fs, main, 0, j);
    } else if j < k {
        lemma_place_cursor_grows(sigs, fs, main, j + 1, k);
    } else {
        lemma_place_cursor_grows(sigs, fs, main, k + 1, j);
    }
}

/// Return addresses. In the image of a node, the call sequence of every
/// call begins with the push of the offset just behind its jump, to which
/// the callee returns; the place that awaits the callee is the operand of
/// that jump; and no patch of a call has touched either.
pub proof fn lemma_calls_return_behind_jump(sigs: Seq<SignatureView>, node: NodeView, i: int)
    requires
        emit_node(sigs, node) matches Ok(image) && 0 <= i < image.calls.len(),
    ensures
        ({
            let image = emit_node(sigs, node)->Ok_0;
            call_framed(image.bytes, image.calls[i])
        }),
{
    let fs = node.functions;
    lemma_find_function(fs, "main"@, 0);
    let main = find_function(fs, "main"@, 0)->0;
    lemma_place_functions(sigs, fs, main, fs.len() as int);
    let p = place_functions(sigs, fs, main, fs.len() as int)->Ok_0;
    let whole = p.img.put(stubs());
    let base = p.img.bytes.len() as int;
    let n = whole.calls.len() as int;
    let image = emit_node(sigs, node)->Ok_0;
    let call = whole.calls[i];
    assert(framed(ImageView::empty()));
    assert(framed(p.img));
    assert(call_framed(p.img.bytes, p.img.calls[i]));
    assert(call_framed(whole.bytes, call));
    assert forall|x: int|
        call.origin <= x < call.origin + 5 || x == call.offset - 1 implies image.bytes[x]
            == whole.bytes[x] by {
        assert forall|c: int| 0 <= c < n implies !((#[trigger] whole.calls[c]).offset <= x
            < whole.calls[c].offset + 4) by {
            assert(call_framed(p.img.bytes, p.img.calls[c]));
            if c < i {
                assert(p.img.calls[c].offset + 5 <= p.img.calls[i].offset);
            } else if i < c {
                assert(p.img.calls[i].offset + 5 <= p.img.calls[c].offset);
            }
        }
        lemma_fix_calls_elsewhere(whole, fs, p.starts, base, n, x);
    }
    assert(image.bytes[call.origin] == whole.bytes[call.origin]);
    assert(image.bytes[call.origin + 1] == whole.bytes[call.origin + 1]);
    assert(image.bytes[call.origin + 2] == whole.bytes[call.origin + 2]);
    assert(image.bytes[call.origin + 3] == whole.bytes[call.origin + 3]);
    assert(image.bytes[call.origin + 4] == whole.bytes[call.origin + 4]);
    assert(image.bytes[call.offset - 1] == whole.bytes[call.offset - 1]);
    lemma_fix_calls_elsewhere(whole, fs, p.starts, base, n, call.origin);
}

} // verus!
