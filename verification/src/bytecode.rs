//! The bytecode: opcodes, the encoding of operands, and the images that
//! the emitter builds.

use vstd::prelude::*;
use crate::ast::NodeTag;
use crate::symbols::{lemma_seq_view_push, seq_view};
use crate::token::{FloatLiteral, FloatView};
use crate::types::{Type, TypeView};

verus! {

/// Pushes an integer constant.
pub const PUSH_I32: u8 = 0x10;

/// Pushes a float constant.
pub const PUSH_F32: u8 = 0x11;

/// Pushes a boolean.
pub const PUSH_BOOL: u8 = 0x14;

/// Pushes a character.
pub const PUSH_CHAR: u8 = 0x15;

/// Reserves the slots of an array.
pub const ALLOC_ARR: u8 = 0x80;

/// Binds an array parameter.
pub const BIND_ARR: u8 = 0x81;

/// Adds two integers.
pub const ADD_I32: u8 = 0x30;

/// Multiplies two integers.
pub const MUL_I32: u8 = 0x34;

/// The boolean `and`.
pub const AND: u8 = 0x58;

/// The boolean `or`.
pub const OR: u8 = 0x59;

/// Pops a boolean and jumps when it is false.
pub const JMP_IF_FALSE: u8 = 0x51;

/// Jumps.
pub const JMP: u8 = 0x5A;

/// Pops a value and returns it.
pub const RET_VAL: u8 = 0x5B;

/// Returns without a value.
pub const RET_VOID: u8 = 0x64;

/// The opcode that is emitted where the instruction set has none.
pub const NO_OPCODE: u8 = 0x00;

/// The four bytes of a 32-bit number, the most significant first.
pub open spec fn be32(v: u32) -> Seq<u8> {
    seq![
        (v / 0x100_0000) as u8,
        ((v / 0x1_0000) % 0x100) as u8,
        ((v / 0x100) % 0x100) as u8,
        (v % 0x100) as u8,
    ]
}

/// The 32-bit number that four bytes hold, the most significant first.
pub open spec fn from_be32(b: Seq<u8>) -> u32
    recommends
        b.len() == 4,
{
    (b[0] as int * 0x100_0000 + b[1] as int * 0x1_0000 + b[2] as int * 0x100 + b[3] as int) as u32
}

/// The bit pattern of a 32-bit signed integer in two's complement.
pub open spec fn bits_of(n: i32) -> u32 {
    if n >= 0 {
        n as u32
    } else {
        (n + 0x1_0000_0000) as u32
    }
}

/// The 32-bit signed integer of a bit pattern in two's complement.
pub open spec fn signed_of(v: u32) -> i32 {
    if v < 0x8000_0000 {
        v as i32
    } else {
        (v - 0x1_0000_0000) as i32
    }
}

/// The byte that stands for a character: its code point modulo 256.
pub open spec fn byte_of(c: char) -> u8 {
    ((c as u32) % 0x100) as u8
}

/// Decoding the four bytes of a number recovers the number.
pub proof fn lemma_be32_round_trip(v: u32)
    ensures
        be32(v).len() == 4,
        from_be32(be32(v)) == v,
{
}

/// Decoding the bit pattern of a signed integer recovers the integer.
pub proof fn lemma_bits_round_trip(n: i32)
    ensures
        signed_of(bits_of(n)) == n,
{
}

/// A literal of the source that a push instruction can hold whole.
pub enum Literal {
    Integer(i32),
    Boolean(bool),
    Character(char),
}

/// The push instruction of a literal.
pub open spec fn push_of(lit: Literal) -> Seq<u8> {
    match lit {
        Literal::Integer(n) => seq![PUSH_I32] + be32(bits_of(n)),
        Literal::Boolean(b) => seq![PUSH_BOOL, if b { 1u8 } else { 0u8 }],
        Literal::Character(c) => seq![PUSH_CHAR, byte_of(c)],
    }
}

/// The literal that a push instruction holds, if the bytes are one.
pub open spec fn literal_of(code: Seq<u8>) -> Option<Literal> {
    if code.len() == 5 && code[0] == PUSH_I32 {
        Some(Literal::Integer(signed_of(from_be32(code.subrange(1, 5)))))
    } else if code.len() == 2 && code[0] == PUSH_BOOL {
        Some(Literal::Boolean(code[1] != 0))
    } else if code.len() == 2 && code[0] == PUSH_CHAR {
        Some(Literal::Character(code[1] as char))
    } else {
        None
    }
}

/// Reversibility of literals. Decoding the push instruction of an integer,
/// of a boolean, or of a character below 256 recovers the literal.
pub proof fn lemma_literal_round_trip(lit: Literal)
    requires
        lit matches Literal::Character(c) ==> (c as u32) < 0x100,
    ensures
        literal_of(push_of(lit)) == Some(lit),
{
    match lit {
        Literal::Integer(n) => {
            let code = push_of(lit);
            assert(code.subrange(1, 5) =~= be32(bits_of(n)));
            lemma_be32_round_trip(bits_of(n));
            lemma_bits_round_trip(n);
        },
        Literal::Boolean(b) => {},
        Literal::Character(c) => {
            assert(byte_of(c) as char == c);
        },
    }
}

/// The bytes `bytes` with the four bytes from `at` on replaced by the
/// bytes of `v`.
pub open spec fn patch(bytes: Seq<u8>, at: int, v: u32) -> Seq<u8> {
    Seq::new(
        bytes.len(),
        |k: int|
            if at <= k < at + 4 {
                be32(v)[k - at]
            } else {
                bytes[k]
            },
    )
}

/// The opcode that reserves a slot for a value of the type.
pub open spec fn alloc_op(t: TypeView) -> u8 {
    match t {
        TypeView::Int => 0x20,
        TypeView::Float => 0x21,
        TypeView::Bool => 0x28,
        TypeView::Char => 0x2C,
        TypeView::Array(_, _) => ALLOC_ARR,
        TypeView::Named(_) => NO_OPCODE,
    }
}

/// The opcode that pushes the value of a variable of the type; for an
/// array, the opcode of the indexed load of its innermost elements.
pub open spec fn load_op(t: TypeView) -> u8 {
    match t {
        TypeView::Int => 0x22,
        TypeView::Float => 0x23,
        TypeView::Bool => 0x29,
        TypeView::Char => 0x2D,
        TypeView::Array(_, _) => match t.base() {
            TypeView::Int => 0x82,
            TypeView::Float => 0x83,
            TypeView::Bool => 0x84,
            TypeView::Char => 0x85,
            _ => NO_OPCODE,
        },
        TypeView::Named(_) => NO_OPCODE,
    }
}

/// The opcode that pops a value into a variable of a primitive type.
pub open spec fn store_op(t: TypeView) -> u8 {
    match t {
        TypeView::Int => 0x24,
        TypeView::Float => 0x25,
        TypeView::Bool => 0x2A,
        TypeView::Char => 0x2E,
        _ => NO_OPCODE,
    }
}

/// The opcode of the indexed store into an array of the type, by its
/// innermost elements.
pub open spec fn store_arr_op(t: TypeView) -> u8 {
    match t.base() {
        TypeView::Int => 0x87,
        TypeView::Float => 0x88,
        TypeView::Bool => 0x89,
        TypeView::Char => 0x8A,
        _ => NO_OPCODE,
    }
}

/// The opcode that binds a parameter of the type.
pub open spec fn bind_op(t: TypeView) -> u8 {
    match t {
        TypeView::Array(_, _) => BIND_ARR,
        _ => store_op(t),
    }
}

/// The opcode of an arithmetic operator on operands of the type.
pub open spec fn arith_op(tag: NodeTag, t: TypeView) -> u8 {
    match (tag, t) {
        (NodeTag::AddOp, TypeView::Int) => 0x30,
        (NodeTag::AddOp, TypeView::Float) => 0x31,
        (NodeTag::AddOp, TypeView::Char) => 0x38,
        (NodeTag::SubOp, TypeView::Int) => 0x32,
        (NodeTag::SubOp, TypeView::Float) => 0x33,
        (NodeTag::SubOp, TypeView::Char) => 0x39,
        (NodeTag::MulOp, TypeView::Int) => 0x34,
        (NodeTag::MulOp, TypeView::Float) => 0x35,
        (NodeTag::DivOp, TypeView::Int) => 0x36,
        (NodeTag::DivOp, TypeView::Float) => 0x37,
        _ => NO_OPCODE,
    }
}

/// The opcode of a comparison of operands of the type.
pub open spec fn compare_op(tag: NodeTag, t: TypeView) -> u8 {
    match (tag, t) {
        (NodeTag::CompEq, TypeView::Int) => 0x52,
        (NodeTag::CompNeq, TypeView::Int) => 0x53,
        (NodeTag::CompLess, TypeView::Int) => 0x54,
        (NodeTag::CompLeq, TypeView::Int) => 0x55,
        (NodeTag::CompGreater, TypeView::Int) => 0x56,
        (NodeTag::CompGeq, TypeView::Int) => 0x57,
        (NodeTag::CompEq, TypeView::Float) => 0x5C,
        (NodeTag::CompNeq, TypeView::Float) => 0x5D,
        (NodeTag::CompLess, TypeView::Float) => 0x5E,
        (NodeTag::CompLeq, TypeView::Float) => 0x5F,
        (NodeTag::CompGreater, TypeView::Float) => 0x60,
        (NodeTag::CompGeq, TypeView::Float) => 0x61,
        (NodeTag::CompEq, TypeView::Bool) => 0x62,
        (NodeTag::CompNeq, TypeView::Bool) => 0x63,
        _ => NO_OPCODE,
    }
}

/// The four bytes of a 32-bit number, the most significant first.
pub fn be_bytes(v: u32) -> (r: [u8; 4])
    ensures
        r@ == be32(v),
{
    let r = [
        (v / 0x100_0000) as u8,
        ((v / 0x1_0000) % 0x100) as u8,
        ((v / 0x100) % 0x100) as u8,
        (v % 0x100) as u8,
    ];
    assert(r@ =~= be32(v));
    r
}

/// The bit pattern of a 32-bit signed integer in two's complement.
pub fn bits(n: i32) -> (r: u32)
    ensures
        r == bits_of(n),
{
    if n >= 0 {
        n as u32
    } else {
        ((n as i64) + 0x1_0000_0000) as u32
    }
}

/// The byte that stands for a character.
pub fn byte(c: char) -> (r: u8)
    ensures
        r == byte_of(c),
{
    ((c as u32) % 0x100) as u8
}

/// The opcode that reserves a slot for a value of the type.
pub fn alloc_opcode(t: &Type) -> (r: u8)
    ensures
        r == alloc_op(t@),
{
    match t {
        Type::Int => 0x20,
        Type::Float => 0x21,
        Type::Bool => 0x28,
        Type::Char => 0x2C,
        Type::Array(_, _) => ALLOC_ARR,
        Type::Named(_) => NO_OPCODE,
    }
}

/// The opcode that pushes the value of a variable of the type.
pub fn load_opcode(t: &Type) -> (r: u8)
    ensures
        r == load_op(t@),
{
    match t {
        Type::Int => 0x22,
        Type::Float => 0x23,
        Type::Bool => 0x29,
        Type::Char => 0x2D,
        Type::Array(_, _) => match t.base() {
            Type::Int => 0x82,
            Type::Float => 0x83,
            Type::Bool => 0x84,
            Type::Char => 0x85,
            _ => NO_OPCODE,
        },
        Type::Named(_) => NO_OPCODE,
    }
}

/// The opcode that pops a value into a variable of a primitive type.
pub fn store_opcode(t: &Type) -> (r: u8)
    ensures
        r == store_op(t@),
{
    match t {
        Type::Int => 0x24,
        Type::Float => 0x25,
        Type::Bool => 0x2A,
        Type::Char => 0x2E,
        _ => NO_OPCODE,
    }
}

/// The opcode of the indexed store into an array of the type.
pub fn store_arr_opcode(t: &Type) -> (r: u8)
    ensures
        r == store_arr_op(t@),
{
    match t.base() {
        Type::Int => 0x87,
        Type::Float => 0x88,
        Type::Bool => 0x89,
        Type::Char => 0x8A,
        _ => NO_OPCODE,
    }
}

/// The opcode that binds a parameter of the type.
pub fn bind_opcode(t: &Type) -> (r: u8)
    ensures
        r == bind_op(t@),
{
    match t {
        Type::Array(_, _) => BIND_ARR,
        _ => store_opcode(t),
    }
}

/// The opcode of an arithmetic operator on operands of the type.
pub fn arith_opcode(tag: NodeTag, t: &Type) -> (r: u8)
    ensures
        r == arith_op(tag, t@),
{
    match (tag, t) {
        (NodeTag::AddOp, Type::Int) => 0x30,
        (NodeTag::AddOp, Type::Float) => 0x31,
        (NodeTag::AddOp, Type::Char) => 0x38,
        (NodeTag::SubOp, Type::Int) => 0x32,
        (NodeTag::SubOp, Type::Float) => 0x33,
        (NodeTag::SubOp, Type::Char) => 0x39,
        (NodeTag::MulOp, Type::Int) => 0x34,
        (NodeTag::MulOp, Type::Float) => 0x35,
        (NodeTag::DivOp, Type::Int) => 0x36,
        (NodeTag::DivOp, Type::Float) => 0x37,
        _ => NO_OPCODE,
    }
}

/// The opcode of a comparison of operands of the type.
pub fn compare_opcode(tag: NodeTag, t: &Type) -> (r: u8)
    ensures
        r == compare_op(tag, t@),
{
    match (tag, t) {
        (NodeTag::CompEq, Type::Int) => 0x52,
        (NodeTag::CompNeq, Type::Int) => 0x53,
        (NodeTag::CompLess, Type::Int) => 0x54,
        (NodeTag::CompLeq, Type::Int) => 0x55,
        (NodeTag::CompGreater, Type::Int) => 0x56,
        (NodeTag::CompGeq, Type::Int) => 0x57,
        (NodeTag::CompEq, Type::Float) => 0x5C,
        (NodeTag::CompNeq, Type::Float) => 0x5D,
        (NodeTag::CompLess, Type::Float) => 0x5E,
        (NodeTag::CompLeq, Type::Float) => 0x5F,
        (NodeTag::CompGreater, Type::Float) => 0x60,
        (NodeTag::CompGeq, Type::Float) => 0x61,
        (NodeTag::CompEq, Type::Bool) => 0x62,
        (NodeTag::CompNeq, Type::Bool) => 0x63,
        _ => NO_OPCODE,
    }
}

/// A place in an image that awaits the offset of a function: the offset of
/// the four bytes, the name of the function called, and the offset at
/// which the call sequence begins that the place ends.
#[derive(Debug, PartialEq)]
pub struct CallSite {
    pub offset: usize,
    pub name: String,
    pub origin: usize,
}

/// The view of a [`CallSite`].
pub struct CallView {
    pub offset: int,
    pub name: Seq<char>,
    pub origin: int,
}

impl View for CallSite {
    type V = CallView;

    open spec fn view(&self) -> CallView {
        CallView { offset: self.offset as int, name: self.name@, origin: self.origin as int }
    }
}

/// A place in an image that awaits the bits of a float literal: the offset
/// of the four bytes, and the literal as written.
#[derive(Debug, PartialEq)]
pub struct FloatSite {
    pub offset: usize,
    pub literal: FloatLiteral,
}

/// The view of a [`FloatSite`].
pub struct FloatSiteView {
    pub offset: int,
    pub literal: FloatView,
}

impl View for FloatSite {
    type V = FloatSiteView;

    open spec fn view(&self) -> FloatSiteView {
        FloatSiteView { offset: self.offset as int, literal: self.literal@ }
    }
}

/// An image under construction: the bytes emitted so far, the calls that
/// await the offset of their callee, and the float literals that await
/// their bits.
#[derive(Debug, PartialEq)]
pub struct Image {
    pub bytes: Vec<u8>,
    pub calls: Vec<CallSite>,
    pub floats: Vec<FloatSite>,
}

/// The view of an [`Image`].
pub struct ImageView {
    pub bytes: Seq<u8>,
    pub calls: Seq<CallView>,
    pub floats: Seq<FloatSiteView>,
}

impl View for Image {
    type V = ImageView;

    open spec fn view(&self) -> ImageView {
        ImageView { bytes: self.bytes@, calls: seq_view(self.calls@), floats: seq_view(self.floats@) }
    }
}

impl ImageView {
    /// The image without anything in it.
    pub open spec fn empty() -> ImageView {
        ImageView { bytes: Seq::empty(), calls: Seq::empty(), floats: Seq::empty() }
    }

    /// The image with more bytes at its end.
    pub open spec fn put(self, more: Seq<u8>) -> ImageView {
        ImageView { bytes: self.bytes + more, ..self }
    }

    /// The image with an opcode and a 32-bit operand at its end.
    pub open spec fn put_op(self, op: u8, operand: u32) -> ImageView {
        self.put(seq![op] + be32(operand))
    }

    /// The image with the four bytes from `at` on replaced by the bytes of
    /// `v`.
    pub open spec fn patched(self, at: int, v: u32) -> ImageView {
        ImageView { bytes: patch(self.bytes, at, v), ..self }
    }

    /// The image with one more call that awaits its callee: its last four
    /// bytes are the place, and the call sequence began at `origin`.
    pub open spec fn with_call(self, name: Seq<char>, origin: int) -> ImageView {
        ImageView {
            calls: self.calls.push(CallView { offset: self.bytes.len() - 4, name, origin }),
            ..self
        }
    }

    /// The image with one more float literal that awaits its bits: its
    /// last four bytes are the place.
    pub open spec fn with_float(self, literal: FloatView) -> ImageView {
        ImageView {
            floats: self.floats.push(FloatSiteView { offset: self.bytes.len() - 4, literal }),
            ..self
        }
    }
}

impl Image {
    /// An image without anything in it.
    pub fn new() -> (r: Image)
        ensures
            r@ == ImageView::empty(),
    {
        let r = Image { bytes: Vec::new(), calls: Vec::new(), floats: Vec::new() };
        assert(r@.calls =~= Seq::empty());
        assert(r@.floats =~= Seq::empty());
        r
    }

    /// Puts one byte at the end.
    pub fn put_byte(&mut self, b: u8)
        ensures
            final(self)@ == old(self)@.put(seq![b]),
    {
        self.bytes.push(b);
        assert(self.bytes@ =~= old(self).bytes@ + seq![b]);
    }

    /// Puts two bytes at the end.
    pub fn put_pair(&mut self, a: u8, b: u8)
        ensures
            final(self)@ == old(self)@.put(seq![a, b]),
    {
        self.bytes.push(a);
        self.bytes.push(b);
        assert(self.bytes@ =~= old(self).bytes@ + seq![a, b]);
    }

    /// Puts an opcode and a 32-bit operand at the end.
    pub fn put_op(&mut self, op: u8, operand: u32)
        ensures
            final(self)@ == old(self)@.put_op(op, operand),
    {
        let b = be_bytes(operand);
        self.bytes.push(op);
        self.bytes.push(b[0]);
        self.bytes.push(b[1]);
        self.bytes.push(b[2]);
        self.bytes.push(b[3]);
        assert(self.bytes@ =~= old(self).bytes@ + (seq![op] + be32(operand)));
    }

    /// Replaces the four bytes from `at` on by the bytes of `v`.
    pub fn patch(&mut self, at: usize, v: u32)
        requires
            at + 4 <= old(self)@.bytes.len(),
        ensures
            final(self)@ == old(self)@.patched(at as int, v),
    {
        let b = be_bytes(v);
        let n = self.bytes.len();
        assert(at + 4 <= n);
        self.bytes.set(at, b[0]);
        self.bytes.set(at + 1, b[1]);
        self.bytes.set(at + 2, b[2]);
        self.bytes.set(at + 3, b[3]);
        assert(self.bytes@ =~= patch(old(self).bytes@, at as int, v));
    }

    /// Records that the last four bytes await the offset of `name`, at
    /// the end of a call sequence that began at `origin`.
    pub fn note_call(&mut self, name: String, origin: usize)
        requires
            old(self)@.bytes.len() >= 4,
        ensures
            final(self)@ == old(self)@.with_call(name@, origin as int),
    {
        let site = CallSite { offset: self.bytes.len() - 4, name, origin };
        proof {
            lemma_seq_view_push(self.calls@, site);
        }
        self.calls.push(site);
    }

    /// Records that the last four bytes await the bits of `literal`.
    pub fn note_float(&mut self, literal: FloatLiteral)
        requires
            old(self)@.bytes.len() >= 4,
        ensures
            final(self)@ == old(self)@.with_float(literal@),
    {
        let site = FloatSite { offset: self.bytes.len() - 4, literal };
        proof {
            lemma_seq_view_push(self.floats@, site);
        }
        self.floats.push(site);
    }

    /// The number of bytes emitted so far, if it fits in 32 bits.
    pub fn offset(&self) -> (r: Option<u32>)
        ensures
            r is None <==> self@.bytes.len() > u32::MAX,
            r matches Some(v) ==> v == self@.bytes.len(),
    {
        let n = self.bytes.len();
        if n > 0xffff_ffff {
            None
        } else {
            Some(n as u32)
        }
    }
}

} // verus!
