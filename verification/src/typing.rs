//! Type checking: the type of every expression, and the rules that
//! declarations, assignments and operators must meet.

use vstd::prelude::*;
use crate::ast::{AbstractSyntaxTree, AstView, NodeTag, NodeView, SyntaxTreeNode, lemma_view_children};
use crate::lower::type_in;
use crate::symbols::{
    ReturnKind,
    ReturnView,
    Signature,
    SignatureView,
    Variable,
    VariableView,
    builtin,
    find_variable,
    is_builtin,
    is_print_of_value,
    lookup,
    print_of_value,
    seq_view,
};
use crate::types::{Type, TypeView};

verus! {

/// Two operands of an arithmetic or comparison operator do not have one
/// type among `int`, `float` and `char`, or two operands of `&&` or `||`
/// are not both `bool`.
pub const OPERAND_MISMATCH: usize = 11;

/// A name is used that is no variable of the function.
pub const UNKNOWN_VARIABLE: usize = 12;

/// A call matches no function by name and parameter types.
pub const UNKNOWN_SIGNATURE: usize = 13;

/// The type written in a declaration is not the type of its initializer.
pub const DECLARATION_MISMATCH: usize = 8;

/// The type of the target of an assignment is not the type of its value.
pub const ASSIGNMENT_MISMATCH: usize = 9;

/// An array type with a length that is not positive.
pub const MALFORMED_ARRAY_TYPE: usize = 17;

/// An array literal that is empty, or whose elements do not have one type.
pub const MALFORMED_ARRAY: usize = 21;

/// An index that is a negative literal, or not an `int`.
pub const BAD_INDEX: usize = 22;

/// An index that is not an `int`, or an index into what is no array.
pub const NOT_INDEXABLE: usize = 23;

/// What type checking knows: the signatures of all functions of all nodes,
/// and the variables of the function at hand.
pub struct Env {
    pub functions: Seq<SignatureView>,
    pub locals: Seq<VariableView>,
}

/// Whether the tag is an arithmetic operator.
pub open spec fn is_arithmetic(tag: NodeTag) -> bool {
    tag == NodeTag::AddOp || tag == NodeTag::SubOp || tag == NodeTag::MulOp || tag == NodeTag::DivOp
}

/// Whether the tag is a comparison.
pub open spec fn is_comparison(tag: NodeTag) -> bool {
    tag == NodeTag::CompEq || tag == NodeTag::CompNeq || tag == NodeTag::CompLess || tag
        == NodeTag::CompGreater || tag == NodeTag::CompLeq || tag == NodeTag::CompGeq
}

/// Whether the tag is `&&` or `||`.
pub open spec fn is_connective(tag: NodeTag) -> bool {
    tag == NodeTag::AndOp || tag == NodeTag::OrOp
}

/// Whether every array in the type has a positive length.
pub open spec fn positive_lengths(t: TypeView) -> bool
    decreases t,
{
    match t {
        TypeView::Array(e, n) => n > 0 && positive_lengths(*e),
        _ => true,
    }
}

/// Whether the expression is worth a value of a type that can be added,
/// subtracted, multiplied, divided and compared.
pub open spec fn is_numeric_value(k: ReturnView) -> bool {
    k matches ReturnView::Value(t) && t.is_numeric()
}

/// The type that is left of `ty` after the indices of `index` are applied:
/// one array wrapper is stripped for each index. An index that is a
/// negative literal is refused, and so is an index into what is no array.
pub open spec fn indexed(ty: TypeView, index: AstView) -> Result<TypeView, usize>
    decreases index,
{
    if index.tag() == NodeTag::Index {
        let inner = if index.children.len() > 1 {
            indexed(ty, index.children[1])
        } else {
            Ok(ty)
        };
        match inner {
            Err(e) => Err(e),
            Ok(inner) => {
                if index.child(0).node matches NodeView::Integer(i) && i < 0 {
                    Err(BAD_INDEX)
                } else {
                    match inner {
                        TypeView::Array(e, _) => Ok(*e),
                        _ => Err(NOT_INDEXABLE),
                    }
                }
            },
        }
    } else {
        Ok(ty)
    }
}

/// Whether a call of `name` with arguments of the types `inputs` is a call
/// of the function with this signature.
pub open spec fn fits(sig: SignatureView, name: Seq<char>, inputs: Seq<ReturnView>) -> bool {
    sig.name == name && inputs == Seq::new(sig.params.len(), |i: int| ReturnView::Value(sig.params[i]))
}

/// The first signature from `from` on that a call of `name` with arguments
/// of the types `inputs` fits.
pub open spec fn find_signature(
    functions: Seq<SignatureView>,
    name: Seq<char>,
    inputs: Seq<ReturnView>,
    from: int,
) -> Option<int>
    decreases functions.len() - from,
{
    if from < 0 || from >= functions.len() {
        None
    } else if fits(functions[from], name, inputs) {
        Some(from)
    } else {
        find_signature(functions, name, inputs, from + 1)
    }
}

/// The first position from `from` on whose type differs from the first
/// type of the list.
pub open spec fn first_unlike(inputs: Seq<ReturnView>, from: int) -> Option<int>
    decreases inputs.len() - from,
{
    if from < 0 || from >= inputs.len() {
        None
    } else if inputs[from] != inputs[0] {
        Some(from)
    } else {
        first_unlike(inputs, from + 1)
    }
}

/// The type of an array literal whose elements have the types `inputs`: an
/// array of as many elements of their one type. A literal without elements,
/// with elements of different types, or with elements that are no values
/// is refused.
pub open spec fn array_of(inputs: Seq<ReturnView>) -> Result<ReturnView, usize> {
    if inputs.len() == 0 || inputs.len() > i32::MAX || first_unlike(inputs, 0) is Some {
        Err(MALFORMED_ARRAY)
    } else {
        match inputs[0] {
            ReturnView::Value(t) => Ok(
                ReturnView::Value(TypeView::Array(Box::new(t), inputs.len() as i32)),
            ),
            _ => Err(MALFORMED_ARRAY),
        }
    }
}

/// What a call of `name` with arguments of the types `inputs` is worth:
/// what the first function that it fits returns; for a built-in print
/// function that takes the value to print, called with one argument of any
/// type, an `int`; for `println` without arguments, nothing.
pub open spec fn call_type(functions: Seq<SignatureView>, name: Seq<char>, inputs: Seq<ReturnView>) -> Result<
    ReturnView,
    usize,
> {
    match find_signature(functions, name, inputs, 0) {
        Some(i) => Ok(functions[i].return_type),
        None => if is_print_of_value(name) && inputs.len() == 1 {
            Ok(ReturnView::Value(TypeView::Int))
        } else if is_builtin(name) && !is_print_of_value(name) && inputs.len() == 0 {
            Ok(ReturnView::Void)
        } else {
            Err(UNKNOWN_SIGNATURE)
        },
    }
}

/// What an expression is worth: a value of a type, or nothing.
///
/// - An arithmetic operator wants two operands of one type among `int`,
///   `float` and `char`, and is worth that type.
/// - A comparison wants the same of its operands, and is worth a `bool`.
/// - `&&` and `||` want two `bool` operands, and are worth a `bool`.
/// - An index list wants every index to be an `int`.
/// - A name is worth the type of the first variable of that name, with one
///   array wrapper stripped for each index that follows it.
/// - An array literal is worth an array of its elements' one type.
/// - A call is worth what the function returns that it fits by name and
///   argument types.
/// - A literal is worth its type, and anything else nothing.
pub open spec fn type_of(env: Env, t: AstView) -> Result<ReturnView, usize>
    decreases t, 1nat,
{
    let tag = t.tag();
    if is_arithmetic(tag) || is_comparison(tag) || is_connective(tag) {
        match kid_type(env, t, 0) {
            Err(e) => Err(e),
            Ok(l) => match kid_type(env, t, 1) {
                Err(e) => Err(e),
                Ok(r) => {
                    if is_connective(tag) {
                        if l == r && l == ReturnView::Value(TypeView::Bool) {
                            Ok(l)
                        } else {
                            Err(OPERAND_MISMATCH)
                        }
                    } else if l == r && is_numeric_value(l) {
                        if is_arithmetic(tag) {
                            Ok(l)
                        } else {
                            Ok(ReturnView::Value(TypeView::Bool))
                        }
                    } else {
                        Err(OPERAND_MISMATCH)
                    }
                },
            },
        }
    } else if tag == NodeTag::Index {
        match kid_type(env, t, 0) {
            Err(e) => Err(e),
            Ok(l) => {
                let r = if t.child(1).tag() != NodeTag::Null {
                    kid_type(env, t, 1)
                } else {
                    Ok(l)
                };
                match r {
                    Err(e) => Err(e),
                    Ok(r) => if l == r && l == ReturnView::Value(TypeView::Int) {
                        Ok(l)
                    } else {
                        Err(NOT_INDEXABLE)
                    },
                }
            },
        }
    } else if tag == NodeTag::InputList {
        match input_types(env, t) {
            Err(e) => Err(e),
            Ok(inputs) => array_of(inputs),
        }
    } else if tag == NodeTag::FnCall {
        let inputs = if t.children.len() > 1 {
            input_types(env, t.children[1])
        } else {
            Ok(Seq::empty())
        };
        match inputs {
            Err(e) => Err(e),
            Ok(inputs) => match t.child(0).node {
                NodeView::Identifier(name) => call_type(env.functions, name, inputs),
                _ => Ok(ReturnView::Void),
            },
        }
    } else {
        match t.node {
            NodeView::Identifier(name) => {
                let index = if t.children.len() > 0 {
                    kid_type(env, t, 0)
                } else {
                    Ok(ReturnView::Void)
                };
                match index {
                    Err(e) => Err(e),
                    Ok(_) => match find_variable(env.locals, name, 0) {
                        None => Err(UNKNOWN_VARIABLE),
                        Some(i) => match indexed(env.locals[i].ty, t.child(0)) {
                            Err(e) => Err(e),
                            Ok(ty) => Ok(ReturnView::Value(ty)),
                        },
                    },
                }
            },
            NodeView::Integer(_) => Ok(ReturnView::Value(TypeView::Int)),
            NodeView::Float(_) => Ok(ReturnView::Value(TypeView::Float)),
            NodeView::Character(_) => Ok(ReturnView::Value(TypeView::Char)),
            NodeView::Plain(NodeTag::True) => Ok(ReturnView::Value(TypeView::Bool)),
            NodeView::Plain(NodeTag::False) => Ok(ReturnView::Value(TypeView::Bool)),
            _ => Ok(ReturnView::Void),
        }
    }
}

/// What the `k`-th subtree of `t` is worth; nothing when there is none.
pub open spec fn kid_type(env: Env, t: AstView, k: int) -> Result<ReturnView, usize>
    decreases t, 0nat,
{
    if 0 <= k < t.children.len() {
        type_of(env, t.children[k])
    } else {
        Ok(ReturnView::Void)
    }
}

/// What the expressions of an input list are worth, in source order. An
/// input list holds its first expression and the list of the others.
pub open spec fn input_types(env: Env, t: AstView) -> Result<Seq<ReturnView>, usize>
    decreases t, 0nat,
{
    if t.tag() == NodeTag::Null || t.children.len() == 0 {
        Ok(Seq::empty())
    } else {
        match type_of(env, t.children[0]) {
            Err(e) => Err(e),
            Ok(first) => {
                let rest = if t.children.len() > 1 {
                    input_types(env, t.children[1])
                } else {
                    Ok(Seq::empty())
                };
                match rest {
                    Err(e) => Err(e),
                    Ok(rest) => Ok(seq![first] + rest),
                }
            },
        }
    }
}

/// The rule of an assignment `name index = value`: the name is a variable,
/// every index is an `int`, and the type of the variable with one array
/// wrapper stripped for each index is the type of the value.
pub open spec fn check_assignment(env: Env, t: AstView) -> Result<(), usize> {
    match kid_type(env, t, 0) {
        Err(e) => Err(e),
        Ok(target) => match kid_type(env, t, 1) {
            Err(e) => Err(e),
            Ok(index) => {
                if index != ReturnView::Value(TypeView::Int) && index != ReturnView::Void {
                    Err(BAD_INDEX)
                } else {
                    match target_type(target, t.child(1)) {
                        Err(e) => Err(e),
                        Ok(l) => match kid_type(env, t, 2) {
                            Err(e) => Err(e),
                            Ok(r) => if l == r {
                                Ok(())
                            } else {
                                Err(ASSIGNMENT_MISMATCH)
                            },
                        },
                    }
                }
            },
        }
    }
}

/// What the target of an assignment is worth once its indices are applied.
pub open spec fn target_type(target: ReturnView, index: AstView) -> Result<ReturnView, usize> {
    match target {
        ReturnView::Value(ty) => match indexed(ty, index) {
            Err(e) => Err(e),
            Ok(inner) => Ok(ReturnView::Value(inner)),
        },
        other => if index.tag() == NodeTag::Index {
            Err(NOT_INDEXABLE)
        } else {
            Ok(other)
        },
    }
}

/// The rule of a declaration `name: type = value`: every array in the type
/// has a positive length, and the type is the type of the value.
pub open spec fn check_declaration(env: Env, t: AstView) -> Result<(), usize> {
    let declared = type_in(t.child(1));
    if !positive_lengths(declared) {
        Err(MALFORMED_ARRAY_TYPE)
    } else {
        match kid_type(env, t, 2) {
            Err(e) => Err(e),
            Ok(r) => if r == ReturnView::Value(declared) {
                Ok(())
            } else {
                Err(DECLARATION_MISMATCH)
            },
        }
    }
}

/// Whether a node of this tag is an expression that type checking holds
/// to the rules of `type_of`: an operator, a call, a name or an array
/// literal.
pub open spec fn is_expression(tag: NodeTag) -> bool {
    is_arithmetic(tag) || is_comparison(tag) || is_connective(tag) || tag == NodeTag::FnCall || tag
        == NodeTag::Identifier || tag == NodeTag::InputList
}

/// The rule of an expression that stands as a statement, as the condition
/// of a loop or of a branch, or as a returned value: it has a type. So a
/// call fits a function or is a built-in print function, and the operands
/// of every operator in it are of the types that the operator takes.
pub open spec fn check_expression(env: Env, t: AstView) -> Result<(), usize> {
    match type_of(env, t) {
        Err(e) => Err(e),
        Ok(_) => Ok(()),
    }
}

/// Whether type checking descends through a node of this tag into its
/// subtrees, rather than applying a rule to the node.
pub open spec fn descends(tag: NodeTag) -> bool {
    tag != NodeTag::DeclareVar && tag != NodeTag::DeclareConst && tag != NodeTag::Assign
        && !is_expression(tag)
}

/// Type checking of a function body: the first rule that a declaration, an
/// assignment or an expression breaks, walking the tree in source order.
pub open spec fn type_check(env: Env, t: AstView) -> Result<(), usize>
    decreases t, t.children.len() + 1,
{
    let tag = t.tag();
    if tag == NodeTag::DeclareVar || tag == NodeTag::DeclareConst {
        check_declaration(env, t)
    } else if tag == NodeTag::Assign {
        check_assignment(env, t)
    } else if is_expression(tag) {
        check_expression(env, t)
    } else {
        type_check_from(env, t, 0)
    }
}

/// Type checking of the subtrees of `t` from the `i`-th on.
pub open spec fn type_check_from(env: Env, t: AstView, i: int) -> Result<(), usize>
    decreases t, t.children.len() - i,
{
    if i < 0 || i >= t.children.len() {
        Ok(())
    } else {
        match type_check(env, t.children[i]) {
            Err(e) => Err(e),
            Ok(_) => type_check_from(env, t, i + 1),
        }
    }
}

/// The tree that type checking reaches from `t` along `path`, a list of
/// child positions: every node on the way but the last is one that the
/// check descends through. `None` when the path leaves the tree or passes
/// a node with a rule of its own.
pub open spec fn reached(t: AstView, path: Seq<int>) -> Option<AstView>
    decreases path.len(),
{
    if path.len() == 0 {
        Some(t)
    } else if descends(t.tag()) && 0 <= path[0] < t.children.len() {
        reached(t.children[path[0]], path.drop_first())
    } else {
        None
    }
}

proof fn lemma_type_check_from(env: Env, t: AstView, i: int, k: int)
    requires
        0 <= i <= k < t.children.len(),
        type_check_from(env, t, i) is Ok,
    ensures
        type_check(env, t.children[k]) is Ok,
    decreases k - i,
{
    if i < k {
        lemma_type_check_from(env, t, i + 1, k);
    }
}

/// Type soundness of assignments. When a function body passes type
/// checking, then in every assignment that the check reaches the type of
/// the target, with its indices applied, is the type of the value.
pub proof fn lemma_assignments_well_typed(env: Env, t: AstView, path: Seq<int>)
    requires
        type_check(env, t) is Ok,
        reached(t, path) matches Some(s) && s.tag() == NodeTag::Assign,
    ensures
        ({
            let s = reached(t, path)->0;
            &&& kid_type(env, s, 0) is Ok
            &&& kid_type(env, s, 2) is Ok
            &&& target_type(kid_type(env, s, 0)->Ok_0, s.child(1)) == Ok::<ReturnView, usize>(
                kid_type(env, s, 2)->Ok_0,
            )
        }),
    decreases path.len(),
{
    if path.len() > 0 {
        lemma_type_check_from(env, t, 0, path[0]);
        lemma_assignments_well_typed(env, t.children[path[0]], path.drop_first());
    }
}

/// When a function body passes type checking, every expression that the
/// check reaches has a type: each call in it fits a function or is a
/// built-in print function, and each operator has operands of the types
/// that it takes.
pub proof fn lemma_expressions_well_typed(env: Env, t: AstView, path: Seq<int>)
    requires
        type_check(env, t) is Ok,
        reached(t, path) matches Some(s) && is_expression(s.tag()),
    ensures
        type_of(env, reached(t, path)->0) is Ok,
    decreases path.len(),
{
    if path.len() > 0 {
        lemma_type_check_from(env, t, 0, path[0]);
        lemma_expressions_well_typed(env, t.children[path[0]], path.drop_first());
    }
}

/// A call statement that fits no function, and is no call of a built-in
/// print function, is rejected.
pub proof fn lemma_unmatched_call_rejected(env: Env, t: AstView, name: Seq<char>, inputs: Seq<ReturnView>)
    requires
        t.tag() == NodeTag::FnCall,
        t.children.len() == 2,
        t.children[0].node == NodeView::Identifier(name),
        input_types(env, t.children[1]) == Ok::<Seq<ReturnView>, usize>(inputs),
        find_signature(env.functions, name, inputs, 0) is None,
        !is_builtin(name),
    ensures
        type_check(env, t) == Err::<(), usize>(UNKNOWN_SIGNATURE),
{
}

/// An assignment whose target and value differ in type is rejected.
pub proof fn lemma_assignment_mismatch_rejected(env: Env, t: AstView)
    requires
        t.tag() == NodeTag::Assign,
        kid_type(env, t, 0) is Ok,
        kid_type(env, t, 2) is Ok,
        target_type(kid_type(env, t, 0)->Ok_0, t.child(1)) != Ok::<ReturnView, usize>(
            kid_type(env, t, 2)->Ok_0,
        ),
    ensures
        type_check(env, t) is Err,
{
}

/// The environment that a list of signatures and a list of variables make.
pub open spec fn env_of(functions: &Vec<Signature>, locals: &Vec<Variable>) -> Env {
    Env { functions: seq_view(functions@), locals: seq_view(locals@) }
}

/// Whether an outcome is what is wanted: the error wanted, or a value
/// whose view is the value wanted.
pub open spec fn agrees<T: View>(r: Result<T, usize>, want: Result<T::V, usize>) -> bool {
    match want {
        Ok(v) => r matches Ok(x) && x@ == v,
        Err(e) => r matches Err(c) && c == e,
    }
}

/// Whether an outcome without a value is what is wanted.
pub open spec fn agrees_unit(r: Result<(), usize>, want: Result<(), usize>) -> bool {
    match want {
        Ok(_) => r is Ok,
        Err(e) => r matches Err(c) && c == e,
    }
}

/// Whether a list of outcomes is the list wanted.
pub open spec fn agrees_all<T: View>(r: Result<Vec<T>, usize>, want: Result<Seq<T::V>, usize>) -> bool {
    match want {
        Ok(v) => r matches Ok(x) && seq_view(x@) == v,
        Err(e) => r matches Err(c) && c == e,
    }
}

/// Whether the tag is an arithmetic operator.
pub fn arithmetic(tag: NodeTag) -> (r: bool)
    ensures
        r == is_arithmetic(tag),
{
    tag == NodeTag::AddOp || tag == NodeTag::SubOp || tag == NodeTag::MulOp || tag == NodeTag::DivOp
}

/// Whether the tag is a comparison.
pub fn comparison(tag: NodeTag) -> (r: bool)
    ensures
        r == is_comparison(tag),
{
    tag == NodeTag::CompEq || tag == NodeTag::CompNeq || tag == NodeTag::CompLess || tag
        == NodeTag::CompGreater || tag == NodeTag::CompLeq || tag == NodeTag::CompGeq
}

/// Whether the tag is `&&` or `||`.
pub fn connective(tag: NodeTag) -> (r: bool)
    ensures
        r == is_connective(tag),
{
    tag == NodeTag::AndOp || tag == NodeTag::OrOp
}

/// Whether every array in the type has a positive length.
pub fn has_positive_lengths(t: &Type) -> (r: bool)
    ensures
        r == positive_lengths(t@),
    decreases t,
{
    match t {
        Type::Array(e, n) => *n > 0 && has_positive_lengths(&**e),
        _ => true,
    }
}

fn numeric_value(k: &ReturnKind) -> (r: bool)
    ensures
        r == is_numeric_value(k@),
{
    match k {
        ReturnKind::Value(t) => t.is_numeric(),
        _ => false,
    }
}

fn is_int(k: &ReturnKind) -> (r: bool)
    ensures
        r == (k@ == ReturnView::Value(TypeView::Int)),
{
    match k {
        ReturnKind::Value(Type::Int) => true,
        _ => false,
    }
}

fn is_bool(k: &ReturnKind) -> (r: bool)
    ensures
        r == (k@ == ReturnView::Value(TypeView::Bool)),
{
    match k {
        ReturnKind::Value(Type::Bool) => true,
        _ => false,
    }
}

/// The type that is left of `ty` after the indices of `index` are applied.
pub fn get_indexed(ty: &Type, index: &AbstractSyntaxTree) -> (r: Result<Type, usize>)
    ensures
        agrees(r, indexed(ty@, index@)),
    decreases index,
{
    proof {
        lemma_view_children(index);
    }
    if index.tag() == NodeTag::Index {
        let inner = if index.children.len() > 1 {
            get_indexed(ty, &index.children[1])?
        } else {
            ty.clone()
        };
        if index.children.len() > 0 {
            match index.children[0].node {
                SyntaxTreeNode::Integer(i) => {
                    if i < 0 {
                        return Err(BAD_INDEX);
                    }
                },
                _ => {},
            }
        }
        match inner {
            Type::Array(e, _) => Ok(*e),
            _ => Err(NOT_INDEXABLE),
        }
    } else {
        Ok(ty.clone())
    }
}

fn fits_signature(sig: &Signature, name: &String, inputs: &Vec<ReturnKind>) -> (r: bool)
    ensures
        r == fits(sig@, name@, seq_view(inputs@)),
{
    let ghost want = Seq::new(sig@.params.len(), |i: int| ReturnView::Value(sig@.params[i]));
    if !(sig.name == *name) {
        return false;
    }
    if inputs.len() != sig.params.len() {
        assert(seq_view(inputs@).len() != want.len());
        return false;
    }
    let mut i: usize = 0;
    while i < inputs.len()
        invariant
            i <= inputs.len(),
            inputs.len() == sig.params.len(),
            want == Seq::new(sig@.params.len(), |i: int| ReturnView::Value(sig@.params[i])),
            forall|k: int| 0 <= k < i ==> seq_view(inputs@)[k] == #[trigger] want[k],
        decreases inputs.len() - i,
    {
        if !inputs[i].is_value_of(&sig.params[i]) {
            assert(seq_view(inputs@)[i as int] != want[i as int]);
            return false;
        }
        i += 1;
    }
    assert(seq_view(inputs@) =~= want);
    true
}

fn get_call_type(functions: &Vec<Signature>, name: &String, inputs: &Vec<ReturnKind>) -> (r: Result<
    ReturnKind,
    usize,
>)
    ensures
        agrees(r, call_type(seq_view(functions@), name@, seq_view(inputs@))),
{
    let mut i: usize = 0;
    while i < functions.len()
        invariant
            i <= functions.len(),
            find_signature(seq_view(functions@), name@, seq_view(inputs@), 0) == find_signature(
                seq_view(functions@),
                name@,
                seq_view(inputs@),
                i as int,
            ),
        decreases functions.len() - i,
    {
        if fits_signature(&functions[i], name, inputs) {
            return Ok(functions[i].return_type.clone());
        }
        i += 1;
    }
    if print_of_value(name) && inputs.len() == 1 {
        Ok(ReturnKind::Value(Type::Int))
    } else if builtin(name) && !print_of_value(name) && inputs.len() == 0 {
        Ok(ReturnKind::Void)
    } else {
        Err(UNKNOWN_SIGNATURE)
    }
}

fn get_array_type(inputs: &Vec<ReturnKind>) -> (r: Result<ReturnKind, usize>)
    ensures
        agrees(r, array_of(seq_view(inputs@))),
{
    if inputs.len() == 0 || inputs.len() > 0x7fff_ffff {
        return Err(MALFORMED_ARRAY);
    }
    let mut i: usize = 0;
    while i < inputs.len()
        invariant
            i <= inputs.len(),
            inputs.len() > 0,
            first_unlike(seq_view(inputs@), 0) == first_unlike(seq_view(inputs@), i as int),
        decreases inputs.len() - i,
    {
        if !inputs[i].same(&inputs[0]) {
            return Err(MALFORMED_ARRAY);
        }
        i += 1;
    }
    match &inputs[0] {
        ReturnKind::Value(t) => Ok(
            ReturnKind::Value(Type::Array(Box::new(t.clone()), inputs.len() as i32)),
        ),
        _ => Err(MALFORMED_ARRAY),
    }
}

/// What an expression is worth.
pub fn get_type(functions: &Vec<Signature>, locals: &Vec<Variable>, ast: &AbstractSyntaxTree) -> (r:
    Result<ReturnKind, usize>)
    ensures
        agrees(r, type_of(env_of(functions, locals), ast@)),
    decreases ast, 1nat,
{
    proof {
        lemma_view_children(ast);
    }
    let tag = ast.tag();
    if arithmetic(tag) || comparison(tag) || connective(tag) {
        let l = get_kid_type(functions, locals, ast, 0)?;
        let r = get_kid_type(functions, locals, ast, 1)?;
        if connective(tag) {
            if l.same(&r) && is_bool(&l) {
                Ok(l)
            } else {
                Err(OPERAND_MISMATCH)
            }
        } else if l.same(&r) && numeric_value(&l) {
            if arithmetic(tag) {
                Ok(l)
            } else {
                Ok(ReturnKind::Value(Type::Bool))
            }
        } else {
            Err(OPERAND_MISMATCH)
        }
    } else if tag == NodeTag::Index {
        let l = get_kid_type(functions, locals, ast, 0)?;
        let more = ast.children.len() > 1 && ast.children[1].tag() != NodeTag::Null;
        if more {
            let r = get_kid_type(functions, locals, ast, 1)?;
            if l.same(&r) && is_int(&l) {
                Ok(l)
            } else {
                Err(NOT_INDEXABLE)
            }
        } else if is_int(&l) {
            Ok(l)
        } else {
            Err(NOT_INDEXABLE)
        }
    } else if tag == NodeTag::InputList {
        let inputs = get_inputs(functions, locals, ast)?;
        get_array_type(&inputs)
    } else if tag == NodeTag::FnCall {
        let inputs = if ast.children.len() > 1 {
            get_inputs(functions, locals, &ast.children[1])?
        } else {
            Vec::new()
        };
        assert(ast.children.len() <= 1 ==> seq_view(inputs@) =~= Seq::<ReturnView>::empty());
        if ast.children.len() > 0 {
            match &ast.children[0].node {
                SyntaxTreeNode::Identifier(name) => get_call_type(functions, name, &inputs),
                _ => Ok(ReturnKind::Void),
            }
        } else {
            Ok(ReturnKind::Void)
        }
    } else {
        match &ast.node {
            SyntaxTreeNode::Identifier(name) => {
                if ast.children.len() > 0 {
                    let _ = get_kid_type(functions, locals, ast, 0)?;
                }
                match lookup(locals, name) {
                    None => Err(UNKNOWN_VARIABLE),
                    Some(i) => {
                        let ty = if ast.children.len() > 0 {
                            get_indexed(&locals[i].ty, &ast.children[0])?
                        } else {
                            locals[i].ty.clone()
                        };
                        Ok(ReturnKind::Value(ty))
                    },
                }
            },
            SyntaxTreeNode::Integer(_) => Ok(ReturnKind::Value(Type::Int)),
            SyntaxTreeNode::Float(_) => Ok(ReturnKind::Value(Type::Float)),
            SyntaxTreeNode::Character(_) => Ok(ReturnKind::Value(Type::Char)),
            SyntaxTreeNode::True => Ok(ReturnKind::Value(Type::Bool)),
            SyntaxTreeNode::False => Ok(ReturnKind::Value(Type::Bool)),
            _ => Ok(ReturnKind::Void),
        }
    }
}

/// What the `k`-th subtree of `ast` is worth; nothing when there is none.
pub fn get_kid_type(
    functions: &Vec<Signature>,
    locals: &Vec<Variable>,
    ast: &AbstractSyntaxTree,
    k: usize,
) -> (r: Result<ReturnKind, usize>)
    ensures
        agrees(r, kid_type(env_of(functions, locals), ast@, k as int)),
    decreases ast, 0nat,
{
    proof {
        lemma_view_children(ast);
    }
    if k < ast.children.len() {
        get_type(functions, locals, &ast.children[k])
    } else {
        Ok(ReturnKind::Void)
    }
}

/// What the expressions of an input list are worth, in source order.
pub fn get_inputs(functions: &Vec<Signature>, locals: &Vec<Variable>, ast: &AbstractSyntaxTree) -> (r:
    Result<Vec<ReturnKind>, usize>)
    ensures
        agrees_all(r, input_types(env_of(functions, locals), ast@)),
    decreases ast, 0nat,
{
    proof {
        lemma_view_children(ast);
    }
    if ast.tag() == NodeTag::Null || ast.children.len() == 0 {
        let out: Vec<ReturnKind> = Vec::new();
        assert(seq_view(out@) =~= Seq::<ReturnView>::empty());
        Ok(out)
    } else {
        let first = get_type(functions, locals, &ast.children[0])?;
        let mut rest = if ast.children.len() > 1 {
            get_inputs(functions, locals, &ast.children[1])?
        } else {
            Vec::new()
        };
        let ghost before = seq_view(rest@);
        assert(ast.children.len() <= 1 ==> before =~= Seq::<ReturnView>::empty());
        rest.insert(0, first);
        assert(seq_view(rest@) =~= seq![first@] + before);
        Ok(rest)
    }
}

fn check_declared(functions: &Vec<Signature>, locals: &Vec<Variable>, ast: &AbstractSyntaxTree) -> (r:
    Result<(), usize>)
    ensures
        agrees_unit(r, check_declaration(env_of(functions, locals), ast@)),
{
    proof {
        lemma_view_children(ast);
    }
    let unnamed = Type::Named(String::new());
    let declared: &Type = if ast.children.len() > 1 {
        match &ast.children[1].node {
            SyntaxTreeNode::TypeName(ty) => ty,
            _ => &unnamed,
        }
    } else {
        &unnamed
    };
    let named: Option<&String> = if ast.children.len() > 1 {
        match &ast.children[1].node {
            SyntaxTreeNode::Identifier(name) => Some(name),
            _ => None,
        }
    } else {
        None
    };
    match named {
        Some(name) => {
            let r = get_kid_type(functions, locals, ast, 2)?;
            match r {
                ReturnKind::Value(Type::Named(other)) => if other == *name {
                    Ok(())
                } else {
                    Err(DECLARATION_MISMATCH)
                },
                _ => Err(DECLARATION_MISMATCH),
            }
        },
        None => {
            if !has_positive_lengths(declared) {
                return Err(MALFORMED_ARRAY_TYPE);
            }
            let r = get_kid_type(functions, locals, ast, 2)?;
            if r.is_value_of(declared) {
                Ok(())
            } else {
                Err(DECLARATION_MISMATCH)
            }
        },
    }
}

fn check_assigned(functions: &Vec<Signature>, locals: &Vec<Variable>, ast: &AbstractSyntaxTree) -> (r:
    Result<(), usize>)
    ensures
        agrees_unit(r, check_assignment(env_of(functions, locals), ast@)),
{
    proof {
        lemma_view_children(ast);
    }
    let target = get_kid_type(functions, locals, ast, 0)?;
    let index = get_kid_type(functions, locals, ast, 1)?;
    if !is_int(&index) && !index.same(&ReturnKind::Void) {
        return Err(BAD_INDEX);
    }
    let indexing = ast.children.len() > 1 && ast.children[1].tag() == NodeTag::Index;
    let l = match target {
        ReturnKind::Value(ty) => {
            if ast.children.len() > 1 {
                ReturnKind::Value(get_indexed(&ty, &ast.children[1])?)
            } else {
                ReturnKind::Value(ty)
            }
        },
        other => {
            if indexing {
                return Err(NOT_INDEXABLE);
            }
            other
        },
    };
    let r = get_kid_type(functions, locals, ast, 2)?;
    if l.same(&r) {
        Ok(())
    } else {
        Err(ASSIGNMENT_MISMATCH)
    }
}

fn check_expressed(functions: &Vec<Signature>, locals: &Vec<Variable>, ast: &AbstractSyntaxTree) -> (r:
    Result<(), usize>)
    ensures
        agrees_unit(r, check_expression(env_of(functions, locals), ast@)),
{
    match get_type(functions, locals, ast) {
        Err(e) => Err(e),
        Ok(_) => Ok(()),
    }
}

/// Whether a node of this tag is an expression that type checking holds
/// to the rules of `get_type`.
pub fn expression(tag: NodeTag) -> (r: bool)
    ensures
        r == is_expression(tag),
{
    arithmetic(tag) || comparison(tag) || connective(tag) || tag == NodeTag::FnCall || tag
        == NodeTag::Identifier || tag == NodeTag::InputList
}

/// Type checking of a function body.
pub fn check_types(functions: &Vec<Signature>, locals: &Vec<Variable>, ast: &AbstractSyntaxTree) -> (r:
    Result<(), usize>)
    ensures
        agrees_unit(r, type_check(env_of(functions, locals), ast@)),
    decreases ast,
{
    proof {
        lemma_view_children(ast);
    }
    let tag = ast.tag();
    if tag == NodeTag::DeclareVar || tag == NodeTag::DeclareConst {
        check_declared(functions, locals, ast)
    } else if tag == NodeTag::Assign {
        check_assigned(functions, locals, ast)
    } else if expression(tag) {
        check_expressed(functions, locals, ast)
    } else {
        let mut i: usize = 0;
        while i < ast.children.len()
            invariant
                i <= ast.children.len(),
                ast@.children.len() == ast.children@.len(),
                forall|k: int|
                    0 <= k < ast.children@.len() ==> (#[trigger] ast@.children[k])
                        == ast.children@[k]@,
                type_check(env_of(functions, locals), ast@) == type_check_from(
                    env_of(functions, locals),
                    ast@,
                    i as int,
                ),
            decreases ast.children.len() - i,
        {
            match check_types(functions, locals, &ast.children[i]) {
                Err(e) => {
                    return Err(e);
                },
                Ok(_) => {},
            }
            i += 1;
        }
        Ok(())
    }
}

} // verus!
