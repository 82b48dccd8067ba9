//! Return-path checking: what the `return` statements of a function body
//! must be for what the function is declared to return.

use vstd::prelude::*;
use crate::ast::{AbstractSyntaxTree, AstView, NodeTag, lemma_view_children};
use crate::symbols::{ReturnKind, ReturnView, Signature, Variable};
use crate::types::{Type, TypeView};
use crate::typing::{Env, agrees_unit, env_of, get_kid_type, kid_type};

verus! {

/// A function that returns nothing holds a `return` statement.
pub const RETURN_IN_VOID: usize = 14;

/// The `return` statement at hand returns a value of another type than the
/// function declares.
pub const RETURN_MISMATCH: usize = 15;

/// A function that never returns holds a `return` statement.
pub const RETURN_IN_NO_RETURN: usize = 18;

/// A function that never returns does not begin with a loop.
pub const NO_LEADING_LOOP: usize = 19;

/// A function that returns a value holds no `return` statement of a value
/// of the declared type.
pub const MISSING_RETURN: usize = 20;

/// Whether the tree holds a `return` statement.
pub open spec fn contains_return(t: AstView) -> bool
    decreases t, t.children.len() + 1,
{
    t.tag() == NodeTag::ReturnValue || contains_return_from(t, 0)
}

/// Whether a subtree of `t` from the `i`-th on holds a `return` statement.
pub open spec fn contains_return_from(t: AstView, i: int) -> bool
    decreases t, t.children.len() - i,
{
    if i < 0 || i >= t.children.len() {
        false
    } else {
        contains_return(t.children[i]) || contains_return_from(t, i + 1)
    }
}

/// Whether the body begins with a loop: it is a loop, or a statement
/// sequence whose first statement is one.
pub open spec fn begins_with_loop(t: AstView) -> bool {
    t.tag() == NodeTag::WhileLoop || (t.tag() == NodeTag::StmtSeq && t.child(0).tag()
        == NodeTag::WhileLoop)
}

/// Whether the tree holds a `return` statement whose expression is worth a
/// value of the type `want`. What stands inside a `return` statement is not
/// searched.
pub open spec fn returns_value_of(env: Env, t: AstView, want: TypeView) -> bool
    decreases t, t.children.len() + 1,
{
    if t.tag() == NodeTag::ReturnValue {
        kid_type(env, t, 0) == Ok::<ReturnView, usize>(ReturnView::Value(want))
    } else {
        returns_value_of_from(env, t, 0, want)
    }
}

/// Whether a subtree of `t` from the `i`-th on holds such a `return`
/// statement.
pub open spec fn returns_value_of_from(env: Env, t: AstView, i: int, want: TypeView) -> bool
    decreases t, t.children.len() - i,
{
    if i < 0 || i >= t.children.len() {
        false
    } else {
        returns_value_of(env, t.children[i], want) || returns_value_of_from(env, t, i + 1, want)
    }
}

/// Whether the `return` statements of the body are what the function's
/// declaration asks for: for a function that returns nothing, there is
/// none; for a function that never returns, there is none and the body
/// begins with a loop; for a function that returns a value, at least one
/// returns a value of the declared type.
pub open spec fn return_sound(env: Env, body: AstView, ret: ReturnView) -> bool {
    match ret {
        ReturnView::Void => !contains_return(body),
        ReturnView::NoReturn => !contains_return(body) && begins_with_loop(body),
        ReturnView::Value(want) => returns_value_of(env, body, want),
    }
}

/// The outcome of return-path checking: success exactly when the `return`
/// statements are sound, and otherwise the error that says what is wrong.
pub open spec fn return_check(env: Env, body: AstView, ret: ReturnView) -> Result<(), usize> {
    if return_sound(env, body, ret) {
        Ok(())
    } else {
        match ret {
            ReturnView::Void => Err(RETURN_IN_VOID),
            ReturnView::NoReturn => if contains_return(body) {
                Err(RETURN_IN_NO_RETURN)
            } else {
                Err(NO_LEADING_LOOP)
            },
            ReturnView::Value(_) => if body.tag() == NodeTag::ReturnValue {
                match kid_type(env, body, 0) {
                    Err(e) => Err(e),
                    Ok(_) => Err(RETURN_MISMATCH),
                }
            } else {
                Err(MISSING_RETURN)
            },
        }
    }
}

/// Whether the tree holds a `return` statement.
pub fn has_return(ast: &AbstractSyntaxTree) -> (r: bool)
    ensures
        r == contains_return(ast@),
    decreases ast,
{
    proof {
        lemma_view_children(ast);
    }
    if ast.tag() == NodeTag::ReturnValue {
        return true;
    }
    let mut i: usize = 0;
    while i < ast.children.len()
        invariant
            i <= ast.children.len(),
            ast@.children.len() == ast.children@.len(),
            forall|k: int|
                0 <= k < ast.children@.len() ==> (#[trigger] ast@.children[k]) == ast.children@[k]@,
            contains_return_from(ast@, 0) == contains_return_from(ast@, i as int),
        decreases ast.children.len() - i,
    {
        if has_return(&ast.children[i]) {
            return true;
        }
        i += 1;
    }
    false
}

/// Whether the body begins with a loop.
pub fn has_leading_loop(ast: &AbstractSyntaxTree) -> (r: bool)
    ensures
        r == begins_with_loop(ast@),
{
    proof {
        lemma_view_children(ast);
    }
    ast.tag() == NodeTag::WhileLoop || (ast.tag() == NodeTag::StmtSeq && ast.children.len() > 0
        && ast.children[0].tag() == NodeTag::WhileLoop)
}

/// Whether the tree holds a `return` statement whose expression is worth a
/// value of the type `want`.
pub fn has_return_of(
    functions: &Vec<Signature>,
    locals: &Vec<Variable>,
    ast: &AbstractSyntaxTree,
    want: &Type,
) -> (r: bool)
    ensures
        r == returns_value_of(env_of(functions, locals), ast@, want@),
    decreases ast,
{
    proof {
        lemma_view_children(ast);
    }
    if ast.tag() == NodeTag::ReturnValue {
        return match get_kid_type(functions, locals, ast, 0) {
            Ok(k) => k.is_value_of(want),
            Err(_) => false,
        };
    }
    let mut i: usize = 0;
    while i < ast.children.len()
        invariant
            i <= ast.children.len(),
            ast@.children.len() == ast.children@.len(),
            forall|k: int|
                0 <= k < ast.children@.len() ==> (#[trigger] ast@.children[k]) == ast.children@[k]@,
            ast@.tag() != NodeTag::ReturnValue,
            returns_value_of_from(env_of(functions, locals), ast@, 0, want@)
                == returns_value_of_from(env_of(functions, locals), ast@, i as int, want@),
        decreases ast.children.len() - i,
    {
        if has_return_of(functions, locals, &ast.children[i], want) {
            return true;
        }
        i += 1;
    }
    false
}

/// A function that returns nothing must hold no `return` statement.
pub fn check_return_func_1(ast: &AbstractSyntaxTree) -> (r: Result<(), usize>)
    ensures
        contains_return(ast@) <==> r == Err::<(), usize>(RETURN_IN_VOID),
        !contains_return(ast@) <==> r is Ok,
{
    if has_return(ast) {
        Err(RETURN_IN_VOID)
    } else {
        Ok(())
    }
}

/// A function that returns a value must hold a `return` statement of a
/// value of that type.
pub fn check_return_func_2(
    functions: &Vec<Signature>,
    locals: &Vec<Variable>,
    ast: &AbstractSyntaxTree,
    want: &Type,
) -> (r: Result<(), usize>)
    ensures
        agrees_unit(
            r,
            return_check(env_of(functions, locals), ast@, ReturnView::Value(want@)),
        ),
{
    if has_return_of(functions, locals, ast, want) {
        Ok(())
    } else if ast.tag() == NodeTag::ReturnValue {
        match get_kid_type(functions, locals, ast, 0) {
            Err(e) => Err(e),
            Ok(_) => Err(RETURN_MISMATCH),
        }
    } else {
        Err(MISSING_RETURN)
    }
}

/// A function that never returns must hold no `return` statement and begin
/// with a loop.
pub fn check_return_func_3(ast: &AbstractSyntaxTree) -> (r: Result<(), usize>)
    ensures
        r is Ok <==> !contains_return(ast@) && begins_with_loop(ast@),
        contains_return(ast@) <==> r == Err::<(), usize>(RETURN_IN_NO_RETURN),
        !contains_return(ast@) && !begins_with_loop(ast@) <==> r == Err::<(), usize>(
            NO_LEADING_LOOP,
        ),
{
    if has_return(ast) {
        Err(RETURN_IN_NO_RETURN)
    } else if has_leading_loop(ast) {
        Ok(())
    } else {
        Err(NO_LEADING_LOOP)
    }
}

/// Return-path checking of a function body against what the function is
/// declared to return.
pub fn check_return(
    functions: &Vec<Signature>,
    locals: &Vec<Variable>,
    ast: &AbstractSyntaxTree,
    ret: &ReturnKind,
) -> (r: Result<(), usize>)
    ensures
        agrees_unit(r, return_check(env_of(functions, locals), ast@, ret@)),
        r is Ok <==> return_sound(env_of(functions, locals), ast@, ret@),
{
    match ret {
        ReturnKind::Void => check_return_func_1(ast),
        ReturnKind::NoReturn => check_return_func_3(ast),
        ReturnKind::Value(want) => check_return_func_2(functions, locals, ast, want),
    }
}

} // verus!
