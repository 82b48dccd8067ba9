//! Scope resolution: every name that a function body uses is declared, and
//! no declaration shadows a name that is still in scope.

use vstd::prelude::*;
use crate::ast::{AbstractSyntaxTree, AstView, NodeTag, NodeView, SyntaxTreeNode, lemma_view_children};
use crate::lower::type_in;
use crate::symbols::{Variable, VariableView, builtin, is_builtin, lemma_seq_view_push, seq_view};
use crate::types::Type;
use crate::typing::{is_arithmetic, is_comparison, is_connective};

verus! {

/// A constant is declared under a name that is in scope.
pub const CONSTANT_SHADOWS: usize = 4;

/// A variable is declared under a name that is in scope.
pub const VARIABLE_SHADOWS: usize = 5;

/// A name is used that is not in scope.
pub const NAME_NOT_IN_SCOPE: usize = 6;

/// A function is called that no node declares and that is not built in.
pub const UNKNOWN_FUNCTION: usize = 7;

/// The target of an assignment is no variable in scope.
pub const NOT_A_VARIABLE: usize = 16;

/// An entry of the scope stack: the marker of an open block, or a name
/// that is in scope.
#[derive(Debug, PartialEq)]
pub enum ScopeElem {
    IfScope,
    WhileScope,
    ElseScope,
    Variable(String),
    Const(String),
    Func(String),
}

/// The view of a [`ScopeElem`].
pub enum ScopeView {
    IfScope,
    WhileScope,
    ElseScope,
    Variable(Seq<char>),
    Const(Seq<char>),
    Func(Seq<char>),
}

impl View for ScopeElem {
    type V = ScopeView;

    open spec fn view(&self) -> ScopeView {
        match self {
            ScopeElem::IfScope => ScopeView::IfScope,
            ScopeElem::WhileScope => ScopeView::WhileScope,
            ScopeElem::ElseScope => ScopeView::ElseScope,
            ScopeElem::Variable(n) => ScopeView::Variable(n@),
            ScopeElem::Const(n) => ScopeView::Const(n@),
            ScopeElem::Func(n) => ScopeView::Func(n@),
        }
    }
}

/// The state of scope resolution: the scope stack, and the variables of
/// the function found so far.
pub struct Scope {
    pub stack: Seq<ScopeView>,
    pub locals: Seq<VariableView>,
}

/// Whether the name is in scope as a variable or a constant.
pub open spec fn declared(stack: Seq<ScopeView>, name: Seq<char>) -> bool {
    stack.contains(ScopeView::Variable(name)) || stack.contains(ScopeView::Const(name))
}

/// The variables with `v` among them: `v` is added at the end unless the
/// list holds it already.
pub open spec fn add_local(locals: Seq<VariableView>, v: VariableView) -> Seq<VariableView> {
    if locals.contains(v) {
        locals
    } else {
        locals.push(v)
    }
}

/// The name that an identifier node holds; the empty name for another node.
pub open spec fn name_of(t: AstView) -> Seq<char> {
    match t.node {
        NodeView::Identifier(name) => name,
        _ => Seq::empty(),
    }
}

/// The scope with one more entry on its stack.
pub open spec fn entered(sc: Scope, marker: ScopeView) -> Scope {
    Scope { stack: sc.stack.push(marker), locals: sc.locals }
}

/// The scope after a block is left: the stack as it was before the block,
/// and the variables found up to the end of the block.
pub open spec fn left(before: Scope, inner: Scope) -> Scope {
    Scope { stack: before.stack, locals: inner.locals }
}

/// Whether the node is an operator over two operands, or an index list.
pub open spec fn is_binary(tag: NodeTag) -> bool {
    is_arithmetic(tag) || is_comparison(tag) || is_connective(tag) || tag == NodeTag::Index
}

/// Scope resolution of a tree, from the scope `sc`.
///
/// - A declaration has its initializer resolved, must not use a name that
///   is in scope as a variable or a constant, and puts its name in scope.
/// - An assignment has its indices and its value resolved, and its target
///   must be a variable in scope.
/// - A loop and the branches of an `if` are resolved in a scope of their
///   own: what they declare leaves the scope at their end.
/// - A name must be in scope as a variable or a constant.
/// - A call has its arguments resolved, and its callee must be a function
///   in scope or a built-in print function.
/// - Any other node has its subtrees resolved in order.
pub open spec fn scope_check(sc: Scope, t: AstView) -> Result<Scope, usize>
    decreases t, t.children.len() + 1,
{
    let tag = t.tag();
    if tag == NodeTag::DeclareConst || tag == NodeTag::DeclareVar {
        match scope_check_kid(sc, t, 2) {
            Err(e) => Err(e),
            Ok(sc1) => {
                let name = name_of(t.child(0));
                if declared(sc1.stack, name) {
                    Err(
                        if tag == NodeTag::DeclareConst {
                            CONSTANT_SHADOWS
                        } else {
                            VARIABLE_SHADOWS
                        },
                    )
                } else {
                    Ok(
                        Scope {
                            stack: sc1.stack.push(
                                if tag == NodeTag::DeclareConst {
                                    ScopeView::Const(name)
                                } else {
                                    ScopeView::Variable(name)
                                },
                            ),
                            locals: add_local(
                                sc1.locals,
                                VariableView { name, ty: type_in(t.child(1)) },
                            ),
                        },
                    )
                }
            },
        }
    } else if tag == NodeTag::Assign {
        match scope_check_kid(sc, t, 1) {
            Err(e) => Err(e),
            Ok(sc1) => match scope_check_kid(sc1, t, 2) {
                Err(e) => Err(e),
                Ok(sc2) => if sc2.stack.contains(ScopeView::Variable(name_of(t.child(0)))) {
                    Ok(sc2)
                } else {
                    Err(NOT_A_VARIABLE)
                },
            },
        }
    } else if tag == NodeTag::WhileLoop {
        match scope_check_kid(entered(sc, ScopeView::WhileScope), t, 1) {
            Err(e) => Err(e),
            Ok(inner) => Ok(left(sc, inner)),
        }
    } else if tag == NodeTag::IfStmt {
        match scope_check_kid(entered(sc, ScopeView::IfScope), t, 1) {
            Err(e) => Err(e),
            Ok(inner) => {
                let sc1 = left(sc, inner);
                if t.child(2).tag() != NodeTag::Null {
                    match scope_check_kid(entered(sc1, ScopeView::ElseScope), t, 2) {
                        Err(e) => Err(e),
                        Ok(other) => Ok(left(sc, other)),
                    }
                } else {
                    Ok(sc1)
                }
            },
        }
    } else if is_binary(tag) {
        match scope_check_kid(sc, t, 0) {
            Err(e) => Err(e),
            Ok(sc1) => scope_check_kid(sc1, t, 1),
        }
    } else if tag == NodeTag::Identifier {
        match scope_check_kid(sc, t, 0) {
            Err(e) => Err(e),
            Ok(sc1) => if declared(sc1.stack, name_of(t)) {
                Ok(sc1)
            } else {
                Err(NAME_NOT_IN_SCOPE)
            },
        }
    } else if tag == NodeTag::FnCall {
        match scope_check_kid(sc, t, 1) {
            Err(e) => Err(e),
            Ok(sc1) => {
                let name = name_of(t.child(0));
                if is_builtin(name) || sc1.stack.contains(ScopeView::Func(name)) {
                    Ok(sc1)
                } else {
                    Err(UNKNOWN_FUNCTION)
                }
            },
        }
    } else {
        scope_check_from(sc, t, 0)
    }
}

/// Scope resolution of the `k`-th subtree of `t`; nothing to resolve when
/// there is none.
pub open spec fn scope_check_kid(sc: Scope, t: AstView, k: int) -> Result<Scope, usize>
    decreases t, 0nat,
{
    if 0 <= k < t.children.len() {
        scope_check(sc, t.children[k])
    } else {
        Ok(sc)
    }
}

/// Scope resolution of the subtrees of `t` from the `i`-th on, in order.
pub open spec fn scope_check_from(sc: Scope, t: AstView, i: int) -> Result<Scope, usize>
    decreases t, t.children.len() - i,
{
    if i < 0 || i >= t.children.len() {
        Ok(sc)
    } else {
        match scope_check(sc, t.children[i]) {
            Err(e) => Err(e),
            Ok(sc1) => scope_check_from(sc1, t, i + 1),
        }
    }
}

/// Whether the stack `b` is the stack `a` with entries put on top of it.
pub open spec fn extends(a: Seq<ScopeView>, b: Seq<ScopeView>) -> bool {
    a.len() <= b.len() && b.subrange(0, a.len() as int) == a
}

/// What is in a stack is in every stack that extends it.
pub proof fn lemma_extends_contains(a: Seq<ScopeView>, b: Seq<ScopeView>, v: ScopeView)
    requires
        extends(a, b),
        a.contains(v),
    ensures
        b.contains(v),
{
    let i = choose|i: int| 0 <= i < a.len() && a[i] == v;
    assert(b.subrange(0, a.len() as int)[i] == b[i]);
}

/// A name that is in scope stays in scope on every stack that extends the
/// stack at hand.
pub proof fn lemma_extends_declared(a: Seq<ScopeView>, b: Seq<ScopeView>, name: Seq<char>)
    requires
        extends(a, b),
        declared(a, name),
    ensures
        declared(b, name),
{
    if a.contains(ScopeView::Variable(name)) {
        lemma_extends_contains(a, b, ScopeView::Variable(name));
    } else {
        lemma_extends_contains(a, b, ScopeView::Const(name));
    }
}

/// A stack extends itself, and a stack with one more entry extends it.
pub proof fn lemma_extends_push(a: Seq<ScopeView>, v: ScopeView)
    ensures
        extends(a, a.push(v)),
        extends(a, a),
{
    assert(a.push(v).subrange(0, a.len() as int) =~= a);
    assert(a.subrange(0, a.len() as int) =~= a);
}

/// Extending a stack twice is extending it.
pub proof fn lemma_extends_transitive(a: Seq<ScopeView>, b: Seq<ScopeView>, c: Seq<ScopeView>)
    requires
        extends(a, b),
        extends(b, c),
    ensures
        extends(a, c),
{
    assert(c.subrange(0, a.len() as int) =~= c.subrange(0, b.len() as int).subrange(
        0,
        a.len() as int,
    ));
}

/// Scope resolution only ever puts entries on top of the stack it was
/// given: what was in scope before a tree is in scope after it.
pub proof fn lemma_scope_extends(sc: Scope, t: AstView)
    ensures
        scope_check(sc, t) matches Ok(r) ==> extends(sc.stack, r.stack),
    decreases t, t.children.len() + 1,
{
    let tag = t.tag();
    lemma_extends_push(sc.stack, ScopeView::WhileScope);
    if tag == NodeTag::DeclareConst || tag == NodeTag::DeclareVar {
        lemma_scope_extends_kid(sc, t, 2);
        if let Ok(sc1) = scope_check_kid(sc, t, 2) {
            if let Ok(r) = scope_check(sc, t) {
                lemma_extends_push(sc1.stack, r.stack.last());
                assert(r.stack == sc1.stack.push(r.stack.last()));
                lemma_extends_transitive(sc.stack, sc1.stack, r.stack);
            }
        }
    } else if tag == NodeTag::Assign {
        lemma_scope_extends_kid(sc, t, 1);
        if let Ok(sc1) = scope_check_kid(sc, t, 1) {
            lemma_scope_extends_kid(sc1, t, 2);
            if let Ok(sc2) = scope_check_kid(sc1, t, 2) {
                lemma_extends_transitive(sc.stack, sc1.stack, sc2.stack);
            }
        }
    } else if tag == NodeTag::WhileLoop || tag == NodeTag::IfStmt {
    } else if is_binary(tag) {
        lemma_scope_extends_kid(sc, t, 0);
        if let Ok(sc1) = scope_check_kid(sc, t, 0) {
            lemma_scope_extends_kid(sc1, t, 1);
            if let Ok(sc2) = scope_check_kid(sc1, t, 1) {
                lemma_extends_transitive(sc.stack, sc1.stack, sc2.stack);
            }
        }
    } else if tag == NodeTag::Identifier {
        lemma_scope_extends_kid(sc, t, 0);
    } else if tag == NodeTag::FnCall {
        lemma_scope_extends_kid(sc, t, 1);
    } else {
        lemma_scope_extends_from(sc, t, 0);
    }
}

/// Scope resolution of a subtree only puts entries on top of the stack.
pub proof fn lemma_scope_extends_kid(sc: Scope, t: AstView, k: int)
    ensures
        scope_check_kid(sc, t, k) matches Ok(r) ==> extends(sc.stack, r.stack),
    decreases t, 0nat,
{
    lemma_extends_push(sc.stack, ScopeView::WhileScope);
    if 0 <= k < t.children.len() {
        lemma_scope_extends(sc, t.children[k]);
    }
}

/// Scope resolution of subtrees only puts entries on top of the stack.
pub proof fn lemma_scope_extends_from(sc: Scope, t: AstView, i: int)
    ensures
        scope_check_from(sc, t, i) matches Ok(r) ==> extends(sc.stack, r.stack),
    decreases t, t.children.len() - i,
{
    lemma_extends_push(sc.stack, ScopeView::WhileScope);
    if 0 <= i < t.children.len() {
        lemma_scope_extends(sc, t.children[i]);
        if let Ok(sc1) = scope_check(sc, t.children[i]) {
            lemma_scope_extends_from(sc1, t, i + 1);
            if let Ok(r) = scope_check_from(sc1, t, i + 1) {
                lemma_extends_transitive(sc.stack, sc1.stack, r.stack);
            }
        }
    }
}

/// Whether no declaration stands in the tree.
pub open spec fn declaration_free(t: AstView) -> bool
    decreases t, t.children.len() + 1,
{
    t.tag() != NodeTag::DeclareConst && t.tag() != NodeTag::DeclareVar && declaration_free_from(t, 0)
}

/// Whether no declaration stands in the subtrees of `t` from the `i`-th
/// on.
pub open spec fn declaration_free_from(t: AstView, i: int) -> bool
    decreases t, t.children.len() - i,
{
    i < 0 || i >= t.children.len() || (declaration_free(t.children[i]) && declaration_free_from(
        t,
        i + 1,
    ))
}

/// Whether the tree is a declaration that is refused because its name is
/// in scope already, once its initializer is resolved.
pub open spec fn redeclares(sc: Scope, t: AstView) -> bool {
    &&& t.tag() == NodeTag::DeclareConst || t.tag() == NodeTag::DeclareVar
    &&& scope_check_kid(sc, t, 2) matches Ok(sc1) && declared(sc1.stack, name_of(t.child(0)))
}

proof fn lemma_declaration_free_kid(t: AstView, i: int, k: int)
    requires
        0 <= i <= k < t.children.len(),
        declaration_free_from(t, i),
    ensures
        declaration_free(t.children[k]),
    decreases k - i,
{
    if i < k {
        lemma_declaration_free_kid(t, i + 1, k);
    }
}

/// Resolving a tree in which no declaration stands leaves the scope as it
/// was: the stack and the variables found so far.
pub proof fn lemma_declaration_free_keeps_scope(sc: Scope, t: AstView)
    requires
        declaration_free(t),
    ensures
        scope_check(sc, t) matches Ok(r) ==> r == sc,
    decreases t, t.children.len() + 1,
{
    let tag = t.tag();
    if tag == NodeTag::Assign {
        lemma_keeps_scope_kid(sc, t, 1);
        lemma_keeps_scope_kid(sc, t, 2);
    } else if tag == NodeTag::WhileLoop {
        lemma_keeps_scope_kid(entered(sc, ScopeView::WhileScope), t, 1);
    } else if tag == NodeTag::IfStmt {
        lemma_keeps_scope_kid(entered(sc, ScopeView::IfScope), t, 1);
        lemma_keeps_scope_kid(entered(sc, ScopeView::ElseScope), t, 2);
    } else if is_binary(tag) {
        lemma_keeps_scope_kid(sc, t, 0);
        lemma_keeps_scope_kid(sc, t, 1);
    } else if tag == NodeTag::Identifier {
        lemma_keeps_scope_kid(sc, t, 0);
    } else if tag == NodeTag::FnCall {
        lemma_keeps_scope_kid(sc, t, 1);
    } else {
        lemma_keeps_scope_from(sc, t, 0);
    }
}

proof fn lemma_keeps_scope_kid(sc: Scope, t: AstView, k: int)
    requires
        declaration_free_from(t, 0),
    ensures
        scope_check_kid(sc, t, k) matches Ok(r) ==> r == sc,
    decreases t, 0nat,
{
    if 0 <= k < t.children.len() {
        lemma_declaration_free_kid(t, 0, k);
        lemma_declaration_free_keeps_scope(sc, t.children[k]);
    }
}

proof fn lemma_keeps_scope_from(sc: Scope, t: AstView, i: int)
    requires
        declaration_free_from(t, 0),
    ensures
        scope_check_from(sc, t, i) matches Ok(r) ==> r == sc,
    decreases t, t.children.len() - i,
{
    if 0 <= i < t.children.len() {
        lemma_declaration_free_kid(t, 0, i);
        lemma_declaration_free_keeps_scope(sc, t.children[i]);
        lemma_keeps_scope_from(sc, t, i + 1);
    }
}

/// A declaration of a name that is in scope already is refused, with the
/// error of its kind; and where no declaration stands in its initializer,
/// as in every initializer that is an expression, the scope that the
/// initializer was resolved to is the scope before the declaration.
pub proof fn lemma_redeclaration_refused(sc: Scope, t: AstView)
    requires
        t.tag() == NodeTag::DeclareConst || t.tag() == NodeTag::DeclareVar,
        declaration_free(t.child(2)),
        scope_check_kid(sc, t, 2) is Ok,
        declared(sc.stack, name_of(t.child(0))),
    ensures
        scope_check_kid(sc, t, 2) == Ok::<Scope, usize>(sc),
        redeclares(sc, t),
        scope_check(sc, t) == Err::<Scope, usize>(
            if t.tag() == NodeTag::DeclareConst {
                CONSTANT_SHADOWS
            } else {
                VARIABLE_SHADOWS
            },
        ),
{
    if 0 <= 2 < t.children.len() {
        lemma_declaration_free_keeps_scope(sc, t.children[2]);
    }
}

/// Whether scope resolution of a node with this tag resolves its `k`-th
/// subtree `kid`.
pub open spec fn resolves(tag: NodeTag, k: int, kid: AstView) -> bool {
    if tag == NodeTag::DeclareConst || tag == NodeTag::DeclareVar {
        k == 2
    } else if tag == NodeTag::Assign {
        k == 1 || k == 2
    } else if tag == NodeTag::WhileLoop {
        k == 1
    } else if tag == NodeTag::IfStmt {
        k == 1 || (k == 2 && kid.tag() != NodeTag::Null)
    } else if is_binary(tag) {
        k == 0 || k == 1
    } else if tag == NodeTag::Identifier {
        k == 0
    } else if tag == NodeTag::FnCall {
        k == 1
    } else {
        true
    }
}

/// The tree that scope resolution reaches from `t` along `path`, a list of
/// child positions; `None` when the path leaves the tree or enters a
/// subtree that is not resolved.
pub open spec fn resolved_at(t: AstView, path: Seq<int>) -> Option<AstView>
    decreases path.len(),
{
    if path.len() == 0 {
        Some(t)
    } else if 0 <= path[0] < t.children.len() && resolves(t.tag(), path[0], t.children[path[0]]) {
        resolved_at(t.children[path[0]], path.drop_first())
    } else {
        None
    }
}

/// Whether the tree is a declaration of a variable or constant `name`.
pub open spec fn declares(t: AstView, name: Seq<char>) -> bool {
    (t.tag() == NodeTag::DeclareConst || t.tag() == NodeTag::DeclareVar) && name_of(t.child(0)) == name
}

/// No shadowing. When a name is in scope as a variable or a constant, a
/// tree that declares the name again, anywhere that scope resolution
/// reaches, is rejected.
pub proof fn lemma_shadowing_rejected(sc: Scope, t: AstView, path: Seq<int>, name: Seq<char>)
    requires
        declared(sc.stack, name),
        resolved_at(t, path) matches Some(d) && declares(d, name),
    ensures
        scope_check(sc, t) is Err,
    decreases path.len(), t.children.len() + 2,
{
    let tag = t.tag();
    if path.len() == 0 {
        lemma_scope_extends_kid(sc, t, 2);
        if let Ok(sc1) = scope_check_kid(sc, t, 2) {
            lemma_extends_declared(sc.stack, sc1.stack, name);
        }
    } else {
        let k = path[0];
        let rest = path.drop_first();
        let kid = t.children[k];
        if tag == NodeTag::DeclareConst || tag == NodeTag::DeclareVar {
            lemma_shadowing_rejected(sc, kid, rest, name);
        } else if tag == NodeTag::Assign {
            if k == 1 {
                lemma_shadowing_rejected(sc, kid, rest, name);
            } else {
                lemma_scope_extends_kid(sc, t, 1);
                if let Ok(sc1) = scope_check_kid(sc, t, 1) {
                    lemma_extends_declared(sc.stack, sc1.stack, name);
                    lemma_shadowing_rejected(sc1, kid, rest, name);
                }
            }
        } else if tag == NodeTag::WhileLoop {
            let inner = entered(sc, ScopeView::WhileScope);
            lemma_extends_push(sc.stack, ScopeView::WhileScope);
            lemma_extends_declared(sc.stack, inner.stack, name);
            lemma_shadowing_rejected(inner, kid, rest, name);
        } else if tag == NodeTag::IfStmt {
            let inner = entered(sc, ScopeView::IfScope);
            lemma_extends_push(sc.stack, ScopeView::IfScope);
            lemma_extends_declared(sc.stack, inner.stack, name);
            if k == 1 {
                lemma_shadowing_rejected(inner, kid, rest, name);
            } else {
                if let Ok(done) = scope_check_kid(inner, t, 1) {
                    let sc1 = left(sc, done);
                    let other = entered(sc1, ScopeView::ElseScope);
                    lemma_extends_push(sc1.stack, ScopeView::ElseScope);
                    lemma_extends_declared(sc1.stack, other.stack, name);
                    lemma_shadowing_rejected(other, kid, rest, name);
                }
            }
        } else if is_binary(tag) {
            if k == 0 {
                lemma_shadowing_rejected(sc, kid, rest, name);
            } else {
                lemma_scope_extends_kid(sc, t, 0);
                if let Ok(sc1) = scope_check_kid(sc, t, 0) {
                    lemma_extends_declared(sc.stack, sc1.stack, name);
                    lemma_shadowing_rejected(sc1, kid, rest, name);
                }
            }
        } else if tag == NodeTag::Identifier {
            lemma_shadowing_rejected(sc, kid, rest, name);
        } else if tag == NodeTag::FnCall {
            lemma_shadowing_rejected(sc, kid, rest, name);
        } else {
            lemma_shadowing_rejected_from(sc, t, 0, path, name);
        }
    }
}

proof fn lemma_shadowing_rejected_from(
    sc: Scope,
    t: AstView,
    i: int,
    path: Seq<int>,
    name: Seq<char>,
)
    requires
        path.len() > 0,
        0 <= i <= path[0] < t.children.len(),
        declared(sc.stack, name),
        resolved_at(t.children[path[0]], path.drop_first()) matches Some(d) && declares(d, name),
    ensures
        scope_check_from(sc, t, i) is Err,
    decreases path.len(), path[0] - i + 1,
{
    if i == path[0] {
        lemma_shadowing_rejected(sc, t.children[i], path.drop_first(), name);
    } else {
        lemma_scope_extends(sc, t.children[i]);
        if let Ok(sc1) = scope_check(sc, t.children[i]) {
            lemma_extends_declared(sc.stack, sc1.stack, name);
            lemma_shadowing_rejected_from(sc1, t, i + 1, path, name);
        }
    }
}

/// Whether the stack holds the name as a variable.
pub fn holds_variable(stack: &Vec<ScopeElem>, name: &String) -> (r: bool)
    ensures
        r == seq_view(stack@).contains(ScopeView::Variable(name@)),
{
    let mut i: usize = 0;
    while i < stack.len()
        invariant
            i <= stack.len(),
            forall|k: int| 0 <= k < i ==> seq_view(stack@)[k] != ScopeView::Variable(name@),
        decreases stack.len() - i,
    {
        match &stack[i] {
            ScopeElem::Variable(n) => {
                if *n == *name {
                    assert(seq_view(stack@)[i as int] == ScopeView::Variable(name@));
                    return true;
                }
            },
            _ => {},
        }
        i += 1;
    }
    false
}

/// Whether the stack holds the name as a constant.
pub fn holds_constant(stack: &Vec<ScopeElem>, name: &String) -> (r: bool)
    ensures
        r == seq_view(stack@).contains(ScopeView::Const(name@)),
{
    let mut i: usize = 0;
    while i < stack.len()
        invariant
            i <= stack.len(),
            forall|k: int| 0 <= k < i ==> seq_view(stack@)[k] != ScopeView::Const(name@),
        decreases stack.len() - i,
    {
        match &stack[i] {
            ScopeElem::Const(n) => {
                if *n == *name {
                    assert(seq_view(stack@)[i as int] == ScopeView::Const(name@));
                    return true;
                }
            },
            _ => {},
        }
        i += 1;
    }
    false
}

/// Whether the stack holds the name as a function.
pub fn holds_function(stack: &Vec<ScopeElem>, name: &String) -> (r: bool)
    ensures
        r == seq_view(stack@).contains(ScopeView::Func(name@)),
{
    let mut i: usize = 0;
    while i < stack.len()
        invariant
            i <= stack.len(),
            forall|k: int| 0 <= k < i ==> seq_view(stack@)[k] != ScopeView::Func(name@),
        decreases stack.len() - i,
    {
        match &stack[i] {
            ScopeElem::Func(n) => {
                if *n == *name {
                    assert(seq_view(stack@)[i as int] == ScopeView::Func(name@));
                    return true;
                }
            },
            _ => {},
        }
        i += 1;
    }
    false
}

/// Whether the list holds the variable: its name with its type.
pub fn holds_local(locals: &Vec<Variable>, name: &String, ty: &Type) -> (r: bool)
    ensures
        r == seq_view(locals@).contains(VariableView { name: name@, ty: ty@ }),
{
    let mut i: usize = 0;
    while i < locals.len()
        invariant
            i <= locals.len(),
            forall|k: int|
                0 <= k < i ==> seq_view(locals@)[k] != (VariableView { name: name@, ty: ty@ }),
        decreases locals.len() - i,
    {
        if locals[i].name == *name && locals[i].ty.same(ty) {
            assert(seq_view(locals@)[i as int] == (VariableView { name: name@, ty: ty@ }));
            return true;
        }
        i += 1;
    }
    false
}

/// The name that an identifier node holds.
pub fn name_in(ast: &AbstractSyntaxTree, k: usize) -> (r: String)
    ensures
        r@ == name_of(ast@.child(k as int)),
{
    proof {
        lemma_view_children(ast);
    }
    if k < ast.children.len() {
        match &ast.children[k].node {
            SyntaxTreeNode::Identifier(name) => name.clone(),
            _ => String::new(),
        }
    } else {
        String::new()
    }
}

/// The type that a type annotation holds.
pub fn type_at(ast: &AbstractSyntaxTree, k: usize) -> (r: Type)
    ensures
        r@ == type_in(ast@.child(k as int)),
{
    proof {
        lemma_view_children(ast);
    }
    if k < ast.children.len() {
        match &ast.children[k].node {
            SyntaxTreeNode::TypeName(ty) => ty.clone(),
            SyntaxTreeNode::Identifier(name) => Type::Named(name.clone()),
            _ => Type::Named(String::new()),
        }
    } else {
        Type::Named(String::new())
    }
}

/// The state that a stack and a list of variables make.
pub open spec fn scope_of(stack: &Vec<ScopeElem>, locals: &Vec<Variable>) -> Scope {
    Scope { stack: seq_view(stack@), locals: seq_view(locals@) }
}

/// Whether scope resolution ended as wanted: with the error wanted, or
/// with the stack and the variables wanted.
pub open spec fn resolved(
    r: Result<(), usize>,
    stack: &Vec<ScopeElem>,
    locals: &Vec<Variable>,
    want: Result<Scope, usize>,
) -> bool {
    match want {
        Ok(sc) => r is Ok && scope_of(stack, locals) == sc,
        Err(e) => r matches Err(c) && c == e,
    }
}

fn enter(stack: &mut Vec<ScopeElem>, marker: ScopeElem)
    ensures
        seq_view(final(stack)@) == seq_view(old(stack)@).push(marker@),
        final(stack)@.len() == old(stack)@.len() + 1,
{
    proof {
        lemma_seq_view_push(stack@, marker);
    }
    stack.push(marker);
}

/// Leaves a block: the stack is cut back to the `depth` entries it held
/// before the block.
fn leave(stack: &mut Vec<ScopeElem>, depth: usize, Ghost(before): Ghost<Seq<ScopeView>>)
    requires
        before.len() == depth,
        extends(before, seq_view(old(stack)@)),
    ensures
        seq_view(final(stack)@) == before,
{
    stack.truncate(depth);
    assert(seq_view(stack@) =~= seq_view(old(stack)@).subrange(0, depth as int));
}

/// Scope resolution of a tree: `stack` is the scope stack, `var_set` the
/// variables of the function found so far.
///
/// A declaration that is refused because its name is in scope leaves the
/// stack and the variables as its initializer left them: as they were
/// before the call, where no declaration stands in the initializer.
pub fn check_semantics_helper(
    stack: &mut Vec<ScopeElem>,
    var_set: &mut Vec<Variable>,
    ast: &AbstractSyntaxTree,
) -> (r: Result<(), usize>)
    ensures
        resolved(r, final(stack), final(var_set), scope_check(scope_of(old(stack), old(var_set)), ast@)),
        redeclares(scope_of(old(stack), old(var_set)), ast@) ==> Ok::<Scope, usize>(
            scope_of(final(stack), final(var_set)),
        ) == scope_check_kid(scope_of(old(stack), old(var_set)), ast@, 2),
        redeclares(scope_of(old(stack), old(var_set)), ast@) && declaration_free(ast@.child(2))
            ==> scope_of(final(stack), final(var_set)) == scope_of(old(stack), old(var_set)),
    decreases ast, 1nat,
{
    proof {
        lemma_view_children(ast);
    }
    let ghost sc = scope_of(stack, var_set);
    proof {
        if redeclares(sc, ast@) && declaration_free(ast@.child(2)) && 2 < ast@.children.len() {
            lemma_declaration_free_keeps_scope(sc, ast@.children[2]);
        }
    }
    let tag = ast.tag();
    if tag == NodeTag::DeclareConst || tag == NodeTag::DeclareVar {
        check_kid(stack, var_set, ast, 2)?;
        let name = name_in(ast, 0);
        let ty = type_at(ast, 1);
        if holds_variable(stack, &name) || holds_constant(stack, &name) {
            return Err(
                if tag == NodeTag::DeclareConst {
                    CONSTANT_SHADOWS
                } else {
                    VARIABLE_SHADOWS
                },
            );
        }
        if !holds_local(var_set, &name, &ty) {
            let v = Variable { name: name.clone(), ty };
            proof {
                lemma_seq_view_push(var_set@, v);
            }
            var_set.push(v);
        }
        if tag == NodeTag::DeclareConst {
            enter(stack, ScopeElem::Const(name));
        } else {
            enter(stack, ScopeElem::Variable(name));
        }
        Ok(())
    } else if tag == NodeTag::Assign {
        check_kid(stack, var_set, ast, 1)?;
        check_kid(stack, var_set, ast, 2)?;
        let name = name_in(ast, 0);
        if holds_variable(stack, &name) {
            Ok(())
        } else {
            Err(NOT_A_VARIABLE)
        }
    } else if tag == NodeTag::WhileLoop {
        let depth = stack.len();
        enter(stack, ScopeElem::WhileScope);
        proof {
            lemma_scope_extends_kid(entered(sc, ScopeView::WhileScope), ast@, 1);
            lemma_extends_push(sc.stack, ScopeView::WhileScope);
        }
        check_kid(stack, var_set, ast, 1)?;
        proof {
            lemma_extends_transitive(sc.stack, sc.stack.push(ScopeView::WhileScope), seq_view(stack@));
        }
        leave(stack, depth, Ghost(sc.stack));
        Ok(())
    } else if tag == NodeTag::IfStmt {
        let depth = stack.len();
        enter(stack, ScopeElem::IfScope);
        proof {
            lemma_scope_extends_kid(entered(sc, ScopeView::IfScope), ast@, 1);
            lemma_extends_push(sc.stack, ScopeView::IfScope);
        }
        check_kid(stack, var_set, ast, 1)?;
        proof {
            lemma_extends_transitive(sc.stack, sc.stack.push(ScopeView::IfScope), seq_view(stack@));
        }
        leave(stack, depth, Ghost(sc.stack));
        if ast.children.len() > 2 && ast.children[2].tag() != NodeTag::Null {
            let ghost sc1 = scope_of(stack, var_set);
            enter(stack, ScopeElem::ElseScope);
            proof {
                lemma_scope_extends_kid(entered(sc1, ScopeView::ElseScope), ast@, 2);
                lemma_extends_push(sc.stack, ScopeView::ElseScope);
            }
            check_kid(stack, var_set, ast, 2)?;
            proof {
                lemma_extends_transitive(
                    sc.stack,
                    sc.stack.push(ScopeView::ElseScope),
                    seq_view(stack@),
                );
            }
            leave(stack, depth, Ghost(sc.stack));
        }
        Ok(())
    } else if tag == NodeTag::Index || crate::typing::arithmetic(tag) || crate::typing::comparison(tag)
        || crate::typing::connective(tag) {
        check_kid(stack, var_set, ast, 0)?;
        check_kid(stack, var_set, ast, 1)
    } else if tag == NodeTag::Identifier {
        check_kid(stack, var_set, ast, 0)?;
        let name = match &ast.node {
            SyntaxTreeNode::Identifier(name) => name.clone(),
            _ => String::new(),
        };
        if holds_variable(stack, &name) || holds_constant(stack, &name) {
            Ok(())
        } else {
            Err(NAME_NOT_IN_SCOPE)
        }
    } else if tag == NodeTag::FnCall {
        check_kid(stack, var_set, ast, 1)?;
        let name = name_in(ast, 0);
        if builtin(&name) || holds_function(stack, &name) {
            Ok(())
        } else {
            Err(UNKNOWN_FUNCTION)
        }
    } else {
        let mut i: usize = 0;
        while i < ast.children.len()
            invariant
                i <= ast.children.len(),
                ast@.children.len() == ast.children@.len(),
                forall|k: int|
                    0 <= k < ast.children@.len() ==> (#[trigger] ast@.children[k])
                        == ast.children@[k]@,
                sc == scope_of(old(stack), old(var_set)),
                !redeclares(sc, ast@),
                scope_check(sc, ast@) == scope_check_from(scope_of(stack, var_set), ast@, i as int),
            decreases ast.children.len() - i,
        {
            match check_semantics_helper(stack, var_set, &ast.children[i]) {
                Err(e) => {
                    return Err(e);
                },
                Ok(_) => {},
            }
            i += 1;
        }
        Ok(())
    }
}

/// Scope resolution of the `k`-th subtree of `ast`.
fn check_kid(
    stack: &mut Vec<ScopeElem>,
    var_set: &mut Vec<Variable>,
    ast: &AbstractSyntaxTree,
    k: usize,
) -> (r: Result<(), usize>)
    ensures
        resolved(
            r,
            final(stack),
            final(var_set),
            scope_check_kid(scope_of(old(stack), old(var_set)), ast@, k as int),
        ),
    decreases ast, 0nat,
{
    proof {
        lemma_view_children(ast);
    }
    if k < ast.children.len() {
        check_semantics_helper(stack, var_set, &ast.children[k])
    } else {
        Ok(())
    }
}

} // verus!
