//! The symbol model: what the analyzer knows of every node and function.

use vstd::prelude::*;
use crate::ast::{AbstractSyntaxTree, AstView};
use crate::types::{Type, TypeView};

verus! {

/// The views of a sequence of values.
pub open spec fn seq_view<T: View>(s: Seq<T>) -> Seq<T::V> {
    Seq::new(s.len(), |i: int| s[i]@)
}

/// Pushing a value pushes its view.
pub proof fn lemma_seq_view_push<T: View>(s: Seq<T>, x: T)
    ensures
        seq_view(s.push(x)) == seq_view(s).push(x@),
{
    assert(seq_view(s.push(x)) =~= seq_view(s).push(x@));
}

/// What a function returns, or what an expression is worth: nothing, never
/// anything, or a value of a type.
#[derive(Debug, PartialEq)]
pub enum ReturnKind {
    Void,
    NoReturn,
    Value(Type),
}

/// The view of a [`ReturnKind`].
pub enum ReturnView {
    Void,
    NoReturn,
    Value(TypeView),
}

impl View for ReturnKind {
    type V = ReturnView;

    open spec fn view(&self) -> ReturnView {
        match self {
            ReturnKind::Void => ReturnView::Void,
            ReturnKind::NoReturn => ReturnView::NoReturn,
            ReturnKind::Value(t) => ReturnView::Value(t@),
        }
    }
}

impl Clone for ReturnKind {
    fn clone(&self) -> (r: Self)
        ensures
            r@ == self@,
    {
        match self {
            ReturnKind::Void => ReturnKind::Void,
            ReturnKind::NoReturn => ReturnKind::NoReturn,
            ReturnKind::Value(t) => ReturnKind::Value(t.clone()),
        }
    }
}

impl ReturnKind {
    /// Whether two kinds are the same.
    pub fn same(&self, other: &ReturnKind) -> (r: bool)
        ensures
            r == (self@ == other@),
    {
        match (self, other) {
            (ReturnKind::Void, ReturnKind::Void) => true,
            (ReturnKind::NoReturn, ReturnKind::NoReturn) => true,
            (ReturnKind::Value(a), ReturnKind::Value(b)) => a.same(b),
            _ => false,
        }
    }

    /// Whether this is a value of the type `t`.
    pub fn is_value_of(&self, t: &Type) -> (r: bool)
        ensures
            r == (self@ == ReturnView::Value(t@)),
    {
        match self {
            ReturnKind::Value(a) => a.same(t),
            _ => false,
        }
    }
}

/// A variable: a parameter or a local, with its type.
#[derive(Debug, PartialEq)]
pub struct Variable {
    pub name: String,
    pub ty: Type,
}

/// The view of a [`Variable`].
pub struct VariableView {
    pub name: Seq<char>,
    pub ty: TypeView,
}

impl View for Variable {
    type V = VariableView;

    open spec fn view(&self) -> VariableView {
        VariableView { name: self.name@, ty: self.ty@ }
    }
}

impl Clone for Variable {
    fn clone(&self) -> (r: Self)
        ensures
            r@ == self@,
    {
        Variable { name: self.name.clone(), ty: self.ty.clone() }
    }
}

/// A copy of a list of variables.
pub fn clone_variables(v: &Vec<Variable>) -> (r: Vec<Variable>)
    ensures
        seq_view(r@) == seq_view(v@),
{
    let mut out: Vec<Variable> = Vec::new();
    let mut i: usize = 0;
    while i < v.len()
        invariant
            i <= v.len(),
            out@.len() == i,
            forall|k: int| 0 <= k < i ==> (#[trigger] out@[k])@ == v@[k]@,
        decreases v.len() - i,
    {
        out.push(v[i].clone());
        i += 1;
    }
    assert(seq_view(out@) =~= seq_view(v@));
    out
}

/// The first variable of the name in a list, if it holds one.
pub open spec fn find_variable(vars: Seq<VariableView>, name: Seq<char>, from: int) -> Option<int>
    decreases vars.len() - from,
{
    if from < 0 || from >= vars.len() {
        None
    } else if vars[from].name == name {
        Some(from)
    } else {
        find_variable(vars, name, from + 1)
    }
}

/// The type of the first variable of the name in a list.
pub open spec fn variable_type(vars: Seq<VariableView>, name: Seq<char>) -> Option<TypeView> {
    match find_variable(vars, name, 0) {
        Some(i) => Some(vars[i].ty),
        None => None,
    }
}

/// Looks a variable up by its name: the position of the first one.
pub fn lookup(vars: &Vec<Variable>, name: &String) -> (r: Option<usize>)
    ensures
        r is None <==> find_variable(seq_view(vars@), name@, 0) is None,
        r matches Some(i) ==> find_variable(seq_view(vars@), name@, 0) == Some(i as int) && i
            < vars@.len(),
{
    let mut i: usize = 0;
    while i < vars.len()
        invariant
            i <= vars.len(),
            find_variable(seq_view(vars@), name@, 0) == find_variable(
                seq_view(vars@),
                name@,
                i as int,
            ),
        decreases vars.len() - i,
    {
        if vars[i].name == *name {
            return Some(i);
        }
        i += 1;
    }
    None
}

/// The name of a function, what it returns, and the types of its
/// parameters in order.
#[derive(Debug, PartialEq)]
pub struct Signature {
    pub name: String,
    pub return_type: ReturnKind,
    pub params: Vec<Type>,
}

/// The view of a [`Signature`].
pub struct SignatureView {
    pub name: Seq<char>,
    pub return_type: ReturnView,
    pub params: Seq<TypeView>,
}

impl View for Signature {
    type V = SignatureView;

    open spec fn view(&self) -> SignatureView {
        SignatureView {
            name: self.name@,
            return_type: self.return_type@,
            params: seq_view(self.params@),
        }
    }
}

/// A function of a node: its name, what it returns, its parameters in
/// order, every variable its body may hold (the parameters first, then the
/// locals in the order of their declarations), and its body.
#[derive(Debug, PartialEq)]
pub struct FunctionEntry {
    pub name: String,
    pub return_type: ReturnKind,
    pub params: Vec<Variable>,
    pub locals: Vec<Variable>,
    pub body: AbstractSyntaxTree,
}

/// The view of a [`FunctionEntry`].
pub struct FunctionView {
    pub name: Seq<char>,
    pub return_type: ReturnView,
    pub params: Seq<VariableView>,
    pub locals: Seq<VariableView>,
    pub body: AstView,
}

impl View for FunctionEntry {
    type V = FunctionView;

    open spec fn view(&self) -> FunctionView {
        FunctionView {
            name: self.name@,
            return_type: self.return_type@,
            params: seq_view(self.params@),
            locals: seq_view(self.locals@),
            body: self.body@,
        }
    }
}

impl FunctionView {
    /// The signature of the function.
    pub open spec fn signature(self) -> SignatureView {
        SignatureView {
            name: self.name,
            return_type: self.return_type,
            params: Seq::new(self.params.len(), |i: int| self.params[i].ty),
        }
    }
}

impl FunctionEntry {
    /// The signature of the function.
    pub fn signature(&self) -> (r: Signature)
        ensures
            r@ == self@.signature(),
    {
        let mut params: Vec<Type> = Vec::new();
        let mut i: usize = 0;
        while i < self.params.len()
            invariant
                i <= self.params.len(),
                params@.len() == i,
                forall|k: int| 0 <= k < i ==> (#[trigger] params@[k])@ == self.params@[k].ty@,
            decreases self.params.len() - i,
        {
            params.push(self.params[i].ty.clone());
            i += 1;
        }
        let r = Signature {
            name: self.name.clone(),
            return_type: self.return_type.clone(),
            params,
        };
        assert(r@.params =~= self@.signature().params);
        r
    }
}

/// A node: its name and its functions in the order of their declarations.
#[derive(Debug, PartialEq)]
pub struct NodeEntry {
    pub name: String,
    pub functions: Vec<FunctionEntry>,
}

/// The view of a [`NodeEntry`].
pub struct NodeView {
    pub name: Seq<char>,
    pub functions: Seq<FunctionView>,
}

impl View for NodeEntry {
    type V = NodeView;

    open spec fn view(&self) -> NodeView {
        NodeView { name: self.name@, functions: seq_view(self.functions@) }
    }
}

/// A node of the dependency graph: its name and the names of the nodes it
/// depends on, in the order its header lists them.
#[derive(Debug, PartialEq)]
pub struct Dependencies {
    pub node: String,
    pub needs: Vec<String>,
}

/// The view of a [`Dependencies`].
pub struct DependenciesView {
    pub node: Seq<char>,
    pub needs: Seq<Seq<char>>,
}

impl View for Dependencies {
    type V = DependenciesView;

    open spec fn view(&self) -> DependenciesView {
        DependenciesView { node: self.node@, needs: seq_view(self.needs@) }
    }
}

/// Whether the name is the name of a built-in print function.
pub open spec fn is_builtin(name: Seq<char>) -> bool {
    name == "print_int"@ || name == "print_float"@ || name == "print_bool"@ || name == "print_char"@
        || name == "println"@
}

/// Whether the name is the name of a built-in print function that takes
/// the value to print.
pub open spec fn is_print_of_value(name: Seq<char>) -> bool {
    name == "print_int"@ || name == "print_float"@ || name == "print_bool"@ || name == "print_char"@
}

/// Whether the name is the name of a built-in print function.
pub fn builtin(name: &String) -> (r: bool)
    ensures
        r == is_builtin(name@),
{
    print_of_value(name) || crate::token::spells(name, "println")
}

/// Whether the name is the name of a built-in print function that takes
/// the value to print.
pub fn print_of_value(name: &String) -> (r: bool)
    ensures
        r == is_print_of_value(name@),
{
    crate::token::spells(name, "print_int") || crate::token::spells(name, "print_float")
        || crate::token::spells(name, "print_bool") || crate::token::spells(name, "print_char")
}

} // verus!
