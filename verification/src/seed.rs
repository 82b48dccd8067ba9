//! The first passes over the syntax tree: the node dependency graph, and
//! the symbol table with every node and function that the program declares.

use vstd::prelude::*;
use crate::ast::{AbstractSyntaxTree, AstView, NodeTag, NodeView, SyntaxTreeNode, lemma_view_children};
use crate::lower::type_in;
use crate::scope::{name_in, name_of, type_at};
use crate::symbols::{
    Dependencies,
    DependenciesView,
    FunctionEntry,
    FunctionView,
    NodeEntry,
    ReturnKind,
    ReturnView,
    Variable,
    VariableView,
    clone_variables,
    find_variable,
    lemma_seq_view_push,
    lookup,
    seq_view,
};
use crate::types::{Type, TypeView};
use crate::typing::{agrees, agrees_all};

verus! {

/// Two nodes have one name.
pub const DUPLICATE_NODE: usize = 1;

/// Two functions of one node have one name.
pub const DUPLICATE_FUNCTION: usize = 2;

/// Two parameters of one function have one name.
pub const DUPLICATE_PARAMETER: usize = 3;

/// The names in a dependency list, in source order.
pub open spec fn dependencies_of(t: AstView) -> Seq<Seq<char>>
    decreases t,
{
    match t.node {
        NodeView::Identifier(name) => seq![name],
        _ => if t.tag() == NodeTag::Null || t.children.len() == 0 {
            Seq::empty()
        } else if t.children.len() == 1 {
            dependencies_of(t.children[0])
        } else {
            dependencies_of(t.children[0]) + dependencies_of(t.children[1])
        },
    }
}

/// The dependency graph of a program: one entry for each node header, in
/// source order, with the names that the header lists.
pub open spec fn graph_of(t: AstView) -> Seq<DependenciesView>
    decreases t,
{
    if t.tag() == NodeTag::NodeSeq {
        (if t.children.len() > 0 {
            graph_of(t.children[0])
        } else {
            Seq::empty()
        }) + (if t.children.len() > 1 {
            graph_of(t.children[1])
        } else {
            Seq::empty()
        })
    } else if t.tag() == NodeTag::DeclareNode {
        if t.children.len() > 0 {
            graph_of(t.children[0])
        } else {
            Seq::empty()
        }
    } else if t.tag() == NodeTag::NodeHeader {
        seq![
            DependenciesView { node: name_of(t.child(0)), needs: dependencies_of(t.child(1)) },
        ]
    } else {
        Seq::empty()
    }
}

/// The first parameter of `first` from `from` on whose name is also the
/// name of a parameter in `rest`.
pub open spec fn first_clash(first: Seq<VariableView>, rest: Seq<VariableView>, from: int) -> Option<int>
    decreases first.len() - from,
{
    if from < 0 || from >= first.len() {
        None
    } else if find_variable(rest, first[from].name, 0) is Some {
        Some(from)
    } else {
        first_clash(first, rest, from + 1)
    }
}

/// The parameters that a parameter list declares, in source order. Two
/// parameters of one name are refused.
pub open spec fn params_of(t: AstView) -> Result<Seq<VariableView>, usize>
    decreases t,
{
    if t.tag() == NodeTag::ParamList {
        let first = if t.children.len() > 0 {
            params_of(t.children[0])
        } else {
            Ok(Seq::empty())
        };
        match first {
            Err(e) => Err(e),
            Ok(first) => {
                let rest = if t.children.len() > 1 {
                    params_of(t.children[1])
                } else {
                    Ok(Seq::empty())
                };
                match rest {
                    Err(e) => Err(e),
                    Ok(rest) => if first_clash(first, rest, 0) is Some {
                        Err(DUPLICATE_PARAMETER)
                    } else {
                        Ok(first + rest)
                    },
                }
            },
        }
    } else if t.tag() == NodeTag::Param {
        Ok(seq![VariableView { name: name_of(t.child(0)), ty: type_in(t.child(1)) }])
    } else {
        Ok(Seq::empty())
    }
}

/// What a return-type node says the function returns.
pub open spec fn return_of(t: AstView) -> ReturnView {
    match t.child(0).node {
        NodeView::TypeName(ty) => ReturnView::Value(ty),
        NodeView::Identifier(name) => ReturnView::Value(TypeView::Named(name)),
        NodeView::Plain(NodeTag::NoReturn) => ReturnView::NoReturn,
        _ => ReturnView::Void,
    }
}

/// The entry of a function declaration: its name, what it returns, its
/// parameters, which are also its first variables, and its body.
pub open spec fn function_of(t: AstView) -> Result<FunctionView, usize> {
    match params_of(t.child(1)) {
        Err(e) => Err(e),
        Ok(params) => Ok(
            FunctionView {
                name: name_of(t.child(0)),
                return_type: return_of(t.child(2)),
                params,
                locals: params,
                body: t.child(3),
            },
        ),
    }
}

/// The first function of the name from `from` on.
pub open spec fn find_function(fs: Seq<FunctionView>, name: Seq<char>, from: int) -> Option<int>
    decreases fs.len() - from,
{
    if from < 0 || from >= fs.len() {
        None
    } else if fs[from].name == name {
        Some(from)
    } else {
        find_function(fs, name, from + 1)
    }
}

/// The functions `acc` with the functions that the tree declares put
/// after them, in source order. Two functions of one name are refused.
pub open spec fn functions_of(t: AstView, acc: Seq<FunctionView>) -> Result<Seq<FunctionView>, usize>
    decreases t, t.children.len() + 1,
{
    if t.tag() == NodeTag::DeclareFunc {
        match function_of(t) {
            Err(e) => Err(e),
            Ok(f) => if find_function(acc, f.name, 0) is Some {
                Err(DUPLICATE_FUNCTION)
            } else {
                Ok(acc.push(f))
            },
        }
    } else {
        functions_from(t, acc, 0)
    }
}

/// The same for the subtrees of `t` from the `i`-th on.
pub open spec fn functions_from(t: AstView, acc: Seq<FunctionView>, i: int) -> Result<
    Seq<FunctionView>,
    usize,
>
    decreases t, t.children.len() - i,
{
    if i < 0 || i >= t.children.len() {
        Ok(acc)
    } else {
        match functions_of(t.children[i], acc) {
            Err(e) => Err(e),
            Ok(more) => functions_from(t, more, i + 1),
        }
    }
}

/// The first node of the name from `from` on.
pub open spec fn find_node(table: Seq<crate::symbols::NodeView>, name: Seq<char>, from: int) -> Option<
    int,
>
    decreases table.len() - from,
{
    if from < 0 || from >= table.len() {
        None
    } else if table[from].name == name {
        Some(from)
    } else {
        find_node(table, name, from + 1)
    }
}

/// The symbol table `acc` with the nodes that the tree declares put after
/// its entries, in source order. Two nodes of one name are refused.
pub open spec fn seed(t: AstView, acc: Seq<crate::symbols::NodeView>) -> Result<
    Seq<crate::symbols::NodeView>,
    usize,
>
    decreases t, t.children.len() + 1,
{
    if t.tag() == NodeTag::DeclareNode {
        let name = name_of(t.child(0).child(0));
        if find_node(acc, name, 0) is Some {
            Err(DUPLICATE_NODE)
        } else {
            let functions = if t.children.len() > 1 {
                functions_of(t.children[1], Seq::empty())
            } else {
                Ok(Seq::empty())
            };
            match functions {
                Err(e) => Err(e),
                Ok(functions) => Ok(acc.push(crate::symbols::NodeView { name, functions })),
            }
        }
    } else {
        seed_from(t, acc, 0)
    }
}

/// The same for the subtrees of `t` from the `i`-th on.
pub open spec fn seed_from(t: AstView, acc: Seq<crate::symbols::NodeView>, i: int) -> Result<
    Seq<crate::symbols::NodeView>,
    usize,
>
    decreases t, t.children.len() - i,
{
    if i < 0 || i >= t.children.len() {
        Ok(acc)
    } else {
        match seed(t.children[i], acc) {
            Err(e) => Err(e),
            Ok(more) => seed_from(t, more, i + 1),
        }
    }
}

/// Puts the names of a dependency list after `needs`.
pub fn add_dependencies(needs: &mut Vec<String>, ast: &AbstractSyntaxTree)
    ensures
        seq_view(final(needs)@) == seq_view(old(needs)@) + dependencies_of(ast@),
    decreases ast,
{
    proof {
        lemma_view_children(ast);
    }
    match &ast.node {
        SyntaxTreeNode::Identifier(name) => {
            let copy = name.clone();
            proof {
                lemma_seq_view_push(needs@, copy);
            }
            needs.push(copy);
            assert(seq_view(needs@) =~= seq_view(old(needs)@) + seq![name@]);
        },
        _ => {
            if ast.tag() == NodeTag::Null || ast.children.len() == 0 {
                assert(seq_view(needs@) =~= seq_view(old(needs)@) + Seq::<Seq<char>>::empty());
            } else if ast.children.len() == 1 {
                add_dependencies(needs, &ast.children[0]);
            } else {
                add_dependencies(needs, &ast.children[0]);
                add_dependencies(needs, &ast.children[1]);
                assert(seq_view(needs@) =~= seq_view(old(needs)@) + (dependencies_of(
                    ast@.children[0],
                ) + dependencies_of(ast@.children[1])));
            }
        },
    }
}

/// Puts the entries of the node headers of a program after `graph`.
pub fn create_node_graph(graph: &mut Vec<Dependencies>, ast: &AbstractSyntaxTree)
    ensures
        seq_view(final(graph)@) == seq_view(old(graph)@) + graph_of(ast@),
    decreases ast,
{
    proof {
        lemma_view_children(ast);
    }
    let tag = ast.tag();
    if tag == NodeTag::NodeSeq {
        let ghost g0 = seq_view(graph@);
        if ast.children.len() > 0 {
            create_node_graph(graph, &ast.children[0]);
        }
        let ghost g1 = seq_view(graph@);
        if ast.children.len() > 1 {
            create_node_graph(graph, &ast.children[1]);
        }
        assert(seq_view(graph@) =~= g0 + graph_of(ast@));
    } else if tag == NodeTag::DeclareNode {
        if ast.children.len() > 0 {
            create_node_graph(graph, &ast.children[0]);
        } else {
            assert(seq_view(graph@) =~= seq_view(old(graph)@) + Seq::<DependenciesView>::empty());
        }
    } else if tag == NodeTag::NodeHeader {
        let node = name_in(ast, 0);
        let mut needs: Vec<String> = Vec::new();
        if ast.children.len() > 1 {
            add_dependencies(&mut needs, &ast.children[1]);
        }
        assert(seq_view(needs@) =~= dependencies_of(ast@.child(1)));
        let entry = Dependencies { node, needs };
        proof {
            lemma_seq_view_push(graph@, entry);
        }
        graph.push(entry);
        assert(seq_view(graph@) =~= seq_view(old(graph)@) + graph_of(ast@));
    } else {
        assert(seq_view(graph@) =~= seq_view(old(graph)@) + Seq::<DependenciesView>::empty());
    }
}

/// The parameters that a parameter list declares, in source order.
pub fn sst_func(ast: &AbstractSyntaxTree) -> (r: Result<Vec<Variable>, usize>)
    ensures
        agrees_all(r, params_of(ast@)),
    decreases ast,
{
    proof {
        lemma_view_children(ast);
    }
    let tag = ast.tag();
    if tag == NodeTag::ParamList {
        let mut first = if ast.children.len() > 0 {
            sst_func(&ast.children[0])?
        } else {
            Vec::new()
        };
        assert(ast.children.len() == 0 ==> seq_view(first@) =~= Seq::<VariableView>::empty());
        let rest = if ast.children.len() > 1 {
            sst_func(&ast.children[1])?
        } else {
            Vec::new()
        };
        assert(ast.children.len() <= 1 ==> seq_view(rest@) =~= Seq::<VariableView>::empty());
        let ghost whole = params_of(ast@);
        assert(whole == (if first_clash(seq_view(first@), seq_view(rest@), 0) is Some {
            Err::<Seq<VariableView>, usize>(DUPLICATE_PARAMETER)
        } else {
            Ok(seq_view(first@) + seq_view(rest@))
        }));
        let mut i: usize = 0;
        while i < first.len()
            invariant
                i <= first.len(),
                whole == params_of(ast@),
                whole == (if first_clash(seq_view(first@), seq_view(rest@), 0) is Some {
                    Err::<Seq<VariableView>, usize>(DUPLICATE_PARAMETER)
                } else {
                    Ok(seq_view(first@) + seq_view(rest@))
                }),
                first_clash(seq_view(first@), seq_view(rest@), 0) == first_clash(
                    seq_view(first@),
                    seq_view(rest@),
                    i as int,
                ),
            decreases first.len() - i,
        {
            if lookup(&rest, &first[i].name).is_some() {
                return Err(DUPLICATE_PARAMETER);
            }
            i += 1;
        }
        let ghost head = seq_view(first@);
        let mut k: usize = 0;
        while k < rest.len()
            invariant
                k <= rest.len(),
                seq_view(first@) == head + seq_view(rest@).subrange(0, k as int),
            decreases rest.len() - k,
        {
            let v = rest[k].clone();
            proof {
                lemma_seq_view_push(first@, v);
            }
            first.push(v);
            k += 1;
            assert(seq_view(first@) =~= head + seq_view(rest@).subrange(0, k as int));
        }
        assert(seq_view(rest@).subrange(0, rest@.len() as int) =~= seq_view(rest@));
        Ok(first)
    } else if tag == NodeTag::Param {
        let v = Variable { name: name_in(ast, 0), ty: type_at(ast, 1) };
        let mut out: Vec<Variable> = Vec::new();
        out.push(v);
        assert(seq_view(out@) =~= seq![v@]);
        Ok(out)
    } else {
        let out: Vec<Variable> = Vec::new();
        assert(seq_view(out@) =~= Seq::<VariableView>::empty());
        Ok(out)
    }
}

/// What a return-type node says the function returns.
fn returned(ast: &AbstractSyntaxTree, k: usize) -> (r: ReturnKind)
    ensures
        r@ == return_of(ast@.child(k as int)),
{
    proof {
        lemma_view_children(ast);
    }
    if k < ast.children.len() {
        let node = &ast.children[k];
        proof {
            lemma_view_children(node);
        }
        if node.children.len() > 0 {
            match &node.children[0].node {
                SyntaxTreeNode::TypeName(ty) => ReturnKind::Value(ty.clone()),
                SyntaxTreeNode::Identifier(name) => ReturnKind::Value(Type::Named(name.clone())),
                SyntaxTreeNode::NoReturn => ReturnKind::NoReturn,
                _ => ReturnKind::Void,
            }
        } else {
            ReturnKind::Void
        }
    } else {
        ReturnKind::Void
    }
}

/// The entry of a function declaration.
fn declared_function(ast: &AbstractSyntaxTree) -> (r: Result<FunctionEntry, usize>)
    ensures
        agrees(r, function_of(ast@)),
{
    proof {
        lemma_view_children(ast);
    }
    let params = if ast.children.len() > 1 {
        sst_func(&ast.children[1])?
    } else {
        Vec::new()
    };
    assert(ast.children.len() <= 1 ==> seq_view(params@) =~= Seq::<VariableView>::empty());
    let locals = clone_variables(&params);
    let body = if ast.children.len() > 3 {
        ast.children[3].clone()
    } else {
        AbstractSyntaxTree::new()
    };
    Ok(
        FunctionEntry {
            name: name_in(ast, 0),
            return_type: returned(ast, 2),
            params,
            locals,
            body,
        },
    )
}

/// The position of the first function of the name.
pub fn lookup_function(fs: &Vec<FunctionEntry>, name: &String) -> (r: Option<usize>)
    ensures
        r is None <==> find_function(seq_view(fs@), name@, 0) is None,
        r matches Some(i) ==> find_function(seq_view(fs@), name@, 0) == Some(i as int) && i
            < fs@.len() && fs@[i as int].name@ == name@,
{
    let mut i: usize = 0;
    while i < fs.len()
        invariant
            i <= fs.len(),
            find_function(seq_view(fs@), name@, 0) == find_function(seq_view(fs@), name@, i as int),
        decreases fs.len() - i,
    {
        if fs[i].name == *name {
            return Some(i);
        }
        i += 1;
    }
    None
}

/// The position of the first node of the name.
pub fn lookup_node(table: &Vec<NodeEntry>, name: &String) -> (r: Option<usize>)
    ensures
        r is None <==> find_node(seq_view(table@), name@, 0) is None,
        r matches Some(i) ==> find_node(seq_view(table@), name@, 0) == Some(i as int) && i
            < table@.len(),
{
    let mut i: usize = 0;
    while i < table.len()
        invariant
            i <= table.len(),
            find_node(seq_view(table@), name@, 0) == find_node(seq_view(table@), name@, i as int),
        decreases table.len() - i,
    {
        if table[i].name == *name {
            return Some(i);
        }
        i += 1;
    }
    None
}

/// Puts the functions that the tree declares after `functions`.
pub fn sst_node(functions: &mut Vec<FunctionEntry>, ast: &AbstractSyntaxTree) -> (r: Result<(), usize>)
    ensures
        match functions_of(ast@, seq_view(old(functions)@)) {
            Ok(fs) => r is Ok && seq_view(final(functions)@) == fs,
            Err(e) => r matches Err(c) && c == e,
        },
    decreases ast,
{
    proof {
        lemma_view_children(ast);
    }
    if ast.tag() == NodeTag::DeclareFunc {
        let f = declared_function(ast)?;
        if lookup_function(functions, &f.name).is_some() {
            return Err(DUPLICATE_FUNCTION);
        }
        proof {
            lemma_seq_view_push(functions@, f);
        }
        functions.push(f);
        Ok(())
    } else {
        let ghost start = seq_view(functions@);
        let mut i: usize = 0;
        while i < ast.children.len()
            invariant
                i <= ast.children.len(),
                ast@.children.len() == ast.children@.len(),
                forall|k: int|
                    0 <= k < ast.children@.len() ==> (#[trigger] ast@.children[k])
                        == ast.children@[k]@,
                start == seq_view(old(functions)@),
                functions_of(ast@, start) == functions_from(ast@, seq_view(functions@), i as int),
            decreases ast.children.len() - i,
        {
            match sst_node(functions, &ast.children[i]) {
                Err(e) => {
                    return Err(e);
                },
                Ok(_) => {},
            }
            i += 1;
        }
        Ok(())
    }
}

/// Puts the nodes that the tree declares after the entries of
/// `symbol_table`.
pub fn seed_symbol_table(symbol_table: &mut Vec<NodeEntry>, ast: &AbstractSyntaxTree) -> (r: Result<
    (),
    usize,
>)
    ensures
        match seed(ast@, seq_view(old(symbol_table)@)) {
            Ok(table) => r is Ok && seq_view(final(symbol_table)@) == table,
            Err(e) => r matches Err(c) && c == e,
        },
    decreases ast,
{
    proof {
        lemma_view_children(ast);
    }
    if ast.tag() == NodeTag::DeclareNode {
        let name = if ast.children.len() > 0 {
            name_in(&ast.children[0], 0)
        } else {
            String::new()
        };
        if lookup_node(symbol_table, &name).is_some() {
            return Err(DUPLICATE_NODE);
        }
        let mut functions: Vec<FunctionEntry> = Vec::new();
        assert(seq_view(functions@) =~= Seq::<FunctionView>::empty());
        if ast.children.len() > 1 {
            sst_node(&mut functions, &ast.children[1])?;
        }
        let entry = NodeEntry { name, functions };
        proof {
            lemma_seq_view_push(symbol_table@, entry);
        }
        symbol_table.push(entry);
        Ok(())
    } else {
        let ghost start = seq_view(symbol_table@);
        let mut i: usize = 0;
        while i < ast.children.len()
            invariant
                i <= ast.children.len(),
                ast@.children.len() == ast.children@.len(),
                forall|k: int|
                    0 <= k < ast.children@.len() ==> (#[trigger] ast@.children[k])
                        == ast.children@[k]@,
                start == seq_view(old(symbol_table)@),
                seed(ast@, start) == seed_from(ast@, seq_view(symbol_table@), i as int),
            decreases ast.children.len() - i,
        {
            match seed_symbol_table(symbol_table, &ast.children[i]) {
                Err(e) => {
                    return Err(e);
                },
                Ok(_) => {},
            }
            i += 1;
        }
        Ok(())
    }
}

} // verus!
