//! The analyzed program: its dependency graph and its symbol table, built
//! from the syntax tree by the passes of the semantic analyzer.

use vstd::prelude::*;
use vstd::string::StringExecFns;
use crate::ast::AstView;
use crate::codegen::{NodeImage, NodeImageView, emit_node, generate_bytecode};
use crate::emit::CodegenError;
use crate::graph_json::{encode_graph, graph_text};
use crate::parser::Parser;
use crate::return_paths::{check_return, return_check, return_sound};
use crate::scope::{Scope, ScopeElem, ScopeView, check_semantics_helper, scope_check};
use crate::seed::{create_node_graph, graph_of, seed, seed_symbol_table};
use crate::symbols::{
    Dependencies,
    DependenciesView,
    FunctionEntry,
    FunctionView,
    NodeEntry,
    NodeView,
    Signature,
    SignatureView,
    Variable,
    VariableView,
    clone_variables,
    lemma_seq_view_push,
    seq_view,
};
use crate::typing::{
    Env,
    MALFORMED_ARRAY_TYPE,
    agrees,
    agrees_all,
    check_types,
    has_positive_lengths,
    positive_lengths,
    type_check,
};

verus! {

/// The diagnostic for the code of a rule that a program breaks. The codes
/// are stable. Code 10 stays reserved for a condition whose sides differ
/// in type: the rules of the operators find such a condition first, under
/// code 11.
pub open spec fn code_text(code: usize) -> Seq<char> {
    if code == 1 {
        "duplicate node"@
    }     else if code == 2 {
        "duplicate function"@
    }     else if code == 3 {
        "duplicate parameter"@
    }     else if code == 4 {
        "constant declared twice"@
    }     else if code == 5 {
        "variable declared twice"@
    }     else if code == 6 {
        "unknown name"@
    }     else if code == 7 {
        "unknown function"@
    }     else if code == 8 {
        "declared type differs from the type of the value"@
    }     else if code == 9 {
        "assigned value differs in type from its target"@
    }     else if code == 10 {
        "the two sides of a condition differ in type"@
    }     else if code == 11 {
        "operands of the wrong type"@
    }     else if code == 12 {
        "unknown variable"@
    }     else if code == 13 {
        "no function with this name takes these arguments"@
    }     else if code == 14 {
        "return in a function that returns nothing"@
    }     else if code == 15 {
        "returned value of the wrong type"@
    }     else if code == 16 {
        "assignment to what is no variable"@
    }     else if code == 17 {
        "array length must be positive"@
    }     else if code == 18 {
        "return in a function that never returns"@
    }     else if code == 19 {
        "a function that never returns must begin with a loop"@
    }     else if code == 20 {
        "missing return"@
    }     else if code == 21 {
        "malformed array literal"@
    }     else if code == 22 {
        "bad index"@
    }     else if code == 23 {
        "index into what is no array"@
    } else {
        "unknown error"@
    }
}

/// The diagnostic for the code of a rule that a program breaks, as a
/// string.
pub fn describe(code: usize) -> (r: String)
    ensures
        r@ == code_text(code),
{
    if code == 1 {
        String::from_str("duplicate node")
    }     else if code == 2 {
        String::from_str("duplicate function")
    }     else if code == 3 {
        String::from_str("duplicate parameter")
    }     else if code == 4 {
        String::from_str("constant declared twice")
    }     else if code == 5 {
        String::from_str("variable declared twice")
    }     else if code == 6 {
        String::from_str("unknown name")
    }     else if code == 7 {
        String::from_str("unknown function")
    }     else if code == 8 {
        String::from_str("declared type differs from the type of the value")
    }     else if code == 9 {
        String::from_str("assigned value differs in type from its target")
    }     else if code == 10 {
        String::from_str("the two sides of a condition differ in type")
    }     else if code == 11 {
        String::from_str("operands of the wrong type")
    }     else if code == 12 {
        String::from_str("unknown variable")
    }     else if code == 13 {
        String::from_str("no function with this name takes these arguments")
    }     else if code == 14 {
        String::from_str("return in a function that returns nothing")
    }     else if code == 15 {
        String::from_str("returned value of the wrong type")
    }     else if code == 16 {
        String::from_str("assignment to what is no variable")
    }     else if code == 17 {
        String::from_str("array length must be positive")
    }     else if code == 18 {
        String::from_str("return in a function that never returns")
    }     else if code == 19 {
        String::from_str("a function that never returns must begin with a loop")
    }     else if code == 20 {
        String::from_str("missing return")
    }     else if code == 21 {
        String::from_str("malformed array literal")
    }     else if code == 22 {
        String::from_str("bad index")
    }     else if code == 23 {
        String::from_str("index into what is no array")
    } else {
        String::from_str("unknown error")
    }
}

/// The view of a [`Source`].
pub struct SourceView {
    pub graph: Seq<DependenciesView>,
    pub table: Seq<NodeView>,
}

/// The signatures of a list of functions, in order.
pub open spec fn signatures_of(fs: Seq<FunctionView>) -> Seq<SignatureView> {
    Seq::new(fs.len(), |i: int| fs[i].signature())
}

/// The signatures of the functions of the first `n` nodes of a symbol
/// table, node after node.
pub open spec fn all_signatures(table: Seq<NodeView>, n: int) -> Seq<SignatureView>
    decreases n,
{
    if n <= 0 || n > table.len() {
        Seq::empty()
    } else {
        all_signatures(table, n - 1) + signatures_of(table[n - 1].functions)
    }
}

/// One function marker for each signature.
pub open spec fn function_markers(sigs: Seq<SignatureView>) -> Seq<ScopeView> {
    Seq::new(sigs.len(), |i: int| ScopeView::Func(sigs[i].name))
}

/// One variable marker for each variable.
pub open spec fn variable_markers(vars: Seq<VariableView>) -> Seq<ScopeView> {
    Seq::new(vars.len(), |i: int| ScopeView::Variable(vars[i].name))
}

/// The first parameter from `from` on whose type holds an array with a
/// length that is not positive.
pub open spec fn first_bad_parameter(params: Seq<VariableView>, from: int) -> Option<int>
    decreases params.len() - from,
{
    if from < 0 || from >= params.len() {
        None
    } else if !positive_lengths(params[from].ty) {
        Some(from)
    } else {
        first_bad_parameter(params, from + 1)
    }
}

/// The analysis of one function, given the signatures of all functions of
/// all nodes: the types of its parameters are well formed; its body passes
/// scope resolution, from a scope that holds every function of every node
/// and its own parameters; then type checking and return-path checking,
/// both with all the variables that scope resolution found. The result is
/// the function with those variables.
pub open spec fn analyze_function(sigs: Seq<SignatureView>, f: FunctionView) -> Result<FunctionView, usize> {
    if first_bad_parameter(f.params, 0) is Some {
        Err(MALFORMED_ARRAY_TYPE)
    } else {
        let start = Scope {
            stack: function_markers(sigs) + variable_markers(f.locals),
            locals: f.locals,
        };
        match scope_check(start, f.body) {
            Err(e) => Err(e),
            Ok(sc) => {
                let env = Env { functions: sigs, locals: sc.locals };
                match type_check(env, f.body) {
                    Err(e) => Err(e),
                    Ok(_) => match return_check(env, f.body, f.return_type) {
                        Err(e) => Err(e),
                        Ok(_) => Ok(FunctionView { locals: sc.locals, ..f }),
                    },
                }
            },
        }
    }
}

/// The analysis of the first `n` functions of a list, in order: the first
/// error, or the analyzed functions.
pub open spec fn analyze_functions(sigs: Seq<SignatureView>, fs: Seq<FunctionView>, n: int) -> Result<
    Seq<FunctionView>,
    usize,
>
    decreases n,
{
    if n <= 0 || n > fs.len() {
        Ok(Seq::empty())
    } else {
        match analyze_functions(sigs, fs, n - 1) {
            Err(e) => Err(e),
            Ok(done) => match analyze_function(sigs, fs[n - 1]) {
                Err(e) => Err(e),
                Ok(f) => Ok(done.push(f)),
            },
        }
    }
}

/// The analysis of the first `n` nodes of a symbol table, in order: the
/// first error, or the nodes with their analyzed functions.
pub open spec fn analyze_nodes(sigs: Seq<SignatureView>, table: Seq<NodeView>, n: int) -> Result<
    Seq<NodeView>,
    usize,
>
    decreases n,
{
    if n <= 0 || n > table.len() {
        Ok(Seq::empty())
    } else {
        match analyze_nodes(sigs, table, n - 1) {
            Err(e) => Err(e),
            Ok(done) => match analyze_functions(
                sigs,
                table[n - 1].functions,
                table[n - 1].functions.len() as int,
            ) {
                Err(e) => Err(e),
                Ok(fs) => Ok(done.push(NodeView { name: table[n - 1].name, functions: fs })),
            },
        }
    }
}

/// The analysis of a program: its dependency graph, and its symbol table
/// with every function analyzed; or the first error, by its code.
pub open spec fn analyze(ast: AstView) -> Result<SourceView, usize> {
    match seed(ast, Seq::empty()) {
        Err(e) => Err(e),
        Ok(table) => match analyze_nodes(
            all_signatures(table, table.len() as int),
            table,
            table.len() as int,
        ) {
            Err(e) => Err(e),
            Ok(checked) => Ok(SourceView { graph: graph_of(ast), table: checked }),
        },
    }
}

proof fn lemma_function_error_sticks(sigs: Seq<SignatureView>, fs: Seq<FunctionView>, n: int, m: int)
    requires
        0 <= n <= m <= fs.len(),
        analyze_functions(sigs, fs, n) is Err,
    ensures
        analyze_functions(sigs, fs, m) == analyze_functions(sigs, fs, n),
    decreases m - n,
{
    if n < m {
        lemma_function_error_sticks(sigs, fs, n, m - 1);
    }
}

proof fn lemma_node_error_sticks(sigs: Seq<SignatureView>, table: Seq<NodeView>, n: int, m: int)
    requires
        0 <= n <= m <= table.len(),
        analyze_nodes(sigs, table, n) is Err,
    ensures
        analyze_nodes(sigs, table, m) == analyze_nodes(sigs, table, n),
    decreases m - n,
{
    if n < m {
        lemma_node_error_sticks(sigs, table, n, m - 1);
    }
}

/// What the analysis of a function shows: its body passes scope
/// resolution from the scope of all functions and its own parameters, no
/// declaration in it shadows a name in scope, its assignments and
/// declarations are well typed, and its `return` statements are what its
/// declaration asks for. The analyzed function is the function with the
/// variables that scope resolution found.
pub proof fn lemma_analyzed_function_sound(sigs: Seq<SignatureView>, f: FunctionView)
    requires
        analyze_function(sigs, f) is Ok,
    ensures
        ({
            let g = analyze_function(sigs, f)->Ok_0;
            let start = Scope {
                stack: function_markers(sigs) + variable_markers(f.locals),
                locals: f.locals,
            };
            let env = Env { functions: sigs, locals: g.locals };
            &&& g == (FunctionView { locals: g.locals, ..f })
            &&& scope_check(start, f.body) matches Ok(sc) && sc.locals == g.locals
            &&& type_check(env, f.body) is Ok
            &&& return_sound(env, f.body, f.return_type)
        }),
{
}

/// The analyzed functions are the analyses of the functions, one for one.
pub proof fn lemma_analyzed_functions(sigs: Seq<SignatureView>, fs: Seq<FunctionView>, n: int, j: int)
    requires
        0 <= j < n <= fs.len(),
        analyze_functions(sigs, fs, n) is Ok,
    ensures
        ({
            let done = analyze_functions(sigs, fs, n)->Ok_0;
            done.len() == n && analyze_function(sigs, fs[j]) == Ok::<FunctionView, usize>(done[j])
        }),
    decreases n,
{
    lemma_analyzed_functions_len(sigs, fs, n);
    lemma_analyzed_functions_len(sigs, fs, n - 1);
    if j < n - 1 {
        lemma_analyzed_functions(sigs, fs, n - 1, j);
    }
}

proof fn lemma_analyzed_functions_len(sigs: Seq<SignatureView>, fs: Seq<FunctionView>, n: int)
    requires
        0 <= n <= fs.len(),
    ensures
        analyze_functions(sigs, fs, n) matches Ok(done) ==> done.len() == n,
    decreases n,
{
    if n > 0 {
        lemma_analyzed_functions_len(sigs, fs, n - 1);
    }
}

proof fn lemma_analyzed_nodes_len(sigs: Seq<SignatureView>, table: Seq<NodeView>, n: int)
    requires
        0 <= n <= table.len(),
    ensures
        analyze_nodes(sigs, table, n) matches Ok(done) ==> done.len() == n,
    decreases n,
{
    if n > 0 {
        lemma_analyzed_nodes_len(sigs, table, n - 1);
    }
}

/// Every function of an analyzed program passed the analysis. The nodes of
/// the analyzed symbol table are the declared nodes, one for one, and each
/// of their functions is the analysis of the declared function.
pub proof fn lemma_analyzed_nodes(
    sigs: Seq<SignatureView>,
    table: Seq<NodeView>,
    n: int,
    i: int,
    j: int,
)
    requires
        0 <= i < n <= table.len(),
        0 <= j < table[i].functions.len(),
        analyze_nodes(sigs, table, n) is Ok,
    ensures
        ({
            let done = analyze_nodes(sigs, table, n)->Ok_0;
            &&& done.len() == n
            &&& done[i].name == table[i].name
            &&& done[i].functions.len() == table[i].functions.len()
            &&& analyze_function(sigs, table[i].functions[j]) == Ok::<FunctionView, usize>(
                done[i].functions[j],
            )
        }),
    decreases n,
{
    lemma_analyzed_nodes_len(sigs, table, n);
    lemma_analyzed_nodes_len(sigs, table, n - 1);
    if i < n - 1 {
        lemma_analyzed_nodes(sigs, table, n - 1, i, j);
    } else {
        lemma_analyzed_functions(
            sigs,
            table[i].functions,
            table[i].functions.len() as int,
            j,
        );
    }
}

/// The signatures of the functions of all nodes of a symbol table.
pub fn collect_signatures(table: &Vec<NodeEntry>) -> (r: Vec<Signature>)
    ensures
        seq_view(r@) == all_signatures(seq_view(table@), table@.len() as int),
{
    let mut out: Vec<Signature> = Vec::new();
    assert(seq_view(out@) =~= Seq::<SignatureView>::empty());
    let mut i: usize = 0;
    while i < table.len()
        invariant
            i <= table.len(),
            seq_view(out@) == all_signatures(seq_view(table@), i as int),
        decreases table.len() - i,
    {
        let fs = &table[i].functions;
        let ghost before = seq_view(out@);
        let mut k: usize = 0;
        while k < fs.len()
            invariant
                k <= fs.len(),
                seq_view(out@) == before + signatures_of(seq_view(fs@)).subrange(0, k as int),
            decreases fs.len() - k,
        {
            let sig = fs[k].signature();
            proof {
                lemma_seq_view_push(out@, sig);
            }
            out.push(sig);
            k += 1;
            assert(seq_view(out@) =~= before + signatures_of(seq_view(fs@)).subrange(0, k as int));
        }
        assert(signatures_of(seq_view(fs@)).subrange(0, fs@.len() as int) =~= signatures_of(
            seq_view(fs@),
        ));
        i += 1;
    }
    out
}

/// The scope in which the resolution of a function body starts.
fn starting_stack(sigs: &Vec<Signature>, locals: &Vec<Variable>) -> (r: Vec<ScopeElem>)
    ensures
        seq_view(r@) == function_markers(seq_view(sigs@)) + variable_markers(seq_view(locals@)),
{
    let mut stack: Vec<ScopeElem> = Vec::new();
    let mut i: usize = 0;
    while i < sigs.len()
        invariant
            i <= sigs.len(),
            seq_view(stack@) =~= function_markers(seq_view(sigs@)).subrange(0, i as int),
        decreases sigs.len() - i,
    {
        let m = ScopeElem::Func(sigs[i].name.clone());
        proof {
            lemma_seq_view_push(stack@, m);
        }
        stack.push(m);
        i += 1;
    }
    let mut k: usize = 0;
    while k < locals.len()
        invariant
            k <= locals.len(),
            seq_view(stack@) =~= function_markers(seq_view(sigs@)) + variable_markers(
                seq_view(locals@),
            ).subrange(0, k as int),
        decreases locals.len() - k,
    {
        let m = ScopeElem::Variable(locals[k].name.clone());
        proof {
            lemma_seq_view_push(stack@, m);
        }
        stack.push(m);
        k += 1;
    }
    assert(variable_markers(seq_view(locals@)).subrange(0, locals@.len() as int)
        =~= variable_markers(seq_view(locals@)));
    stack
}

fn parameters_well_formed(params: &Vec<Variable>) -> (r: bool)
    ensures
        r == first_bad_parameter(seq_view(params@), 0) is None,
{
    let mut i: usize = 0;
    while i < params.len()
        invariant
            i <= params.len(),
            first_bad_parameter(seq_view(params@), 0) == first_bad_parameter(
                seq_view(params@),
                i as int,
            ),
        decreases params.len() - i,
    {
        if !has_positive_lengths(&params[i].ty) {
            return false;
        }
        i += 1;
    }
    true
}

/// The analysis of one function.
pub fn check_function(sigs: &Vec<Signature>, f: &FunctionEntry) -> (r: Result<FunctionEntry, usize>)
    ensures
        agrees(r, analyze_function(seq_view(sigs@), f@)),
{
    if !parameters_well_formed(&f.params) {
        return Err(MALFORMED_ARRAY_TYPE);
    }
    let mut stack = starting_stack(sigs, &f.locals);
    let mut var_set = clone_variables(&f.locals);
    check_semantics_helper(&mut stack, &mut var_set, &f.body)?;
    check_types(sigs, &var_set, &f.body)?;
    check_return(sigs, &var_set, &f.body, &f.return_type)?;
    Ok(
        FunctionEntry {
            name: f.name.clone(),
            return_type: f.return_type.clone(),
            params: clone_variables(&f.params),
            locals: var_set,
            body: f.body.clone(),
        },
    )
}

/// The analysis of every function of every node of a symbol table.
pub fn check_semantics(symbol_table: &Vec<NodeEntry>) -> (r: Result<Vec<NodeEntry>, usize>)
    ensures
        agrees_all(
            r,
            analyze_nodes(
                all_signatures(seq_view(symbol_table@), symbol_table@.len() as int),
                seq_view(symbol_table@),
                symbol_table@.len() as int,
            ),
        ),
{
    let sigs = collect_signatures(symbol_table);
    let ghost table = seq_view(symbol_table@);
    let mut out: Vec<NodeEntry> = Vec::new();
    assert(seq_view(out@) =~= Seq::<NodeView>::empty());
    let mut i: usize = 0;
    while i < symbol_table.len()
        invariant
            i <= symbol_table.len(),
            table == seq_view(symbol_table@),
            seq_view(sigs@) == all_signatures(table, symbol_table@.len() as int),
            analyze_nodes(seq_view(sigs@), table, i as int) == Ok::<Seq<NodeView>, usize>(
                seq_view(out@),
            ),
        decreases symbol_table.len() - i,
    {
        let node = &symbol_table[i];
        let mut fs: Vec<FunctionEntry> = Vec::new();
        assert(seq_view(fs@) =~= Seq::<FunctionView>::empty());
        let mut k: usize = 0;
        while k < node.functions.len()
            invariant
                k <= node.functions.len(),
                i < symbol_table.len(),
                table == seq_view(symbol_table@),
                node == symbol_table@[i as int],
                seq_view(sigs@) == all_signatures(table, symbol_table@.len() as int),
                analyze_nodes(seq_view(sigs@), table, i as int) is Ok,
                analyze_functions(seq_view(sigs@), seq_view(node.functions@), k as int) == Ok::<
                    Seq<FunctionView>,
                    usize,
                >(seq_view(fs@)),
            decreases node.functions.len() - k,
        {
            match check_function(&sigs, &node.functions[k]) {
                Err(e) => {
                    proof {
                        let fv = seq_view(node.functions@);
                        assert(table[i as int].functions == fv);
                        assert(analyze_functions(seq_view(sigs@), fv, k + 1) == Err::<
                            Seq<FunctionView>,
                            usize,
                        >(e));
                        lemma_function_error_sticks(
                            seq_view(sigs@),
                            seq_view(node.functions@),
                            k + 1,
                            node.functions@.len() as int,
                        );
                        assert(analyze_nodes(seq_view(sigs@), table, i + 1) == Err::<
                            Seq<NodeView>,
                            usize,
                        >(e));
                        lemma_node_error_sticks(
                            seq_view(sigs@),
                            table,
                            i + 1,
                            symbol_table@.len() as int,
                        );
                    }
                    return Err(e);
                },
                Ok(f) => {
                    proof {
                        lemma_seq_view_push(fs@, f);
                    }
                    fs.push(f);
                },
            }
            k += 1;
        }
        let entry = NodeEntry { name: node.name.clone(), functions: fs };
        proof {
            lemma_seq_view_push(out@, entry);
        }
        out.push(entry);
        i += 1;
    }
    Ok(out)
}

/// Whether an outcome of emission is what is wanted: the error wanted, or
/// a value whose view is the value wanted.
pub open spec fn produced<T: View>(r: Result<T, CodegenError>, want: Result<T::V, CodegenError>) -> bool {
    match want {
        Ok(v) => r matches Ok(x) && x@ == v,
        Err(e) => r matches Err(c) && c == e,
    }
}

/// The analyzed program.
#[derive(Debug, PartialEq)]
pub struct Source {
    /// For every node, in source order, the nodes it depends on.
    pub graph: Vec<Dependencies>,
    /// For every node, in source order, its functions with their variables.
    pub symbol_table: Vec<NodeEntry>,
}

impl View for Source {
    type V = SourceView;

    open spec fn view(&self) -> SourceView {
        SourceView { graph: seq_view(self.graph@), table: seq_view(self.symbol_table@) }
    }
}

impl Source {
    /// Analyzes the syntax tree of a parser: builds the dependency graph
    /// and the symbol table, and checks every function. The error is the
    /// code of the first rule that the program breaks.
    pub fn new(parser: Parser) -> (r: Result<Source, usize>)
        ensures
            agrees(r, analyze(parser.ast@)),
    {
        let mut graph: Vec<Dependencies> = Vec::new();
        assert(seq_view(graph@) =~= Seq::<DependenciesView>::empty());
        create_node_graph(&mut graph, &parser.ast);
        assert(seq_view(graph@) =~= graph_of(parser.ast@));
        let mut seeded: Vec<NodeEntry> = Vec::new();
        assert(seq_view(seeded@) =~= Seq::<NodeView>::empty());
        seed_symbol_table(&mut seeded, &parser.ast)?;
        let symbol_table = check_semantics(&seeded)?;
        Ok(Source { graph, symbol_table })
    }
}

/// The images of the first `n` nodes of a symbol table, in order: one for
/// each node that has functions; or the first error.
pub open spec fn images_of(sigs: Seq<SignatureView>, table: Seq<NodeView>, n: int) -> Result<
    Seq<NodeImageView>,
    CodegenError,
>
    decreases n,
{
    if n <= 0 || n > table.len() {
        Ok(Seq::empty())
    } else {
        match images_of(sigs, table, n - 1) {
            Err(e) => Err(e),
            Ok(done) => if table[n - 1].functions.len() == 0 {
                Ok(done)
            } else {
                match emit_node(sigs, table[n - 1]) {
                    Err(e) => Err(e),
                    Ok(image) => Ok(done.push(image)),
                }
            },
        }
    }
}

proof fn lemma_image_error_sticks(sigs: Seq<SignatureView>, table: Seq<NodeView>, n: int, m: int)
    requires
        0 <= n <= m <= table.len(),
        images_of(sigs, table, n) is Err,
    ensures
        images_of(sigs, table, m) == images_of(sigs, table, n),
    decreases m - n,
{
    if n < m {
        lemma_image_error_sticks(sigs, table, n, m - 1);
    }
}

/// What a program compiles to: the image of every node that has
/// functions, and the text of the dependency graph.
#[derive(Debug, PartialEq)]
pub struct Compiled {
    pub images: Vec<NodeImage>,
    pub graph: String,
}

/// The view of a [`Compiled`].
pub struct CompiledView {
    pub images: Seq<NodeImageView>,
    pub graph: Seq<char>,
}

impl View for Compiled {
    type V = CompiledView;

    open spec fn view(&self) -> CompiledView {
        CompiledView { images: seq_view(self.images@), graph: self.graph@ }
    }
}

/// Puts the images and the text of the graph together: the program is
/// compiled when both are there, and the first error is returned when one
/// is not.
pub fn assemble(images: Result<Vec<NodeImage>, CodegenError>, graph: Result<String, CodegenError>) -> (r:
    Result<Compiled, CodegenError>)
    ensures
        match (images, graph) {
            (Err(e), _) => r matches Err(c) && c == e,
            (Ok(_), Err(e)) => r matches Err(c) && c == e,
            (Ok(i), Ok(g)) => r matches Ok(c) && c.images == i && c.graph == g,
        },
{
    match images {
        Err(e) => Err(e),
        Ok(images) => match graph {
            Err(e) => Err(e),
            Ok(graph) => Ok(Compiled { images, graph }),
        },
    }
}

impl Source {
    /// The images of all nodes that have functions, in source order.
    pub fn images(&self) -> (r: Result<Vec<NodeImage>, CodegenError>)
        ensures
            match images_of(
                all_signatures(self@.table, self@.table.len() as int),
                self@.table,
                self@.table.len() as int,
            ) {
                Ok(v) => r matches Ok(x) && seq_view(x@) == v,
                Err(e) => r matches Err(c) && c == e,
            },
    {
        let sigs = collect_signatures(&self.symbol_table);
        let ghost table = seq_view(self.symbol_table@);
        let mut out: Vec<NodeImage> = Vec::new();
        assert(seq_view(out@) =~= Seq::<NodeImageView>::empty());
        let mut i: usize = 0;
        while i < self.symbol_table.len()
            invariant
                i <= self.symbol_table.len(),
                table == seq_view(self.symbol_table@),
                seq_view(sigs@) == all_signatures(table, table.len() as int),
                images_of(seq_view(sigs@), table, i as int) == Ok::<
                    Seq<NodeImageView>,
                    CodegenError,
                >(seq_view(out@)),
            decreases self.symbol_table.len() - i,
        {
            let node = &self.symbol_table[i];
            assert(table[i as int] == node@);
            if node.functions.len() > 0 {
                match generate_bytecode(&sigs, node) {
                    Err(e) => {
                        proof {
                            assert(images_of(seq_view(sigs@), table, i + 1) is Err);
                            lemma_image_error_sticks(
                                seq_view(sigs@),
                                table,
                                i + 1,
                                table.len() as int,
                            );
                        }
                        return Err(e);
                    },
                    Ok(image) => {
                        proof {
                            lemma_seq_view_push(out@, image);
                        }
                        out.push(image);
                    },
                }
            }
            i += 1;
        }
        Ok(out)
    }

    /// Compiles the program: the image of every node that has functions,
    /// in source order, and the text of the dependency graph.
    ///
    /// An error of emission is returned as it is. When emission succeeds,
    /// so does compilation, and the result is the images and the text of
    /// the graph.
    pub fn compile(&self) -> (r: Result<Compiled, CodegenError>)
        ensures
            match images_of(
                all_signatures(self@.table, self@.table.len() as int),
                self@.table,
                self@.table.len() as int,
            ) {
                Ok(v) => r matches Ok(c) && c@.images == v && c@.graph == graph_text(self@.graph),
                Err(e) => r matches Err(c) && c == e,
            },
    {
        let images = self.images();
        let graph = encode_graph(&self.graph);
        assemble(images, graph)
    }
}


} // verus!
