use nodelang::lexer::Lexer;
use nodelang::parser::Parser;
use nodelang::source::{describe, Source};
use nodelang::symbols::{Dependencies, ReturnKind, Variable};
use nodelang::types::Type;

fn analyze(src: &str) -> Result<Source, usize> {
    let mut p = Parser::new(Lexer::new(src.chars().collect()));
    assert_eq!(p.parse(), Ok(()));
    p.generate_ast();
    Source::new(p)
}

fn code_of(src: &str) -> usize {
    match analyze(src) {
        Ok(_) => 0,
        Err(c) => c,
    }
}

fn in_main(body: &str) -> String {
    format!("node A {{ fn main() -> () {{ {} }} }}", body)
}

fn var(name: &str, ty: Type) -> Variable {
    Variable { name: name.to_string(), ty }
}

#[test]
fn analyzes_a_program_of_one_node() {
    let s = analyze("node A { fn main() -> int { return 1 + 2 * 3; } }").unwrap();
    assert_eq!(s.graph, vec![Dependencies { node: "A".to_string(), needs: vec![] }]);
    assert_eq!(s.symbol_table.len(), 1);
    assert_eq!(s.symbol_table[0].name, "A");
    assert_eq!(s.symbol_table[0].functions.len(), 1);
    let f = &s.symbol_table[0].functions[0];
    assert_eq!(f.name, "main");
    assert_eq!(f.return_type, ReturnKind::Value(Type::Int));
    assert_eq!(f.params, vec![]);
    assert_eq!(f.locals, vec![]);
}

#[test]
fn the_graph_lists_dependencies_in_order() {
    let s = analyze("node A: B { fn main() -> () {} }  node B { fn main() -> () {} }").unwrap();
    assert_eq!(
        s.graph,
        vec![
            Dependencies { node: "A".to_string(), needs: vec!["B".to_string()] },
            Dependencies { node: "B".to_string(), needs: vec![] },
        ]
    );
    let s = analyze("node A: C, B { } node B { } node C: A { }").unwrap();
    assert_eq!(
        s.graph,
        vec![
            Dependencies { node: "A".to_string(), needs: vec!["C".to_string(), "B".to_string()] },
            Dependencies { node: "B".to_string(), needs: vec![] },
            Dependencies { node: "C".to_string(), needs: vec!["A".to_string()] },
        ]
    );
}

#[test]
fn locals_hold_parameters_first_then_declarations() {
    let s = analyze(
        "node A { fn f(a: int, b: char) -> () { var c: bool = true; if c { const d: float = 1.5; } } }",
    )
    .unwrap();
    let f = &s.symbol_table[0].functions[0];
    assert_eq!(f.params, vec![var("a", Type::Int), var("b", Type::Char)]);
    assert_eq!(
        f.locals,
        vec![
            var("a", Type::Int),
            var("b", Type::Char),
            var("c", Type::Bool),
            var("d", Type::Float)
        ]
    );
}

#[test]
fn duplicate_node_is_rejected() {
    assert_eq!(code_of("node A { } node A { }"), 1);
}

#[test]
fn duplicate_function_is_rejected() {
    assert_eq!(code_of("node A { fn f() -> () { } fn f() -> () { } }"), 2);
    assert_eq!(code_of("node A { fn f() -> () { } } node B { fn f() -> () { } }"), 0);
}

#[test]
fn duplicate_parameter_is_rejected() {
    assert_eq!(code_of("node A { fn f(a: int, a: int) -> () { } }"), 3);
    assert_eq!(code_of("node A { fn f(a: int, b: int, a: float) -> () { } }"), 3);
}

#[test]
fn shadowing_is_rejected() {
    assert_eq!(code_of(&in_main("var x:int = 1; var x:int = 2;")), 5);
    assert_eq!(code_of(&in_main("var x:int = 1; const x:int = 2;")), 4);
    assert_eq!(code_of(&in_main("const x:int = 1; var x:int = 2;")), 5);
    assert_eq!(code_of(&in_main("var x:int = 1; while true { var x:int = 2; }")), 5);
    assert_eq!(code_of(&in_main("var x:int = 1; if true { } else { var x:int = 2; }")), 5);
    assert_eq!(code_of("node A { fn f(x: int) -> () { var x:int = 2; } }"), 5);
}

#[test]
fn a_name_leaves_scope_with_its_block() {
    assert_eq!(code_of(&in_main("if true { var x:int = 1; } var x:int = 2;")), 0);
    assert_eq!(code_of(&in_main("while true { var x:int = 1; } while true { var x:int = 2; }")), 0);
    assert_eq!(code_of(&in_main("if true { var x:int = 1; } x = 2;")), 16);
}

#[test]
fn unknown_names_are_rejected() {
    assert_eq!(code_of(&in_main("var x:int = y;")), 6);
    assert_eq!(code_of(&in_main("x = 1;")), 16);
    assert_eq!(code_of(&in_main("const c:int = 1; c = 2;")), 16);
    assert_eq!(code_of(&in_main("f();")), 7);
    assert_eq!(code_of(&in_main("var x:int = f();")), 7);
}

#[test]
fn built_in_print_functions_resolve() {
    assert_eq!(
        code_of(&in_main(
            "print_int(1); print_float(1.5); print_bool(true); print_char('c'); println();"
        )),
        0
    );
}

#[test]
fn functions_of_other_nodes_resolve() {
    assert_eq!(
        code_of("node A { fn main() -> () { var x:int = g(1); } } node B { fn g(a: int) -> int { return a; } }"),
        0
    );
}

#[test]
fn declaration_type_mismatch_is_rejected() {
    assert_eq!(code_of(&in_main("var x:int = 1.0;")), 8);
    assert_eq!(code_of(&in_main("var x:bool = 'c';")), 8);
    assert_eq!(code_of(&in_main("var a:[int; 2] = [1, 2, 3];")), 8);
    assert_eq!(code_of(&in_main("var a:[int; 3] = [1, 2, 3];")), 0);
}

#[test]
fn assignment_type_mismatch_is_rejected() {
    assert_eq!(code_of(&in_main("var x:int = 1; x = true;")), 9);
    assert_eq!(code_of(&in_main("var a:[int; 2] = [1, 2]; a[0] = 'c';")), 9);
    assert_eq!(code_of(&in_main("var a:[int; 2] = [1, 2]; a[0] = 5;")), 0);
    assert_eq!(code_of(&in_main("var a:[[int; 2]; 2] = [[1, 2], [3, 4]]; a[0][1] = 5;")), 0);
    assert_eq!(code_of(&in_main("var a:[[int; 2]; 2] = [[1, 2], [3, 4]]; a[0] = [5, 6];")), 0);
}

#[test]
fn conditions_are_typed_by_the_rules_of_their_operators() {
    assert_eq!(code_of(&in_main("while 1 < 'c' { }")), 11);
    assert_eq!(code_of(&in_main("if true && 1 { }")), 11);
    assert_eq!(code_of(&in_main("while 1 && 2 { }")), 11);
    assert_eq!(code_of(&in_main("if 1 < 2 || true && 1 { }")), 11);
    assert_eq!(code_of(&in_main("while true && false { }")), 0);
    assert_eq!(code_of(&in_main("if 1 < 2 && 'a' != 'b' { }")), 0);
    assert_eq!(code_of(&in_main("var x:int = 1; while x < 3 { x = x + 1; }")), 0);
    assert_eq!(code_of(&in_main("while y < 3 { }")), 12);
    assert_eq!(code_of(&in_main("if y { }")), 12);
}

#[test]
fn call_statements_must_fit_a_function() {
    let with = |call: &str| {
        format!(
            "node A {{ fn f(a: int) -> () {{ }} fn main() -> () {{ {} }} }}",
            call
        )
    };
    assert_eq!(code_of(&with("f(1);")), 0);
    assert_eq!(code_of(&with("f(true);")), 13);
    assert_eq!(code_of(&with("f();")), 13);
    assert_eq!(code_of(&with("f(1, 2);")), 13);
    assert_eq!(code_of(&with("f(1 + true);")), 11);
    assert_eq!(code_of(&with("if true { f('c'); }")), 13);
    assert_eq!(code_of(&with("while true { f(2); }")), 0);
}

#[test]
fn print_functions_take_one_argument_of_any_type() {
    assert_eq!(code_of(&in_main("print_int(1); print_float(1.5); print_bool(true); print_char('c');")), 0);
    assert_eq!(code_of(&in_main("print_int('c'); print_char(1);")), 0);
    assert_eq!(code_of(&in_main("println();")), 0);
    assert_eq!(code_of(&in_main("print_int();")), 13);
    assert_eq!(code_of(&in_main("print_int(1, 2);")), 13);
    assert_eq!(code_of(&in_main("println(1);")), 13);
    assert_eq!(code_of(&in_main("print_int(1 + true);")), 11);
}

#[test]
fn operand_mismatch_is_rejected() {
    assert_eq!(code_of(&in_main("var x:int = 1 + 'c';")), 11);
    assert_eq!(code_of(&in_main("var x:bool = true + false;")), 11);
    assert_eq!(code_of(&in_main("var x:bool = 1 && 2;")), 11);
    assert_eq!(code_of(&in_main("var x:bool = 1 < 2.0;")), 11);
    assert_eq!(code_of(&in_main("var x:bool = 1 < 2;")), 0);
    assert_eq!(code_of(&in_main("var x:bool = true == false;")), 11);
    assert_eq!(code_of(&in_main("if true == false { }")), 11);
    assert_eq!(code_of(&in_main("var x:char = 'a' + 'b';")), 0);
}

#[test]
fn call_signature_mismatch_is_rejected() {
    let with = |call: &str| {
        format!(
            "node A {{ fn f(a: int, b: float) -> int {{ return a; }} fn main() -> () {{ var x:int = {}; }} }}",
            call
        )
    };
    assert_eq!(code_of(&with("f(1, 2.0)")), 0);
    assert_eq!(code_of(&with("f(2.0, 1)")), 13);
    assert_eq!(code_of(&with("f(1)")), 13);
    assert_eq!(code_of(&with("f(1, f(1, 2.0))")), 13);
    assert_eq!(code_of(&with("f(f(1, 2.0), 2.0)")), 0);
}

#[test]
fn malformed_arrays_are_rejected() {
    assert_eq!(code_of(&in_main("var a:[int; 0] = [1];")), 17);
    assert_eq!(code_of("node A { fn f(a: [int; 0]) -> () { } }"), 17);
    assert_eq!(code_of(&in_main("var a:[int; 2] = [1, 'c'];")), 21);
    // An empty literal lowers to no tree at all, which is worth nothing.
    assert_eq!(code_of(&in_main("var a:[int; 1] = [];")), 8);
}

#[test]
fn indices_must_be_non_negative_integers_into_arrays() {
    assert_eq!(code_of(&in_main("var a:[int; 2] = [1, 2]; var x:int = a[-1];")), 22);
    assert_eq!(code_of(&in_main("var a:[int; 2] = [1, 2]; var x:int = a[true];")), 23);
    assert_eq!(code_of(&in_main("var a:[int; 2] = [1, 2]; var x:int = a[0][0];")), 23);
    assert_eq!(code_of(&in_main("var a:[int; 2] = [1, 2]; a[0][0] = 1;")), 23);
    assert_eq!(code_of(&in_main("var x:int = 1; var y:int = x[0];")), 23);
}

#[test]
fn unknown_variable_in_a_condition_is_a_type_error() {
    assert_eq!(code_of(&in_main("while x < 1 { }")), 12);
}

#[test]
fn return_paths_are_checked() {
    assert_eq!(code_of("node A { fn f() -> int { } }"), 20);
    assert_eq!(code_of("node A { fn f() -> int { return 1.5; } }"), 20);
    assert_eq!(code_of("node A { fn f() -> int { if true { return 1; } } }"), 0);
    assert_eq!(code_of("node A { fn f() -> () { return 1; } }"), 14);
    assert_eq!(code_of("node A { fn f() -> ! { while true { } } }"), 0);
    assert_eq!(code_of("node A { fn f() -> ! { while true { return 1; } } }"), 18);
    assert_eq!(code_of("node A { fn f() -> ! { var x:int = 1; while true { } } }"), 19);
    assert_eq!(code_of("node A { fn f() -> ! { } }"), 19);
}

#[test]
fn codes_have_diagnostics() {
    assert_eq!(describe(1), "duplicate node");
    assert_eq!(describe(5), "variable declared twice");
    assert_eq!(describe(20), "missing return");
    assert_eq!(describe(23), "index into what is no array");
    assert_eq!(describe(0), "unknown error");
    assert_eq!(describe(24), "unknown error");
}
