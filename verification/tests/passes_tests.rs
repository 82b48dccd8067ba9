use nodelang::ast::{AbstractSyntaxTree, SyntaxTreeNode};
use nodelang::bytecode::Image;
use nodelang::emit::{
    generate_expr_bytecode, generate_function_bytecode, generate_index_bytecode,
    generate_inputs_bytecode, stride_of, CodegenError, Frame, Slot,
};
use nodelang::lexer::Lexer;
use nodelang::parser::Parser;
use nodelang::return_paths::{
    check_return, check_return_func_1, check_return_func_2, check_return_func_3,
};
use nodelang::scope::{check_semantics_helper, ScopeElem};
use nodelang::source::Source;
use nodelang::symbols::{ReturnKind, Signature, Variable};
use nodelang::types::Type;
use nodelang::typing::{check_types, get_indexed, get_inputs, get_type};

fn tree(node: SyntaxTreeNode, children: Vec<AbstractSyntaxTree>) -> AbstractSyntaxTree {
    AbstractSyntaxTree { node, children }
}

fn leaf(node: SyntaxTreeNode) -> AbstractSyntaxTree {
    tree(node, vec![])
}

fn num(n: i32) -> AbstractSyntaxTree {
    leaf(SyntaxTreeNode::Integer(n))
}

fn id(name: &str) -> AbstractSyntaxTree {
    leaf(SyntaxTreeNode::Identifier(name.to_string()))
}

fn null() -> AbstractSyntaxTree {
    leaf(SyntaxTreeNode::Null)
}

fn list(items: Vec<AbstractSyntaxTree>) -> AbstractSyntaxTree {
    let mut out = null();
    for item in items.into_iter().rev() {
        out = tree(SyntaxTreeNode::InputList, vec![item, out]);
    }
    out
}

fn var(name: &str, ty: Type) -> Variable {
    Variable { name: name.to_string(), ty }
}

fn array(of: Type, n: i32) -> Type {
    Type::Array(Box::new(of), n)
}

fn sig(name: &str, ret: ReturnKind, params: Vec<Type>) -> Signature {
    Signature { name: name.to_string(), return_type: ret, params }
}

#[test]
fn literals_have_their_types() {
    let none: Vec<Signature> = vec![];
    let vars: Vec<Variable> = vec![];
    assert_eq!(get_type(&none, &vars, &num(1)), Ok(ReturnKind::Value(Type::Int)));
    assert_eq!(
        get_type(&none, &vars, &leaf(SyntaxTreeNode::True)),
        Ok(ReturnKind::Value(Type::Bool))
    );
    assert_eq!(
        get_type(&none, &vars, &leaf(SyntaxTreeNode::Character('c'))),
        Ok(ReturnKind::Value(Type::Char))
    );
    assert_eq!(get_type(&none, &vars, &null()), Ok(ReturnKind::Void));
    assert_eq!(get_type(&none, &vars, &id("x")), Err(12));
}

#[test]
fn names_have_the_type_of_the_first_variable_of_that_name() {
    let none: Vec<Signature> = vec![];
    let vars = vec![var("x", Type::Int), var("x", Type::Bool), var("a", array(array(Type::Char, 2), 3))];
    assert_eq!(get_type(&none, &vars, &id("x")), Ok(ReturnKind::Value(Type::Int)));
    let a0 = tree(
        SyntaxTreeNode::Identifier("a".to_string()),
        vec![tree(SyntaxTreeNode::Index, vec![num(0), null()])],
    );
    assert_eq!(get_type(&none, &vars, &a0), Ok(ReturnKind::Value(array(Type::Char, 2))));
    let a01 = tree(
        SyntaxTreeNode::Identifier("a".to_string()),
        vec![tree(
            SyntaxTreeNode::Index,
            vec![num(0), tree(SyntaxTreeNode::Index, vec![num(1), null()])],
        )],
    );
    assert_eq!(get_type(&none, &vars, &a01), Ok(ReturnKind::Value(Type::Char)));
}

#[test]
fn indices_strip_one_array_each() {
    let t = array(array(Type::Int, 2), 3);
    let one = tree(SyntaxTreeNode::Index, vec![num(0), null()]);
    let two = tree(SyntaxTreeNode::Index, vec![num(0), one.clone()]);
    let three = tree(SyntaxTreeNode::Index, vec![num(0), two.clone()]);
    assert_eq!(get_indexed(&t, &null()), Ok(t.clone()));
    assert_eq!(get_indexed(&t, &one), Ok(array(Type::Int, 2)));
    assert_eq!(get_indexed(&t, &two), Ok(Type::Int));
    assert_eq!(get_indexed(&t, &three), Err(23));
    let negative = tree(SyntaxTreeNode::Index, vec![num(-1), null()]);
    assert_eq!(get_indexed(&t, &negative), Err(22));
}

#[test]
fn inputs_have_the_types_of_their_expressions_in_order() {
    let sigs = vec![sig("f", ReturnKind::Value(Type::Float), vec![Type::Int])];
    let vars = vec![var("x", Type::Bool)];
    let call = tree(SyntaxTreeNode::FnCall, vec![id("f"), list(vec![num(1)])]);
    let inputs = list(vec![num(1), id("x"), call, list(vec![num(1), num(2)])]);
    assert_eq!(
        get_inputs(&sigs, &vars, &inputs),
        Ok(vec![
            ReturnKind::Value(Type::Int),
            ReturnKind::Value(Type::Bool),
            ReturnKind::Value(Type::Float),
            ReturnKind::Value(array(Type::Int, 2)),
        ])
    );
    assert_eq!(get_inputs(&sigs, &vars, &null()), Ok(vec![]));
    assert_eq!(get_inputs(&sigs, &vars, &list(vec![id("y")])), Err(12));
}

#[test]
fn calls_resolve_by_name_and_argument_types() {
    let sigs = vec![
        sig("f", ReturnKind::Value(Type::Int), vec![Type::Int]),
        sig("f", ReturnKind::Value(Type::Bool), vec![Type::Float]),
        sig("g", ReturnKind::Void, vec![]),
        sig("h", ReturnKind::NoReturn, vec![]),
    ];
    let vars: Vec<Variable> = vec![];
    let call = |name: &str, args: Vec<AbstractSyntaxTree>| {
        tree(SyntaxTreeNode::FnCall, vec![id(name), list(args)])
    };
    assert_eq!(
        get_type(&sigs, &vars, &call("f", vec![num(1)])),
        Ok(ReturnKind::Value(Type::Int))
    );
    let half = leaf(SyntaxTreeNode::Float(nodelang::token::FloatLiteral {
        negative: false,
        digits: "0.5".to_string(),
    }));
    assert_eq!(
        get_type(&sigs, &vars, &call("f", vec![half])),
        Ok(ReturnKind::Value(Type::Bool))
    );
    assert_eq!(get_type(&sigs, &vars, &call("g", vec![])), Ok(ReturnKind::Void));
    assert_eq!(get_type(&sigs, &vars, &call("h", vec![])), Ok(ReturnKind::NoReturn));
    assert_eq!(get_type(&sigs, &vars, &call("g", vec![num(1)])), Err(13));
    assert_eq!(
        get_type(&sigs, &vars, &call("print_bool", vec![num(1)])),
        Ok(ReturnKind::Value(Type::Int))
    );
    assert_eq!(get_type(&sigs, &vars, &call("print_bool", vec![num(1), num(2)])), Err(13));
    assert_eq!(get_type(&sigs, &vars, &call("print_bool", vec![])), Err(13));
    assert_eq!(get_type(&sigs, &vars, &call("println", vec![])), Ok(ReturnKind::Void));
    assert_eq!(get_type(&sigs, &vars, &call("println", vec![num(1)])), Err(13));
}

#[test]
fn assignments_are_checked_wherever_the_check_reaches() {
    let none: Vec<Signature> = vec![];
    let vars = vec![var("x", Type::Int)];
    let good = tree(SyntaxTreeNode::Assign, vec![id("x"), null(), num(1)]);
    let bad = tree(SyntaxTreeNode::Assign, vec![id("x"), null(), leaf(SyntaxTreeNode::True)]);
    let seq = |a: AbstractSyntaxTree, b: AbstractSyntaxTree| tree(SyntaxTreeNode::StmtSeq, vec![a, b]);
    assert_eq!(check_types(&none, &vars, &seq(good.clone(), null())), Ok(()));
    assert_eq!(check_types(&none, &vars, &seq(good.clone(), seq(bad.clone(), null()))), Err(9));
    let looped = tree(SyntaxTreeNode::WhileLoop, vec![leaf(SyntaxTreeNode::True), seq(bad, null())]);
    assert_eq!(check_types(&none, &vars, &seq(good, seq(looped, null()))), Err(9));
}

#[test]
fn a_return_of_the_wrong_type_is_a_mismatch() {
    let none: Vec<Signature> = vec![];
    let vars: Vec<Variable> = vec![];
    let ret = |e: AbstractSyntaxTree| tree(SyntaxTreeNode::ReturnValue, vec![e]);
    assert_eq!(check_return_func_2(&none, &vars, &ret(num(1)), &Type::Int), Ok(()));
    assert_eq!(check_return_func_2(&none, &vars, &ret(num(1)), &Type::Bool), Err(15));
    assert_eq!(check_return_func_2(&none, &vars, &ret(id("x")), &Type::Bool), Err(12));
    assert_eq!(check_return_func_2(&none, &vars, &null(), &Type::Bool), Err(20));
    let body = tree(SyntaxTreeNode::StmtSeq, vec![ret(num(1)), null()]);
    assert_eq!(check_return_func_2(&none, &vars, &body, &Type::Bool), Err(20));
    assert_eq!(check_return_func_2(&none, &vars, &body, &Type::Int), Ok(()));
    assert_eq!(check_return_func_1(&body), Err(14));
    assert_eq!(check_return_func_1(&null()), Ok(()));
    assert_eq!(check_return_func_3(&body), Err(18));
    assert_eq!(check_return_func_3(&null()), Err(19));
    let forever = tree(SyntaxTreeNode::WhileLoop, vec![leaf(SyntaxTreeNode::True), null()]);
    assert_eq!(check_return_func_3(&forever), Ok(()));
    assert_eq!(
        check_return_func_3(&tree(SyntaxTreeNode::StmtSeq, vec![forever.clone(), null()])),
        Ok(())
    );
    assert_eq!(check_return(&none, &vars, &forever, &ReturnKind::NoReturn), Ok(()));
    assert_eq!(check_return(&none, &vars, &forever, &ReturnKind::Void), Ok(()));
    assert_eq!(check_return(&none, &vars, &forever, &ReturnKind::Value(Type::Int)), Err(20));
}

#[test]
fn scope_resolution_keeps_the_stack_of_the_enclosing_block() {
    let mut stack = vec![ScopeElem::Func("f".to_string()), ScopeElem::Variable("p".to_string())];
    let mut vars = vec![var("p", Type::Int)];
    let decl = |name: &str, value: AbstractSyntaxTree| {
        tree(
            SyntaxTreeNode::DeclareVar,
            vec![id(name), leaf(SyntaxTreeNode::TypeName(Type::Int)), value],
        )
    };
    let seq = |a: AbstractSyntaxTree, b: AbstractSyntaxTree| tree(SyntaxTreeNode::StmtSeq, vec![a, b]);
    let body = seq(
        decl("a", id("p")),
        seq(
            tree(
                SyntaxTreeNode::IfStmt,
                vec![leaf(SyntaxTreeNode::True), seq(decl("b", id("a")), null()), null()],
            ),
            null(),
        ),
    );
    assert_eq!(check_semantics_helper(&mut stack, &mut vars, &body), Ok(()));
    assert_eq!(
        stack,
        vec![
            ScopeElem::Func("f".to_string()),
            ScopeElem::Variable("p".to_string()),
            ScopeElem::Variable("a".to_string()),
        ]
    );
    assert_eq!(vars, vec![var("p", Type::Int), var("a", Type::Int), var("b", Type::Int)]);
    // The name is in scope: a second declaration is rejected wherever it stands.
    let again = tree(
        SyntaxTreeNode::WhileLoop,
        vec![leaf(SyntaxTreeNode::True), seq(decl("a", num(1)), null())],
    );
    assert_eq!(check_semantics_helper(&mut stack, &mut vars, &again), Err(5));
}

#[test]
fn a_refused_redeclaration_leaves_the_scope_as_it_was() {
    let scope = || {
        vec![
            ScopeElem::Func("f".to_string()),
            ScopeElem::Variable("x".to_string()),
            ScopeElem::Const("k".to_string()),
        ]
    };
    let found = || vec![var("x", Type::Int), var("k", Type::Bool)];
    let decl = |node: SyntaxTreeNode, name: &str, value: AbstractSyntaxTree| {
        tree(node, vec![id(name), leaf(SyntaxTreeNode::TypeName(Type::Int)), value])
    };
    let sum = || tree(SyntaxTreeNode::AddOp, vec![id("x"), num(1)]);
    for (node, name, code) in [
        (SyntaxTreeNode::DeclareVar, "x", 5),
        (SyntaxTreeNode::DeclareVar, "k", 5),
        (SyntaxTreeNode::DeclareConst, "x", 4),
        (SyntaxTreeNode::DeclareConst, "k", 4),
    ] {
        let mut stack = scope();
        let mut vars = found();
        assert_eq!(check_semantics_helper(&mut stack, &mut vars, &decl(node, name, sum())), Err(code));
        assert_eq!(stack, scope());
        assert_eq!(vars, found());
    }
}

fn frame_parts() -> (Vec<Signature>, Vec<Variable>, Vec<Slot>) {
    let vars = vec![var("x", Type::Int), var("a", array(array(Type::Char, 2), 3))];
    let slots = vec![
        Slot { name: "x".to_string(), ty: Type::Int, addr: 0 },
        Slot { name: "a".to_string(), ty: array(array(Type::Char, 2), 3), addr: 4 },
    ];
    (vec![], vars, slots)
}

#[test]
fn an_unknown_variable_stops_emission() {
    let (sigs, vars, slots) = frame_parts();
    let frame = Frame { functions: &sigs, locals: &vars, slots: &slots };
    let mut img = Image::new();
    assert_eq!(generate_expr_bytecode(&frame, &mut img, &id("y")), Err(CodegenError::UnknownVariable));
    let store = tree(SyntaxTreeNode::Assign, vec![id("y"), null(), num(1)]);
    assert_eq!(
        generate_function_bytecode(&frame, &mut img, &store),
        Err(CodegenError::UnknownVariable)
    );
}

#[test]
fn an_untyped_operand_stops_emission() {
    let (sigs, vars, slots) = frame_parts();
    let frame = Frame { functions: &sigs, locals: &vars, slots: &slots };
    let mut img = Image::new();
    let sum = tree(SyntaxTreeNode::AddOp, vec![num(1), leaf(SyntaxTreeNode::True)]);
    assert_eq!(generate_expr_bytecode(&frame, &mut img, &sum), Err(CodegenError::IllTyped(11)));
}

#[test]
fn an_ill_typed_argument_of_a_call_statement_is_rejected() {
    let mut p = Parser::new(Lexer::new(
        "node A { fn main() -> () { print_int(1 + true); } }".chars().collect(),
    ));
    assert_eq!(p.parse(), Ok(()));
    p.generate_ast();
    assert_eq!(Source::new(p).err(), Some(11));
}

#[test]
fn an_ill_typed_call_statement_stops_emission() {
    let (sigs, vars, slots) = frame_parts();
    let frame = Frame { functions: &sigs, locals: &vars, slots: &slots };
    let mut img = Image::new();
    let sum = tree(SyntaxTreeNode::AddOp, vec![num(1), leaf(SyntaxTreeNode::True)]);
    let call = tree(SyntaxTreeNode::FnCall, vec![id("print_int"), list(vec![sum])]);
    assert_eq!(
        generate_function_bytecode(&frame, &mut img, &call),
        Err(CodegenError::IllTyped(11))
    );
}

#[test]
fn index_computations_multiply_and_add() {
    let (sigs, vars, slots) = frame_parts();
    let frame = Frame { functions: &sigs, locals: &vars, slots: &slots };
    let mut img = Image::new();
    let index = tree(
        SyntaxTreeNode::Index,
        vec![id("x"), tree(SyntaxTreeNode::Index, vec![num(1), null()])],
    );
    assert_eq!(generate_index_bytecode(&frame, &mut img, &index, &slots[1].ty), Ok(()));
    assert_eq!(
        img.bytes,
        vec![
            0x22, 0, 0, 0, 0, // load x
            0x10, 0, 0, 0, 2, // the bytes of a row of two characters
            0x34, // times
            0x10, 0, 0, 0, 1, // 1
            0x10, 0, 0, 0, 1, // the byte of a character
            0x34, // times
            0x30, // plus
        ]
    );
}

#[test]
fn indices_into_rows_of_integers_stride_by_eight_and_four() {
    let ty = array(array(Type::Int, 2), 3);
    let vars = vec![var("a", array(array(Type::Int, 2), 3))];
    let slots = vec![Slot { name: "a".to_string(), ty: array(array(Type::Int, 2), 3), addr: 0 }];
    let sigs: Vec<Signature> = vec![];
    let frame = Frame { functions: &sigs, locals: &vars, slots: &slots };
    let mut img = Image::new();
    let index = tree(
        SyntaxTreeNode::Index,
        vec![num(1), tree(SyntaxTreeNode::Index, vec![num(0), null()])],
    );
    assert_eq!(generate_index_bytecode(&frame, &mut img, &index, &ty), Ok(()));
    assert_eq!(
        img.bytes,
        vec![
            0x10, 0, 0, 0, 1, 0x10, 0, 0, 0, 8, 0x34, 0x10, 0, 0, 0, 0, 0x10, 0, 0, 0, 4, 0x34,
            0x30,
        ]
    );
    assert_eq!(stride_of(&ty), 8);
    assert_eq!(stride_of(&array(Type::Int, 2)), 4);
    assert_eq!(stride_of(&array(Type::Bool, 7)), 1);
    assert_eq!(stride_of(&Type::Int), 0);
}

#[test]
fn arguments_are_pushed_last_first() {
    let (sigs, vars, slots) = frame_parts();
    let frame = Frame { functions: &sigs, locals: &vars, slots: &slots };
    let mut img = Image::new();
    let args = list(vec![num(1), num(2), num(3)]);
    assert_eq!(generate_inputs_bytecode(&frame, &mut img, &args), Ok(()));
    assert_eq!(
        img.bytes,
        vec![0x10, 0, 0, 0, 3, 0x10, 0, 0, 0, 2, 0x10, 0, 0, 0, 1]
    );
}
