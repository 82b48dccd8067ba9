use nodelang::ast::{AbstractSyntaxTree, SyntaxTreeNode};
use nodelang::lexer::Lexer;
use nodelang::parser::Parser;
use nodelang::rebalance::{
    rebalance_bool_term_tree, rebalance_comparison_tree, rebalance_expression_tree,
    rebalance_term_tree,
};
use nodelang::token::FloatLiteral;
use nodelang::types::Type;

fn tree(node: SyntaxTreeNode, children: Vec<AbstractSyntaxTree>) -> AbstractSyntaxTree {
    AbstractSyntaxTree { node, children }
}

fn leaf(node: SyntaxTreeNode) -> AbstractSyntaxTree {
    tree(node, vec![])
}

fn num(n: i32) -> AbstractSyntaxTree {
    leaf(SyntaxTreeNode::Integer(n))
}

fn id(name: &str) -> AbstractSyntaxTree {
    leaf(SyntaxTreeNode::Identifier(name.to_string()))
}

fn null() -> AbstractSyntaxTree {
    leaf(SyntaxTreeNode::Null)
}

fn ty(t: Type) -> AbstractSyntaxTree {
    leaf(SyntaxTreeNode::TypeName(t))
}

fn ast_of(src: &str) -> AbstractSyntaxTree {
    let mut p = Parser::new(Lexer::new(src.chars().collect()));
    assert_eq!(p.parse(), Ok(()));
    p.generate_ast();
    p.ast
}

/// The body of `main` in a program of one node with one function.
fn body_of(stmts: &str) -> AbstractSyntaxTree {
    let src = format!("node A {{ fn main() -> () {{ {} }} }}", stmts);
    let ast = ast_of(&src);
    // NodeSeq[DeclareNode[header, TLStmtSeq[DeclareFunc[..], Null]], Null]
    let node = &ast.children[0];
    let func = &node.children[1].children[0];
    func.children[3].clone()
}

/// The initializer of `var x: T = <expr>;` as the first statement of a body.
fn expr_of(decl_type: &str, expr: &str) -> AbstractSyntaxTree {
    let body = body_of(&format!("var x: {} = {};", decl_type, expr));
    body.children[0].children[2].clone()
}

#[test]
fn lowers_a_program_of_one_node() {
    let ast = ast_of("node A { fn main() -> int { return 1 + 2 * 3; } }");
    let expected = tree(
        SyntaxTreeNode::NodeSeq,
        vec![
            tree(
                SyntaxTreeNode::DeclareNode,
                vec![
                    tree(SyntaxTreeNode::NodeHeader, vec![id("A"), null()]),
                    tree(
                        SyntaxTreeNode::TLStmtSeq,
                        vec![
                            tree(
                                SyntaxTreeNode::DeclareFunc,
                                vec![
                                    id("main"),
                                    null(),
                                    tree(SyntaxTreeNode::ReturnType, vec![ty(Type::Int)]),
                                    tree(
                                        SyntaxTreeNode::StmtSeq,
                                        vec![
                                            tree(
                                                SyntaxTreeNode::ReturnValue,
                                                vec![tree(
                                                    SyntaxTreeNode::AddOp,
                                                    vec![
                                                        num(1),
                                                        tree(
                                                            SyntaxTreeNode::MulOp,
                                                            vec![num(2), num(3)],
                                                        ),
                                                    ],
                                                )],
                                            ),
                                            null(),
                                        ],
                                    ),
                                ],
                            ),
                            null(),
                        ],
                    ),
                ],
            ),
            null(),
        ],
    );
    assert_eq!(ast, expected);
}

#[test]
fn the_empty_program_lowers_to_null() {
    assert_eq!(ast_of(""), null());
}

#[test]
fn subtraction_is_left_associative() {
    // 1 - 2 - 3 is Sub(Sub(1, 2), 3), not Sub(1, Sub(2, 3)).
    let e = expr_of("int", "1 - 2 - 3");
    let expected = tree(
        SyntaxTreeNode::SubOp,
        vec![tree(SyntaxTreeNode::SubOp, vec![num(1), num(2)]), num(3)],
    );
    assert_eq!(e, expected);
    let wrong = tree(
        SyntaxTreeNode::SubOp,
        vec![num(1), tree(SyntaxTreeNode::SubOp, vec![num(2), num(3)])],
    );
    assert_ne!(e, wrong);
}

#[test]
fn sums_of_four_operands_lean_left() {
    let e = expr_of("int", "1 + 2 - 3 + 4");
    let expected = tree(
        SyntaxTreeNode::AddOp,
        vec![
            tree(
                SyntaxTreeNode::SubOp,
                vec![tree(SyntaxTreeNode::AddOp, vec![num(1), num(2)]), num(3)],
            ),
            num(4),
        ],
    );
    assert_eq!(e, expected);
}

#[test]
fn products_are_left_associative() {
    let e = expr_of("int", "8 / 4 * 2");
    let expected = tree(
        SyntaxTreeNode::MulOp,
        vec![tree(SyntaxTreeNode::DivOp, vec![num(8), num(4)]), num(2)],
    );
    assert_eq!(e, expected);
}

#[test]
fn conjunctions_and_disjunctions_are_left_associative() {
    let t = || leaf(SyntaxTreeNode::True);
    let f = || leaf(SyntaxTreeNode::False);
    let e = expr_of("bool", "true && false && true");
    assert_eq!(
        e,
        tree(SyntaxTreeNode::AndOp, vec![tree(SyntaxTreeNode::AndOp, vec![t(), f()]), t()])
    );
    let e = expr_of("bool", "true || false || true");
    assert_eq!(
        e,
        tree(SyntaxTreeNode::OrOp, vec![tree(SyntaxTreeNode::OrOp, vec![t(), f()]), t()])
    );
    let e = expr_of("bool", "true && false || true");
    assert_eq!(
        e,
        tree(SyntaxTreeNode::OrOp, vec![tree(SyntaxTreeNode::AndOp, vec![t(), f()]), t()])
    );
}

#[test]
fn parentheses_keep_their_grouping() {
    let e = expr_of("int", "1 - (2 + 3)");
    let expected = tree(
        SyntaxTreeNode::SubOp,
        vec![num(1), tree(SyntaxTreeNode::AddOp, vec![num(2), num(3)])],
    );
    assert_eq!(e, expected);
    let e = expr_of("int", "(1 - 2) - (3 - 4)");
    let expected = tree(
        SyntaxTreeNode::SubOp,
        vec![
            tree(SyntaxTreeNode::SubOp, vec![num(1), num(2)]),
            tree(SyntaxTreeNode::SubOp, vec![num(3), num(4)]),
        ],
    );
    assert_eq!(e, expected);
}

#[test]
fn multiplication_binds_tighter_than_addition() {
    let e = expr_of("int", "1 * 2 + 3 * 4");
    let expected = tree(
        SyntaxTreeNode::AddOp,
        vec![
            tree(SyntaxTreeNode::MulOp, vec![num(1), num(2)]),
            tree(SyntaxTreeNode::MulOp, vec![num(3), num(4)]),
        ],
    );
    assert_eq!(e, expected);
}

#[test]
fn comparison_is_a_binary_node() {
    let e = expr_of("bool", "1 + 2 <= 3");
    let expected = tree(
        SyntaxTreeNode::CompLeq,
        vec![tree(SyntaxTreeNode::AddOp, vec![num(1), num(2)]), num(3)],
    );
    assert_eq!(e, expected);
}

#[test]
fn unary_minus_folds_into_the_literal() {
    assert_eq!(expr_of("int", "-5"), num(-5));
    assert_eq!(
        expr_of("float", "-2.5"),
        leaf(SyntaxTreeNode::Float(FloatLiteral { negative: true, digits: "2.5".to_string() }))
    );
    assert_eq!(
        expr_of("int", "3 - -5"),
        tree(SyntaxTreeNode::SubOp, vec![num(3), num(-5)])
    );
}

#[test]
fn array_literals_nest_as_input_lists() {
    let e = expr_of("[int; 3]", "[10, 20, 30]");
    let expected = tree(
        SyntaxTreeNode::InputList,
        vec![
            num(10),
            tree(
                SyntaxTreeNode::InputList,
                vec![num(20), tree(SyntaxTreeNode::InputList, vec![num(30), null()])],
            ),
        ],
    );
    assert_eq!(e, expected);
}

#[test]
fn array_types_are_structured() {
    let body = body_of("var a: [[int; 2]; 3] = [[1, 2], [3, 4], [5, 6]];");
    let decl = &body.children[0];
    assert_eq!(decl.node, SyntaxTreeNode::DeclareVar);
    assert_eq!(decl.children[0], id("a"));
    assert_eq!(
        decl.children[1],
        ty(Type::Array(Box::new(Type::Array(Box::new(Type::Int), 2)), 3))
    );
}

#[test]
fn statements_lower_to_their_nodes() {
    let body = body_of("var x: int = 1; x = 2; if x < 3 { x = 4; } else { x = 5; } while true { f(x, 1); } g();");
    let s0 = &body.children[0];
    assert_eq!(*s0, tree(SyntaxTreeNode::DeclareVar, vec![id("x"), ty(Type::Int), num(1)]));
    let s1 = &body.children[1].children[0];
    assert_eq!(*s1, tree(SyntaxTreeNode::Assign, vec![id("x"), null(), num(2)]));
    let s2 = &body.children[1].children[1].children[0];
    assert_eq!(s2.node, SyntaxTreeNode::IfStmt);
    assert_eq!(s2.children.len(), 3);
    assert_eq!(s2.children[0], tree(SyntaxTreeNode::CompLess, vec![id("x"), num(3)]));
    assert_eq!(
        s2.children[1],
        tree(
            SyntaxTreeNode::StmtSeq,
            vec![tree(SyntaxTreeNode::Assign, vec![id("x"), null(), num(4)]), null()]
        )
    );
    let s3 = &body.children[1].children[1].children[1].children[0];
    assert_eq!(s3.node, SyntaxTreeNode::WhileLoop);
    assert_eq!(s3.children[0], leaf(SyntaxTreeNode::True));
    let call = &s3.children[1].children[0];
    assert_eq!(
        *call,
        tree(
            SyntaxTreeNode::FnCall,
            vec![
                id("f"),
                tree(
                    SyntaxTreeNode::InputList,
                    vec![id("x"), tree(SyntaxTreeNode::InputList, vec![num(1), null()])]
                )
            ]
        )
    );
    let s4 = &body.children[1].children[1].children[1].children[1].children[0];
    assert_eq!(*s4, tree(SyntaxTreeNode::FnCall, vec![id("g"), null()]));
}

#[test]
fn an_if_without_else_has_a_null_third_child() {
    let body = body_of("if true { }");
    let s = &body.children[0];
    assert_eq!(s.node, SyntaxTreeNode::IfStmt);
    assert_eq!(s.children, vec![leaf(SyntaxTreeNode::True), null(), null()]);
}

#[test]
fn indexed_names_and_calls_in_expressions() {
    let e = expr_of("int", "a[1][i] + f() + g(2)");
    let index = tree(
        SyntaxTreeNode::Index,
        vec![num(1), tree(SyntaxTreeNode::Index, vec![id("i"), null()])],
    );
    let a = tree(SyntaxTreeNode::Identifier("a".to_string()), vec![index]);
    let f = tree(SyntaxTreeNode::FnCall, vec![id("f"), null()]);
    let g = tree(
        SyntaxTreeNode::FnCall,
        vec![id("g"), tree(SyntaxTreeNode::InputList, vec![num(2), null()])],
    );
    assert_eq!(
        e,
        tree(SyntaxTreeNode::AddOp, vec![tree(SyntaxTreeNode::AddOp, vec![a, f]), g])
    );
}

#[test]
fn node_headers_list_their_dependencies() {
    let ast = ast_of("node A: B, C { } node B { } node C { }");
    let header = &ast.children[0].children[0];
    assert_eq!(
        *header,
        tree(
            SyntaxTreeNode::NodeHeader,
            vec![
                id("A"),
                tree(
                    SyntaxTreeNode::NodeList,
                    vec![id("B"), tree(SyntaxTreeNode::NodeList, vec![id("C"), null()])]
                )
            ]
        )
    );
}

#[test]
fn parameters_and_return_types() {
    let ast = ast_of("node A { fn f(a: int, b: [char; 2]) -> ! { while true { } } fn g() -> () { } }");
    let funcs = &ast.children[0].children[1];
    let f = &funcs.children[0];
    assert_eq!(f.children[0], id("f"));
    assert_eq!(
        f.children[1],
        tree(
            SyntaxTreeNode::ParamList,
            vec![
                tree(SyntaxTreeNode::Param, vec![id("a"), ty(Type::Int)]),
                tree(
                    SyntaxTreeNode::ParamList,
                    vec![
                        tree(
                            SyntaxTreeNode::Param,
                            vec![id("b"), ty(Type::Array(Box::new(Type::Char), 2))]
                        ),
                        null()
                    ]
                )
            ]
        )
    );
    assert_eq!(
        f.children[2],
        tree(SyntaxTreeNode::ReturnType, vec![leaf(SyntaxTreeNode::NoReturn)])
    );
    let g = &funcs.children[1].children[0];
    assert_eq!(g.children[2], tree(SyntaxTreeNode::ReturnType, vec![leaf(SyntaxTreeNode::Void)]));
}

#[test]
fn rebalancing_two_operators() {
    let spine = tree(
        SyntaxTreeNode::AddOp,
        vec![num(1), tree(SyntaxTreeNode::SubOp, vec![num(2), num(3)])],
    );
    let expected = tree(
        SyntaxTreeNode::SubOp,
        vec![tree(SyntaxTreeNode::AddOp, vec![num(1), num(2)]), num(3)],
    );
    assert_eq!(rebalance_expression_tree(spine, 2), expected);
}

#[test]
fn rebalancing_stops_at_the_given_depth() {
    let spine = tree(
        SyntaxTreeNode::AddOp,
        vec![num(1), tree(SyntaxTreeNode::SubOp, vec![num(2), num(3)])],
    );
    assert_eq!(rebalance_expression_tree(spine.clone(), 1), spine);
    assert_eq!(rebalance_expression_tree(spine.clone(), 0), spine);
}

#[test]
fn rebalancing_ends_where_the_spine_ends() {
    let b = |node: SyntaxTreeNode, l, r| tree(node, vec![l, r]);
    let product = || b(SyntaxTreeNode::MulOp, num(4), num(5));
    let spine = b(
        SyntaxTreeNode::SubOp,
        num(1),
        b(SyntaxTreeNode::AddOp, num(2), b(SyntaxTreeNode::SubOp, num(3), product())),
    );
    let leaning = b(
        SyntaxTreeNode::SubOp,
        b(SyntaxTreeNode::AddOp, b(SyntaxTreeNode::SubOp, num(1), num(2)), num(3)),
        product(),
    );
    assert_eq!(rebalance_expression_tree(spine.clone(), 3), leaning);
    assert_eq!(rebalance_expression_tree(spine.clone(), 9), leaning);
    // A tree whose right operand is no operator of the class is left as it is.
    let flat = b(SyntaxTreeNode::MulOp, num(1), b(SyntaxTreeNode::AddOp, num(2), num(3)));
    assert_eq!(rebalance_term_tree(flat.clone(), 7), flat);
    assert_eq!(rebalance_term_tree(num(1), 7), num(1));
}

#[test]
fn rebalancing_leaves_other_classes_alone() {
    let spine = tree(
        SyntaxTreeNode::AddOp,
        vec![num(1), tree(SyntaxTreeNode::MulOp, vec![num(2), num(3)])],
    );
    assert_eq!(rebalance_expression_tree(spine.clone(), 2), spine);
    assert_eq!(rebalance_term_tree(spine.clone(), 2), spine);
    assert_eq!(rebalance_comparison_tree(spine.clone(), 2), spine);
    assert_eq!(rebalance_bool_term_tree(spine.clone(), 2), spine);
}

#[test]
fn rebalancing_each_class() {
    let b = |node: SyntaxTreeNode, l, r| tree(node, vec![l, r]);
    assert_eq!(
        rebalance_term_tree(
            b(SyntaxTreeNode::DivOp, num(8), b(SyntaxTreeNode::MulOp, num(4), num(2))),
            2
        ),
        b(SyntaxTreeNode::MulOp, b(SyntaxTreeNode::DivOp, num(8), num(4)), num(2))
    );
    assert_eq!(
        rebalance_comparison_tree(
            b(SyntaxTreeNode::OrOp, id("a"), b(SyntaxTreeNode::OrOp, id("b"), id("c"))),
            2
        ),
        b(SyntaxTreeNode::OrOp, b(SyntaxTreeNode::OrOp, id("a"), id("b")), id("c"))
    );
    assert_eq!(
        rebalance_bool_term_tree(
            b(SyntaxTreeNode::AndOp, id("a"), b(SyntaxTreeNode::AndOp, id("b"), id("c"))),
            2
        ),
        b(SyntaxTreeNode::AndOp, b(SyntaxTreeNode::AndOp, id("a"), id("b")), id("c"))
    );
}
