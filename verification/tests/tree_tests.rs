use nodelang::arrays::{build_arr_from_input_list, build_arr_helper};
use nodelang::ast::{AbstractSyntaxTree, NodeTag, SyntaxTreeNode};
use nodelang::grammar::{production, GrammarSymbol, Item, SymbolKind};
use nodelang::parse_tree::ParseTree;
use nodelang::token::{Token, TokenTag};
use nodelang::types::Type;

fn tree(node: SyntaxTreeNode, children: Vec<AbstractSyntaxTree>) -> AbstractSyntaxTree {
    AbstractSyntaxTree { node, children }
}

fn num(n: i32) -> AbstractSyntaxTree {
    tree(SyntaxTreeNode::Integer(n), vec![])
}

fn null() -> AbstractSyntaxTree {
    tree(SyntaxTreeNode::Null, vec![])
}

fn list(items: Vec<AbstractSyntaxTree>) -> AbstractSyntaxTree {
    let mut out = null();
    for item in items.into_iter().rev() {
        out = tree(SyntaxTreeNode::InputList, vec![item, out]);
    }
    out
}

#[test]
fn a_new_syntax_tree_is_null() {
    let t = AbstractSyntaxTree::new();
    assert_eq!(t.node, SyntaxTreeNode::Null);
    assert!(t.children.is_empty());
    assert_eq!(t.tag(), NodeTag::Null);
}

#[test]
fn syntax_trees_clone_deeply() {
    let t = tree(
        SyntaxTreeNode::AddOp,
        vec![num(1), tree(SyntaxTreeNode::Identifier("x".to_string()), vec![num(2)])],
    );
    assert_eq!(t.clone(), t);
    assert_eq!(SyntaxTreeNode::of_tag(NodeTag::AddOp), SyntaxTreeNode::AddOp);
    assert_eq!(SyntaxTreeNode::TypeName(Type::Bool).tag(), NodeTag::TypeName);
}

#[test]
fn a_new_parse_tree_is_empty() {
    let t = ParseTree::new();
    assert_eq!(t.len(), 0);
    assert_eq!(t.get_children(0), Vec::<usize>::new());
    assert_eq!(t.get_next_nt_sibling(0), 0);
    assert_eq!(t.get_next_nt_sibling(7), 0);
}

#[test]
fn set_root_makes_or_replaces_node_zero() {
    let mut t = ParseTree::new();
    t.set_root(GrammarSymbol::Program);
    assert_eq!(t.len(), 1);
    assert_eq!(t.get_node(0), GrammarSymbol::Program);
    t.set_root(GrammarSymbol::Stmt);
    assert_eq!(t.len(), 1);
    assert_eq!(t.get_node(0), GrammarSymbol::Stmt);
}

#[test]
fn add_child_appends_in_order() {
    let mut t = ParseTree::new();
    t.set_root(GrammarSymbol::Program);
    assert_eq!(t.add_child(0, GrammarSymbol::NodeNT), 1);
    assert_eq!(t.add_child(0, GrammarSymbol::Program), 2);
    assert_eq!(t.add_child(1, GrammarSymbol::Terminal(Token::Node)), 3);
    assert_eq!(t.add_child(1, GrammarSymbol::NodeHeader), 4);
    assert_eq!(t.add_child(1, GrammarSymbol::NodeBlock), 5);
    assert_eq!(t.len(), 6);
    assert_eq!(t.get_children(0), vec![1, 2]);
    assert_eq!(t.get_children(1), vec![3, 4, 5]);
    assert_eq!(t.get_children(5), Vec::<usize>::new());
    assert_eq!(t.get_children(6), Vec::<usize>::new());
    assert_eq!(t.get_node(3), GrammarSymbol::Terminal(Token::Node));
}

#[test]
fn the_next_nonterminal_sibling_is_found_upwards() {
    let mut t = ParseTree::new();
    t.set_root(GrammarSymbol::Program);
    let node = t.add_child(0, GrammarSymbol::NodeNT);
    let program = t.add_child(0, GrammarSymbol::Program);
    let kw = t.add_child(node, GrammarSymbol::Terminal(Token::Node));
    let header = t.add_child(node, GrammarSymbol::NodeHeader);
    let block = t.add_child(node, GrammarSymbol::NodeBlock);
    let id = t.add_child(header, GrammarSymbol::ID);
    let list = t.add_child(header, GrammarSymbol::OptIDList);
    let empty = t.add_child(list, GrammarSymbol::Empty);
    // Later siblings first.
    assert_eq!(t.get_next_nt_sibling(kw), header);
    assert_eq!(t.get_next_nt_sibling(header), block);
    assert_eq!(t.get_next_nt_sibling(id), list);
    // Then the later siblings of the parent, and so on.
    assert_eq!(t.get_next_nt_sibling(list), block);
    assert_eq!(t.get_next_nt_sibling(empty), block);
    assert_eq!(t.get_next_nt_sibling(block), program);
    assert_eq!(t.get_next_nt_sibling(node), program);
    // Nothing is left after the last nonterminal.
    assert_eq!(t.get_next_nt_sibling(program), 0);
    assert_eq!(t.get_next_nt_sibling(0), 0);
    assert_eq!(t.get_next_nt_sibling(100), 0);
}

#[test]
fn the_table_picks_productions_by_the_next_tag() {
    assert_eq!(
        production(SymbolKind::Program, Some(TokenTag::Node)),
        Some(vec![Item::N(SymbolKind::NodeNT), Item::N(SymbolKind::Program)])
    );
    assert_eq!(production(SymbolKind::Program, None), Some(vec![]));
    assert_eq!(production(SymbolKind::Program, Some(TokenTag::Fn)), None);
    assert_eq!(
        production(SymbolKind::BoolTerm1, Some(TokenTag::LogicalAnd)),
        Some(vec![
            Item::T(TokenTag::LogicalAnd),
            Item::N(SymbolKind::BoolExpr),
            Item::N(SymbolKind::BoolTerm1)
        ])
    );
    assert_eq!(production(SymbolKind::BoolTerm1, Some(TokenTag::LogicalOr)), Some(vec![]));
    assert_eq!(
        production(SymbolKind::Type, Some(TokenTag::LeftBracket)),
        Some(vec![
            Item::T(TokenTag::LeftBracket),
            Item::N(SymbolKind::Type),
            Item::T(TokenTag::Semicolon),
            Item::N(SymbolKind::ArrLen),
            Item::T(TokenTag::RightBracket)
        ])
    );
    assert_eq!(production(SymbolKind::Terminal, Some(TokenTag::Node)), None);
    assert_eq!(production(SymbolKind::End, None), None);
}

#[test]
fn grammar_symbols_know_their_kind() {
    assert_eq!(GrammarSymbol::Terminal(Token::Integer(3)).kind(), SymbolKind::Terminal);
    assert_eq!(GrammarSymbol::Stmt.kind(), SymbolKind::Stmt);
    assert_eq!(GrammarSymbol::of_kind(SymbolKind::Stmt), GrammarSymbol::Stmt);
    assert!(GrammarSymbol::Stmt.is_nonterminal());
    assert!(!GrammarSymbol::Empty.is_nonterminal());
    assert!(!GrammarSymbol::End.is_nonterminal());
    assert!(!GrammarSymbol::Terminal(Token::Node).is_nonterminal());
    let s = GrammarSymbol::Terminal(Token::ID("x".to_string()));
    assert_eq!(s.clone(), s);
}

#[test]
fn nested_array_literals_flatten_in_source_order() {
    let nested = list(vec![
        list(vec![num(1), num(2)]),
        list(vec![num(3), num(4)]),
        list(vec![num(5), num(6)]),
    ]);
    let flat = list(vec![num(1), num(2), num(3), num(4), num(5), num(6)]);
    assert_eq!(build_arr_from_input_list(&nested), flat);
    assert_eq!(build_arr_from_input_list(&flat), flat);
    assert_eq!(build_arr_from_input_list(&num(7)), num(7));
    assert_eq!(build_arr_from_input_list(&null()), null());
    let deep = list(vec![list(vec![list(vec![num(1)]), list(vec![num(2), num(3)])]), num(4)]);
    assert_eq!(
        build_arr_from_input_list(&deep),
        list(vec![num(1), num(2), num(3), num(4)])
    );
}

#[test]
fn lists_are_put_one_after_the_other() {
    let left = list(vec![num(1), num(2)]);
    let right = list(vec![num(3)]);
    assert_eq!(build_arr_helper(&left, right.clone()), list(vec![num(1), num(2), num(3)]));
    assert_eq!(build_arr_helper(&null(), right.clone()), right);
    assert_eq!(build_arr_helper(&num(9), right.clone()), list(vec![num(9), num(3)]));
    assert_eq!(build_arr_helper(&left, null()), left);
}

#[test]
fn types_have_sizes_and_counts() {
    let nested = Type::Array(Box::new(Type::Array(Box::new(Type::Int), 2)), 3);
    assert_eq!(Type::Int.size(), Some(4));
    assert_eq!(Type::Float.size(), Some(4));
    assert_eq!(Type::Bool.size(), Some(1));
    assert_eq!(Type::Char.size(), Some(1));
    assert_eq!(nested.size(), Some(24));
    assert_eq!(nested.count(), Some(6));
    assert_eq!(*nested.base(), Type::Int);
    assert!(nested.sized());
    assert!(!Type::Named("T".to_string()).sized());
    assert!(!Type::Array(Box::new(Type::Int), 0).sized());
    assert!(!Type::Array(Box::new(Type::Int), -1).sized());
    let wide = Type::Array(Box::new(Type::Array(Box::new(Type::Int), 0x10000)), 0x10000);
    assert_eq!(wide.size(), None);
    assert_eq!(wide.count(), None);
    let chars = Type::Array(Box::new(Type::Array(Box::new(Type::Char), 0x10000)), 0x8000);
    assert_eq!(chars.size(), Some(0x8000_0000));
    assert_eq!(chars.count(), None);
    assert!(nested.same(&nested.clone()));
    assert!(!nested.same(&Type::Array(Box::new(Type::Array(Box::new(Type::Int), 2)), 4)));
    assert!(Type::Named("T".to_string()).same(&Type::Named("T".to_string())));
    assert!(!Type::Named("T".to_string()).same(&Type::Named("U".to_string())));
    assert!(Type::Char.is_numeric());
    assert!(!Type::Bool.is_numeric());
}
