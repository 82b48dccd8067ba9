use nodelang::grammar::{GrammarSymbol, SymbolKind};
use nodelang::lexer::{LexError, Lexer};
use nodelang::parser::{ParseError, Parser};
use nodelang::token::{Token, TokenTag};

fn parser_for(src: &str) -> Parser {
    Parser::new(Lexer::new(src.chars().collect()))
}

#[test]
fn parses_the_empty_program() {
    let mut p = parser_for("");
    assert_eq!(p.parse(), Ok(()));
    assert_eq!(p.parse_tree.len(), 2);
    assert_eq!(p.parse_tree.get_node(0), GrammarSymbol::Program);
    assert_eq!(p.parse_tree.get_node(1), GrammarSymbol::Empty);
    assert_eq!(p.parse_tree.get_children(0), vec![1]);
}

#[test]
fn parses_a_node_with_a_function() {
    let mut p = parser_for("node A { fn main() -> int { return 1 + 2 * 3; } }");
    assert_eq!(p.parse(), Ok(()));
    assert_eq!(p.parse_tree.get_node(0), GrammarSymbol::Program);
    let top = p.parse_tree.get_children(0);
    assert_eq!(top.len(), 2);
    assert_eq!(p.parse_tree.get_node(top[0]), GrammarSymbol::NodeNT);
    assert_eq!(p.parse_tree.get_node(top[1]), GrammarSymbol::Program);
    let node = p.parse_tree.get_children(top[0]);
    assert_eq!(p.parse_tree.get_node(node[0]), GrammarSymbol::Terminal(Token::Node));
    assert_eq!(p.parse_tree.get_node(node[1]), GrammarSymbol::NodeHeader);
    assert_eq!(p.parse_tree.get_node(node[2]), GrammarSymbol::NodeBlock);
    let header = p.parse_tree.get_children(node[1]);
    let id = p.parse_tree.get_children(header[0]);
    assert_eq!(p.parse_tree.get_node(id[0]), GrammarSymbol::Terminal(Token::ID("A".to_string())));
}

#[test]
fn a_missing_brace_is_a_syntax_error() {
    let mut p = parser_for("node A fn");
    assert_eq!(
        p.parse(),
        Err(ParseError::Syntax { expected: SymbolKind::OptIDList, found: Some(TokenTag::Fn) })
    );
}

#[test]
fn text_after_the_program_is_a_syntax_error() {
    let mut p = parser_for("node A { } 1");
    assert_eq!(
        p.parse(),
        Err(ParseError::Syntax { expected: SymbolKind::Program, found: Some(TokenTag::Integer) })
    );
}

#[test]
fn an_unclosed_node_is_a_syntax_error() {
    let mut p = parser_for("node A {");
    assert_eq!(p.parse(), Err(ParseError::Syntax { expected: SymbolKind::TLStmtList, found: None }));
}

#[test]
fn a_lexical_error_stops_the_parse() {
    let mut p = parser_for("node A { fn main() -> () { var c: char = 'ab'; } }");
    assert_eq!(p.parse(), Err(ParseError::Lexical(LexError::MalformedCharacter)));
}

#[test]
fn conjunctions_and_disjunctions_chain() {
    let mut p = parser_for("node A { fn main() -> () { var b: bool = true && false && true || false; } }");
    assert_eq!(p.parse(), Ok(()));
}

#[test]
fn errors_have_diagnostics() {
    assert_eq!(
        LexError::MalformedCharacter.message(),
        "Error: characters must be one character length"
    );
    assert_eq!(
        ParseError::Lexical(LexError::UnexpectedCharacter).message(),
        "Error: unexpected character"
    );
    assert_eq!(
        ParseError::Syntax { expected: SymbolKind::Block, found: None }.message(),
        "syntax error: expected {"
    );
    assert_eq!(
        ParseError::Syntax { expected: SymbolKind::Term1, found: Some(TokenTag::Dot) }.message(),
        "syntax error: expected term 2"
    );
    assert_eq!(ParseError::TreeTooLarge.message(), "syntax error: program too large");
    let mut p = parser_for("node A { fn main() -> () { x = ; } }");
    assert_eq!(p.parse().unwrap_err().message(), "syntax error: expected conditional or array");
}
