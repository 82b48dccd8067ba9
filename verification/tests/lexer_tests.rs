use nodelang::lexer::{LexError, Lexer};
use nodelang::token::{FloatLiteral, Token};

fn lex_all(src: &str) -> Result<Vec<Token>, LexError> {
    let mut lexer = Lexer::new(src.chars().collect());
    let mut out = vec![];
    loop {
        match lexer.next_token()? {
            Some(t) => out.push(t),
            None => return Ok(out),
        }
    }
}

#[test]
fn lexes_a_function_header() {
    let tokens = lex_all("node A { fn main() -> int { return 1 + 2 * 3; } }").unwrap();
    assert_eq!(
        tokens,
        vec![
            Token::Node,
            Token::ID("A".to_string()),
            Token::LeftBrace,
            Token::Fn,
            Token::ID("main".to_string()),
            Token::LeftParen,
            Token::RightParen,
            Token::Arrow,
            Token::Int,
            Token::LeftBrace,
            Token::Return,
            Token::Integer(1),
            Token::Add,
            Token::Integer(2),
            Token::Mul,
            Token::Integer(3),
            Token::Semicolon,
            Token::RightBrace,
            Token::RightBrace,
        ]
    );
}

#[test]
fn lexes_two_character_operators() {
    let tokens = lex_all("+= -= *= /= == != <= >= && || :: -> & | : ! < > = + - * /").unwrap();
    assert_eq!(
        tokens,
        vec![
            Token::AddAssign,
            Token::SubAssign,
            Token::MulAssign,
            Token::DivAssign,
            Token::Equals,
            Token::Neq,
            Token::Leq,
            Token::Geq,
            Token::LogicalAnd,
            Token::LogicalOr,
            Token::DoubleColon,
            Token::Arrow,
            Token::BitwiseAnd,
            Token::BitwiseOr,
            Token::Colon,
            Token::Not,
            Token::Less,
            Token::Greater,
            Token::Assign,
            Token::Add,
            Token::Sub,
            Token::Mul,
            Token::Div,
        ]
    );
}

#[test]
fn an_operator_at_the_end_of_the_text_is_a_token() {
    assert_eq!(lex_all("a +").unwrap(), vec![Token::ID("a".to_string()), Token::Add]);
}

#[test]
fn lexes_keywords_and_identifiers() {
    let tokens = lex_all("export var const while true false if else struct float bool char _x y1 nodes").unwrap();
    assert_eq!(
        tokens,
        vec![
            Token::Export,
            Token::Var,
            Token::Const,
            Token::While,
            Token::True,
            Token::False,
            Token::If,
            Token::Else,
            Token::Struct,
            Token::FloatKW,
            Token::Bool,
            Token::Char,
            Token::ID("_x".to_string()),
            Token::ID("y1".to_string()),
            Token::ID("nodes".to_string()),
        ]
    );
}

#[test]
fn lexes_literals() {
    let tokens = lex_all("12 3.25 'c' \"hi there\" 2147483647").unwrap();
    assert_eq!(
        tokens,
        vec![
            Token::Integer(12),
            Token::Float(FloatLiteral { negative: false, digits: "3.25".to_string() }),
            Token::Character('c'),
            Token::StringLiteral("\"hi there\"".to_string()),
            Token::Integer(2147483647),
        ]
    );
}

#[test]
fn skips_blanks_and_line_comments() {
    let tokens = lex_all("  a // the rest of the line\n\t b // to the end").unwrap();
    assert_eq!(tokens, vec![Token::ID("a".to_string()), Token::ID("b".to_string())]);
}

#[test]
fn empty_text_has_no_token() {
    assert_eq!(lex_all("").unwrap(), vec![]);
    assert_eq!(lex_all(" \n\t\r ").unwrap(), vec![]);
}

#[test]
fn character_literal_must_hold_one_character() {
    assert_eq!(lex_all("'ab'"), Err(LexError::MalformedCharacter));
    assert_eq!(lex_all("''"), Err(LexError::MalformedCharacter));
    assert_eq!(lex_all("'''"), Err(LexError::MalformedCharacter));
    assert_eq!(lex_all("'a"), Err(LexError::MalformedCharacter));
}

#[test]
fn unterminated_string_is_an_error() {
    assert_eq!(lex_all("\"abc"), Err(LexError::UnterminatedString));
}

#[test]
fn unexpected_character_is_an_error() {
    assert_eq!(lex_all("a @ b"), Err(LexError::UnexpectedCharacter));
}

#[test]
fn integer_above_the_range_is_an_error() {
    assert_eq!(lex_all("2147483648"), Err(LexError::IntegerOutOfRange));
    assert_eq!(lex_all("99999999999999999999999999"), Err(LexError::IntegerOutOfRange));
}

#[test]
fn a_dot_needs_a_digit_after_it() {
    assert_eq!(lex_all("1."), Err(LexError::MalformedNumber));
    assert_eq!(lex_all("1.x"), Err(LexError::MalformedNumber));
}

#[test]
fn an_error_leaves_the_position_unchanged() {
    let mut lexer = Lexer::new("a @".chars().collect());
    assert_eq!(lexer.next_token(), Ok(Some(Token::ID("a".to_string()))));
    let left = lexer.remaining();
    assert_eq!(lexer.next_token(), Err(LexError::UnexpectedCharacter));
    assert_eq!(lexer.remaining(), left);
}
