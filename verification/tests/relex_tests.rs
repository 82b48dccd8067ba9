use nodelang::lexer::{LexError, Lexer};
use nodelang::token::{Token, TokenTag};

fn lex_all(src: &str) -> Result<Vec<Token>, LexError> {
    let mut lexer = Lexer::new(src.chars().collect());
    let mut out = vec![];
    loop {
        match lexer.next_token()? {
            Some(t) => out.push(t),
            None => return Ok(out),
        }
    }
}

/// How a token is written.
fn spell(t: &Token) -> String {
    match t {
        Token::ID(name) => name.clone(),
        Token::Integer(n) => format!("{}", n),
        Token::Float(f) => f.digits.clone(),
        Token::Character(c) => format!("'{}'", c),
        Token::StringLiteral(s) => s.clone(),
        Token::Node => "node".to_string(),
        Token::Export => "export".to_string(),
        Token::Var => "var".to_string(),
        Token::Const => "const".to_string(),
        Token::Fn => "fn".to_string(),
        Token::While => "while".to_string(),
        Token::True => "true".to_string(),
        Token::False => "false".to_string(),
        Token::If => "if".to_string(),
        Token::Else => "else".to_string(),
        Token::Return => "return".to_string(),
        Token::Struct => "struct".to_string(),
        Token::Int => "int".to_string(),
        Token::FloatKW => "float".to_string(),
        Token::Bool => "bool".to_string(),
        Token::Char => "char".to_string(),
        Token::Assign => "=".to_string(),
        Token::Add => "+".to_string(),
        Token::Mul => "*".to_string(),
        Token::Sub => "-".to_string(),
        Token::Div => "/".to_string(),
        Token::AddAssign => "+=".to_string(),
        Token::MulAssign => "*=".to_string(),
        Token::SubAssign => "-=".to_string(),
        Token::DivAssign => "/=".to_string(),
        Token::LeftParen => "(".to_string(),
        Token::RightParen => ")".to_string(),
        Token::LeftBracket => "[".to_string(),
        Token::RightBracket => "]".to_string(),
        Token::LeftBrace => "{".to_string(),
        Token::RightBrace => "}".to_string(),
        Token::Semicolon => ";".to_string(),
        Token::Colon => ":".to_string(),
        Token::DoubleColon => "::".to_string(),
        Token::Arrow => "->".to_string(),
        Token::Dot => ".".to_string(),
        Token::Comma => ",".to_string(),
        Token::Equals => "==".to_string(),
        Token::Not => "!".to_string(),
        Token::Less => "<".to_string(),
        Token::Greater => ">".to_string(),
        Token::Leq => "<=".to_string(),
        Token::Geq => ">=".to_string(),
        Token::Neq => "!=".to_string(),
        Token::LogicalAnd => "&&".to_string(),
        Token::LogicalOr => "||".to_string(),
        Token::BitwiseAnd => "&".to_string(),
        Token::BitwiseOr => "|".to_string(),
    }
}

fn unprint(tokens: &[Token]) -> String {
    let mut out = String::new();
    for t in tokens {
        out.push_str(&spell(t));
        out.push(' ');
    }
    out
}

fn unprint_between(tokens: &[Token]) -> String {
    let words: Vec<String> = tokens.iter().map(spell).collect();
    words.join(" ")
}

fn relexes(src: &str) {
    let tokens = lex_all(src).unwrap();
    assert_eq!(lex_all(&unprint_between(&tokens)).unwrap(), tokens);
    let again = lex_all(&unprint(&tokens)).unwrap();
    assert_eq!(again, tokens);
    let tags: Vec<TokenTag> = tokens.iter().map(|t: &Token| t.tag()).collect();
    let tags_again: Vec<TokenTag> = again.iter().map(|t: &Token| t.tag()).collect();
    assert_eq!(tags_again, tags);
}

#[test]
fn relexing_a_program_yields_its_tokens() {
    relexes("node A: B, C { fn main(a: [int; 3], b: char) -> ! { while a[0]<=b&&true||!x { f(1,2.5,'c',\"s t\"); } } }");
    relexes("node  A{export const x:float=-1.5;fn g()->(){var y:int=2147483647;y=y/2*3-4+5;return;}}");
}

#[test]
fn relexing_every_operator_yields_it() {
    relexes("= + * - / += *= -= /= ( ) [ ] { } ; : :: -> . , == ! < > <= >= != && || & |");
    relexes("a+=b-=c*=d/=e==f!=g<=h>=i&&j||k&l|m::n->o");
}

#[test]
fn relexing_every_keyword_yields_it() {
    relexes("node export var const fn while true false if else return struct int float bool char");
    relexes("nodes exported variable constant fns whiles truer falsey iffy elsewhere returns structs ints floats bools chars _ _1 a_b");
}

#[test]
fn relexing_skips_what_the_comments_held() {
    relexes("a // b c d\n e // f");
    let tokens = lex_all("a // b c d\n e // f").unwrap();
    assert_eq!(unprint(&tokens), "a e ");
}

#[test]
fn relexing_needs_no_blank_after_the_last_token() {
    for src in ["a +", "a", "1", "1.5", "x =", "a -", "a :", "a &", "a |", "a /", "'c'", "\"s\"", "if"] {
        let tokens = lex_all(src).unwrap();
        assert_eq!(unprint_between(&tokens), src);
        assert_eq!(lex_all(&unprint_between(&tokens)).unwrap(), tokens);
        relexes(src);
    }
    let tokens = lex_all("a+b").unwrap();
    assert_eq!(unprint_between(&tokens), "a + b");
    assert_eq!(tokens.len(), 3);
}

#[test]
fn relexing_the_empty_text_yields_nothing() {
    relexes("");
    relexes("   \n\t // nothing\n");
}

#[test]
fn every_tag_without_payload_has_one_token() {
    let all = lex_all(
        "node export var const fn while true false if else = + * - / += *= -= /= ( ) [ ] { } ; : :: -> . , == ! < > <= >= != && || & | return struct int float bool char",
    )
    .unwrap();
    assert_eq!(all.len(), 48);
    for t in &all {
        assert_eq!(Token::of_tag(t.tag()), *t);
        assert_eq!(t.clone(), *t);
    }
    assert_eq!(Token::of_tag(TokenTag::ID), Token::ID(String::new()));
    assert_eq!(Token::of_tag(TokenTag::Integer), Token::Integer(0));
}
