//! The spelling of tokens, and the law that lexing the spelled tokens of a
//! text yields those tokens again.

use vstd::prelude::*;
use crate::lexer::{
    LexError,
    Scan,
    char_at,
    decimal_value,
    delimiter_of,
    digits_end,
    find_char,
    is_digit,
    is_letter,
    is_space,
    is_word_char,
    lemma_digits_end_bounds,
    lemma_find_char_bounds,
    lemma_lex_advances,
    lemma_skip_blank_bounds,
    lemma_word_end_bounds,
    lex,
    operator_of,
    scan_at,
    skip_blank,
    word_end,
};
use crate::token::{FloatView, TokenTag, TokenView, carries_payload, keyword_of};

verus! {

/// The character of a decimal digit.
pub open spec fn digit_char(d: int) -> char {
    ('0' as int + d) as char
}

/// The decimal digits of a number, without leading zeros.
pub open spec fn digits_of(n: nat) -> Seq<char>
    decreases n,
{
    if n < 10 {
        seq![digit_char(n as int)]
    } else {
        digits_of(n / 10).push(digit_char((n % 10) as int))
    }
}

/// How a token without payload is written.
pub open spec fn tag_spelling(tag: TokenTag) -> Seq<char> {
    match tag {
        TokenTag::Node => seq!['n', 'o', 'd', 'e'],
        TokenTag::Export => seq!['e', 'x', 'p', 'o', 'r', 't'],
        TokenTag::Var => seq!['v', 'a', 'r'],
        TokenTag::Const => seq!['c', 'o', 'n', 's', 't'],
        TokenTag::Fn => seq!['f', 'n'],
        TokenTag::While => seq!['w', 'h', 'i', 'l', 'e'],
        TokenTag::True => seq!['t', 'r', 'u', 'e'],
        TokenTag::False => seq!['f', 'a', 'l', 's', 'e'],
        TokenTag::If => seq!['i', 'f'],
        TokenTag::Else => seq!['e', 'l', 's', 'e'],
        TokenTag::Return => seq!['r', 'e', 't', 'u', 'r', 'n'],
        TokenTag::Struct => seq!['s', 't', 'r', 'u', 'c', 't'],
        TokenTag::Int => seq!['i', 'n', 't'],
        TokenTag::FloatKW => seq!['f', 'l', 'o', 'a', 't'],
        TokenTag::Bool => seq!['b', 'o', 'o', 'l'],
        TokenTag::Char => seq!['c', 'h', 'a', 'r'],
        TokenTag::Assign => seq!['='],
        TokenTag::Add => seq!['+'],
        TokenTag::Mul => seq!['*'],
        TokenTag::Sub => seq!['-'],
        TokenTag::Div => seq!['/'],
        TokenTag::AddAssign => seq!['+', '='],
        TokenTag::MulAssign => seq!['*', '='],
        TokenTag::SubAssign => seq!['-', '='],
        TokenTag::DivAssign => seq!['/', '='],
        TokenTag::LeftParen => seq!['('],
        TokenTag::RightParen => seq![')'],
        TokenTag::LeftBracket => seq!['['],
        TokenTag::RightBracket => seq![']'],
        TokenTag::LeftBrace => seq!['{'],
        TokenTag::RightBrace => seq!['}'],
        TokenTag::Semicolon => seq![';'],
        TokenTag::Colon => seq![':'],
        TokenTag::DoubleColon => seq![':', ':'],
        TokenTag::Arrow => seq!['-', '>'],
        TokenTag::Dot => seq!['.'],
        TokenTag::Comma => seq![','],
        TokenTag::Equals => seq!['=', '='],
        TokenTag::Not => seq!['!'],
        TokenTag::Less => seq!['<'],
        TokenTag::Greater => seq!['>'],
        TokenTag::Leq => seq!['<', '='],
        TokenTag::Geq => seq!['>', '='],
        TokenTag::Neq => seq!['!', '='],
        TokenTag::LogicalAnd => seq!['&', '&'],
        TokenTag::LogicalOr => seq!['|', '|'],
        TokenTag::BitwiseAnd => seq!['&'],
        TokenTag::BitwiseOr => seq!['|'],
        _ => Seq::empty(),
    }
}

/// How a token is written.
pub open spec fn spelling(t: TokenView) -> Seq<char> {
    match t {
        TokenView::ID(name) => name,
        TokenView::Integer(n) => if n >= 0 {
            digits_of(n as nat)
        } else {
            Seq::empty()
        },
        TokenView::Float(f) => f.digits,
        TokenView::Character(c) => seq!['\'', c, '\''],
        TokenView::StringLiteral(s) => s,
        TokenView::Plain(tag) => tag_spelling(tag),
    }
}

/// The tokens written one after the other, with a blank after each.
pub open spec fn unprinted(ts: Seq<TokenView>) -> Seq<char>
    decreases ts.len(),
{
    if ts.len() == 0 {
        Seq::empty()
    } else {
        spelling(ts[0]) + seq![' '] + unprinted(ts.drop_first())
    }
}

/// All the tokens of a text from `pos` on, or the first lexical error.
pub open spec fn tokens_from(s: Seq<char>, pos: int) -> Result<Seq<TokenView>, LexError>
    decreases s.len() - pos,
{
    match lex(s, pos) {
        Scan::Error(e) => Err(e),
        Scan::End(_) => Ok(Seq::empty()),
        Scan::Token(t, next) => if pos < next <= s.len() {
            match tokens_from(s, next) {
                Err(e) => Err(e),
                Ok(rest) => Ok(seq![t] + rest),
            }
        } else {
            Ok(seq![t])
        },
    }
}

/// Whether the digits are a float literal as the lexer reads one: digits,
/// a dot, and digits again.
pub open spec fn float_form(d: Seq<char>) -> bool {
    let e = find_char(d, 0, '.');
    &&& 1 <= e < d.len() - 1
    &&& forall|k: int| 0 <= k < e ==> is_digit(#[trigger] d[k])
    &&& forall|k: int| e < k < d.len() ==> is_digit(#[trigger] d[k])
}

/// Whether a token is one that the lexer yields: a name is an identifier
/// that is no keyword; an integer is not negative; a float is unsigned
/// digits with a dot between them; a character is no quote; a string
/// stands between its quotes and holds none; and a token without payload
/// has a tag of such tokens.
pub open spec fn lexed(t: TokenView) -> bool {
    match t {
        TokenView::ID(name) => name.len() >= 1 && (is_letter(name[0]) || name[0] == '_') && (
        forall|k: int| 0 <= k < name.len() ==> is_word_char(#[trigger] name[k])) && keyword_of(name)
            is None,
        TokenView::Integer(n) => n >= 0,
        TokenView::Float(f) => !f.negative && float_form(f.digits),
        TokenView::Character(c) => c != '\'',
        TokenView::StringLiteral(s) => s.len() >= 2 && s[0] == '"' && s[s.len() - 1] == '"'
            && forall|k: int| 1 <= k < s.len() - 1 ==> #[trigger] s[k] != '"',
        TokenView::Plain(tag) => !carries_payload(tag),
    }
}

/// A run of word characters ends where the first other character stands.
pub proof fn lemma_word_end_at(s: Seq<char>, i: int, j: int)
    requires
        0 <= i <= j <= s.len(),
        forall|k: int| i <= k < j ==> is_word_char(#[trigger] s[k]),
        j < s.len() ==> !is_word_char(s[j]),
    ensures
        word_end(s, i) == j,
    decreases j - i,
{
    if i < j {
        lemma_word_end_at(s, i + 1, j);
    }
}

/// A run of digits ends where the first other character stands.
pub proof fn lemma_digits_end_at(s: Seq<char>, i: int, j: int)
    requires
        0 <= i <= j <= s.len(),
        forall|k: int| i <= k < j ==> is_digit(#[trigger] s[k]),
        j < s.len() ==> !is_digit(s[j]),
    ensures
        digits_end(s, i) == j,
    decreases j - i,
{
    if i < j {
        lemma_digits_end_at(s, i + 1, j);
    }
}

/// The search for a character ends where the character first stands.
pub proof fn lemma_find_char_at(s: Seq<char>, i: int, j: int, stop: char)
    requires
        0 <= i <= j <= s.len(),
        forall|k: int| i <= k < j ==> #[trigger] s[k] != stop,
        j < s.len() ==> s[j] == stop,
    ensures
        find_char(s, i, stop) == j,
    decreases j - i,
{
    if i < j {
        lemma_find_char_at(s, i + 1, j, stop);
    }
}

/// The digits of a number are digits, and their value is the number.
pub proof fn lemma_digits_of(n: nat)
    ensures
        digits_of(n).len() >= 1,
        forall|k: int| 0 <= k < digits_of(n).len() ==> is_digit(#[trigger] digits_of(n)[k]),
        decimal_value(digits_of(n)) == n,
    decreases n,
{
    if n < 10 {
        let d = digits_of(n);
        assert(d.drop_last() =~= Seq::<char>::empty());
        assert(decimal_value(d.drop_last()) == 0);
        assert(d.last() == digit_char(n as int));
    } else {
        lemma_digits_of(n / 10);
        let d = digits_of(n);
        assert(d.drop_last() =~= digits_of(n / 10));
        assert(d.last() == digit_char((n % 10) as int));
        assert forall|k: int| 0 <= k < d.len() implies is_digit(#[trigger] d[k]) by {
            if k < d.len() - 1 {
                assert(d[k] == digits_of(n / 10)[k]);
            }
        }
    }
}

/// What lexing yields, with its position moved forward by `k`.
pub open spec fn shifted(sc: Scan, k: int) -> Scan {
    match sc {
        Scan::Token(t, n) => Scan::Token(t, n + k),
        Scan::End(n) => Scan::End(n + k),
        Scan::Error(e) => Scan::Error(e),
    }
}

proof fn lemma_word_end_shift(a: Seq<char>, b: Seq<char>, i: int)
    requires
        0 <= i <= b.len(),
    ensures
        word_end(a + b, a.len() + i) == a.len() + word_end(b, i),
    decreases b.len() - i,
{
    if i < b.len() {
        assert((a + b)[a.len() + i] == b[i]);
        if is_word_char(b[i]) {
            lemma_word_end_shift(a, b, i + 1);
        }
    }
}

proof fn lemma_digits_end_shift(a: Seq<char>, b: Seq<char>, i: int)
    requires
        0 <= i <= b.len(),
    ensures
        digits_end(a + b, a.len() + i) == a.len() + digits_end(b, i),
    decreases b.len() - i,
{
    if i < b.len() {
        assert((a + b)[a.len() + i] == b[i]);
        if is_digit(b[i]) {
            lemma_digits_end_shift(a, b, i + 1);
        }
    }
}

proof fn lemma_find_char_shift(a: Seq<char>, b: Seq<char>, i: int, stop: char)
    requires
        0 <= i <= b.len(),
    ensures
        find_char(a + b, a.len() + i, stop) == a.len() + find_char(b, i, stop),
    decreases b.len() - i,
{
    if i < b.len() {
        assert((a + b)[a.len() + i] == b[i]);
        if b[i] != stop {
            lemma_find_char_shift(a, b, i + 1, stop);
        }
    }
}

proof fn lemma_skip_blank_shift(a: Seq<char>, b: Seq<char>, i: int)
    requires
        0 <= i <= b.len(),
    ensures
        skip_blank(a + b, a.len() + i) == a.len() + skip_blank(b, i),
    decreases b.len() - i,
{
    if i < b.len() {
        assert((a + b)[a.len() + i] == b[i]);
        if is_space(b[i]) {
            lemma_skip_blank_shift(a, b, i + 1);
        } else if i + 1 < b.len() {
            assert((a + b)[a.len() + i + 1] == b[i + 1]);
            if b[i] == '/' && b[i + 1] == '/' {
                lemma_find_char_shift(a, b, i + 2, '\n');
                lemma_find_char_bounds(b, i + 2, '\n');
                lemma_skip_blank_shift(a, b, find_char(b, i + 2, '\n'));
            }
        }
    }
}

proof fn lemma_char_at_shift(a: Seq<char>, b: Seq<char>, i: int)
    requires
        0 <= i,
    ensures
        char_at(a + b, a.len() + i) == char_at(b, i),
{
    if i < b.len() {
        assert((a + b)[a.len() + i] == b[i]);
    }
}

proof fn lemma_subrange_shift(a: Seq<char>, b: Seq<char>, i: int, j: int)
    requires
        0 <= i <= j <= b.len(),
    ensures
        (a + b).subrange(a.len() + i, a.len() + j) == b.subrange(i, j),
{
    assert((a + b).subrange(a.len() + i, a.len() + j) =~= b.subrange(i, j));
}

proof fn lemma_scan_shift(a: Seq<char>, b: Seq<char>, i: int)
    requires
        0 <= i < b.len(),
    ensures
        scan_at(a + b, a.len() + i) == shifted(scan_at(b, i), a.len() as int),
{
    let s = a + b;
    let k = a.len() as int;
    let c = b[i];
    assert(s[k + i] == c);
    lemma_char_at_shift(a, b, i + 1);
    if delimiter_of(c) is Some {
    } else if operator_of(c, char_at(b, i + 1)) is Some {
    } else if is_letter(c) || c == '_' {
        lemma_word_end_shift(a, b, i + 1);
        lemma_word_end_bounds(b, i + 1);
        lemma_subrange_shift(a, b, i, word_end(b, i + 1));
    } else if is_digit(c) {
        lemma_digits_end_shift(a, b, i + 1);
        lemma_digits_end_bounds(b, i + 1);
        let e = digits_end(b, i + 1);
        lemma_char_at_shift(a, b, e);
        lemma_subrange_shift(a, b, i, e);
        if char_at(b, e) == Some('.') {
            lemma_digits_end_shift(a, b, e + 1);
            lemma_digits_end_bounds(b, e + 1);
            lemma_subrange_shift(a, b, i, digits_end(b, e + 1));
        }
    } else if c == '"' {
        lemma_find_char_shift(a, b, i + 1, '"');
        lemma_find_char_bounds(b, i + 1, '"');
        let q = find_char(b, i + 1, '"');
        if q < b.len() {
            lemma_subrange_shift(a, b, i, q + 1);
        }
    } else if c == '\'' {
        if i + 2 < b.len() {
            assert(s[k + i + 1] == b[i + 1]);
            assert(s[k + i + 2] == b[i + 2]);
        }
    }
}

/// Lexing a text that follows another text yields what lexing the text
/// alone yields, with the positions moved by the length of the first.
pub proof fn lemma_lex_shift(a: Seq<char>, b: Seq<char>, p: int)
    requires
        0 <= p <= b.len(),
    ensures
        lex(a + b, a.len() + p) == shifted(lex(b, p), a.len() as int),
{
    lemma_skip_blank_shift(a, b, p);
    lemma_skip_blank_bounds(b, p);
    let i = skip_blank(b, p);
    if i < b.len() {
        lemma_scan_shift(a, b, i);
    }
}

/// The tokens of a text that follows another text are the tokens of the
/// text alone.
pub proof fn lemma_tokens_shift(a: Seq<char>, b: Seq<char>, p: int)
    requires
        0 <= p <= b.len(),
    ensures
        tokens_from(a + b, a.len() + p) == tokens_from(b, p),
    decreases b.len() - p,
{
    lemma_lex_shift(a, b, p);
    lemma_lex_advances(b, p);
    match lex(b, p) {
        Scan::Token(t, next) => {
            lemma_tokens_shift(a, b, next);
        },
        _ => {},
    }
}


/// Whether the tag is the tag of a keyword.
pub open spec fn is_keyword_tag(tag: TokenTag) -> bool {
    tag == TokenTag::Node || tag == TokenTag::Export || tag == TokenTag::Var || tag == TokenTag::Const
        || tag == TokenTag::Fn || tag == TokenTag::While || tag == TokenTag::True || tag
        == TokenTag::False || tag == TokenTag::If || tag == TokenTag::Else || tag == TokenTag::Return
        || tag == TokenTag::Struct || tag == TokenTag::Int || tag == TokenTag::FloatKW || tag
        == TokenTag::Bool || tag == TokenTag::Char
}

proof fn lemma_relex_word(word: Seq<char>, tail: Seq<char>)
    requires
        tail.len() == 0 || tail[0] == ' ',
        word.len() >= 1,
        is_letter(word[0]) || word[0] == '_',
        forall|k: int| 0 <= k < word.len() ==> is_word_char(#[trigger] word[k]),
    ensures
        lex((word + tail), 0) == Scan::Token(
            match keyword_of(word) {
                Some(tag) => TokenView::Plain(tag),
                None => TokenView::ID(word),
            },
            word.len() as int,
        ),
{
    let u = (word + tail);
    let n = word.len() as int;
    assert(u[0] == word[0]);
    assert(n < u.len() ==> u[n] == tail[0]);
    assert forall|k: int| 1 <= k < n implies is_word_char(#[trigger] u[k]) by {
        assert(u[k] == word[k]);
    }
    lemma_word_end_at(u, 1, n);
    assert(u.subrange(0, n) =~= word);
    assert(skip_blank(u, 0) == 0);
}

proof fn lemma_keyword_spelling(tag: TokenTag)
    requires
        is_keyword_tag(tag),
    ensures
        keyword_of(tag_spelling(tag)) == Some(tag),
        tag_spelling(tag).len() >= 1,
        is_letter(tag_spelling(tag)[0]),
        forall|k: int|
            0 <= k < tag_spelling(tag).len() ==> is_word_char(#[trigger] tag_spelling(tag)[k]),
{
    reveal_strlit("node");
    reveal_strlit("export");
    reveal_strlit("var");
    reveal_strlit("const");
    reveal_strlit("fn");
    reveal_strlit("while");
    reveal_strlit("true");
    reveal_strlit("false");
    reveal_strlit("if");
    reveal_strlit("else");
    reveal_strlit("return");
    reveal_strlit("struct");
    reveal_strlit("int");
    reveal_strlit("float");
    reveal_strlit("bool");
    reveal_strlit("char");
    let w = tag_spelling(tag);
    match tag {
        TokenTag::Node => {
            assert(w =~= "node"@);
        },
        TokenTag::Export => {
            assert(w =~= "export"@);
        },
        TokenTag::Var => {
            assert(w =~= "var"@);
        },
        TokenTag::Const => {
            assert(w =~= "const"@);
        },
        TokenTag::Fn => {
            assert(w =~= "fn"@);
        },
        TokenTag::While => {
            assert(w =~= "while"@);
        },
        TokenTag::True => {
            assert(w =~= "true"@);
        },
        TokenTag::False => {
            assert(w =~= "false"@);
        },
        TokenTag::If => {
            assert(w =~= "if"@);
        },
        TokenTag::Else => {
            assert(w =~= "else"@);
        },
        TokenTag::Return => {
            assert(w =~= "return"@);
        },
        TokenTag::Struct => {
            assert(w =~= "struct"@);
        },
        TokenTag::Int => {
            assert(w =~= "int"@);
        },
        TokenTag::FloatKW => {
            assert(w =~= "float"@);
        },
        TokenTag::Bool => {
            assert(w =~= "bool"@);
        },
        TokenTag::Char => {
            assert(w =~= "char"@);
        },
        _ => {},
    }
}

proof fn lemma_relex_symbol(tag: TokenTag, tail: Seq<char>)
    requires
        tail.len() == 0 || tail[0] == ' ',
        !carries_payload(tag),
        !is_keyword_tag(tag),
    ensures
        lex((tag_spelling(tag) + tail), 0) == Scan::Token(
            TokenView::Plain(tag),
            tag_spelling(tag).len() as int,
        ),
{
    let w = tag_spelling(tag);
    let u = (w + tail);
    assert(w.len() == 1 || w.len() == 2);
    assert(u[0] == w[0]);
    assert(w.len() < u.len() ==> u[w.len() as int] == tail[0]);
    if w.len() == 2 {
        assert(u[1] == w[1]);
    }
    assert(skip_blank(u, 0) == 0);
}

proof fn lemma_relex_integer(n: i32, tail: Seq<char>)
    requires
        tail.len() == 0 || tail[0] == ' ',
        n >= 0,
    ensures
        lex((digits_of(n as nat) + tail), 0) == Scan::Token(
            TokenView::Integer(n),
            digits_of(n as nat).len() as int,
        ),
{
    let d = digits_of(n as nat);
    lemma_digits_of(n as nat);
    let u = (d + tail);
    let len = d.len() as int;
    assert(u[0] == d[0]);
    assert(len < u.len() ==> u[len] == tail[0]);
    assert forall|k: int| 1 <= k < len implies is_digit(#[trigger] u[k]) by {
        assert(u[k] == d[k]);
    }
    lemma_digits_end_at(u, 1, len);
    assert(u.subrange(0, len) =~= d);
    assert(skip_blank(u, 0) == 0);
}

proof fn lemma_relex_float(d: Seq<char>, tail: Seq<char>)
    requires
        tail.len() == 0 || tail[0] == ' ',
        float_form(d),
    ensures
        lex((d + tail), 0) == Scan::Token(
            TokenView::Float(FloatView { negative: false, digits: d }),
            d.len() as int,
        ),
{
    let u = (d + tail);
    let len = d.len() as int;
    let e = find_char(d, 0, '.');
    lemma_find_char_bounds(d, 0, '.');
    assert(u[0] == d[0]);
    assert(is_digit(d[0]));
    assert(len < u.len() ==> u[len] == tail[0]);
    assert(u[e] == d[e]);
    assert forall|k: int| 1 <= k < e implies is_digit(#[trigger] u[k]) by {
        assert(u[k] == d[k]);
    }
    lemma_digits_end_at(u, 1, e);
    assert forall|k: int| e + 1 <= k < len implies is_digit(#[trigger] u[k]) by {
        assert(u[k] == d[k]);
    }
    lemma_digits_end_at(u, e + 1, len);
    assert(u.subrange(0, len) =~= d);
    assert(skip_blank(u, 0) == 0);
}

proof fn lemma_relex_string(x: Seq<char>, tail: Seq<char>)
    requires
        tail.len() == 0 || tail[0] == ' ',
        lexed(TokenView::StringLiteral(x)),
    ensures
        lex((x + tail), 0) == Scan::Token(TokenView::StringLiteral(x), x.len() as int),
{
    let u = (x + tail);
    let len = x.len() as int;
    assert(u[0] == x[0]);
    assert(u[len - 1] == x[len - 1]);
    assert forall|k: int| 1 <= k < len - 1 implies #[trigger] u[k] != '"' by {
        assert(u[k] == x[k]);
    }
    lemma_find_char_at(u, 1, len - 1, '"');
    assert(u.subrange(0, len) =~= x);
    assert(skip_blank(u, 0) == 0);
}

proof fn lemma_relex_character(c: char, tail: Seq<char>)
    requires
        tail.len() == 0 || tail[0] == ' ',
        c != '\'',
    ensures
        lex((seq!['\'', c, '\''] + tail), 0) == Scan::Token(TokenView::Character(c), 3),
{
    let u = (seq!['\'', c, '\''] + tail);
    assert(u[0] == '\'');
    assert(u[1] == c);
    assert(u[2] == '\'');
    assert(3 < u.len() ==> u[3] == tail[0]);
    assert(skip_blank(u, 0) == 0);
}

/// A token that the lexer yields is lexed again from its spelling: the
/// text that starts with the spelling of the token, and ends there or goes
/// on with a blank, has the token as its first token, and the token ends
/// where its spelling ends.
pub proof fn lemma_relex_one(t: TokenView, tail: Seq<char>)
    requires
        tail.len() == 0 || tail[0] == ' ',
        lexed(t),
    ensures
        lex((spelling(t) + tail), 0) == Scan::Token(t, spelling(t).len() as int),
        spelling(t).len() >= 1,
{
    match t {
        TokenView::ID(name) => {
            lemma_relex_word(name, tail);
        },
        TokenView::Integer(n) => {
            lemma_relex_integer(n, tail);
            lemma_digits_of(n as nat);
        },
        TokenView::Float(f) => {
            lemma_relex_float(f.digits, tail);
        },
        TokenView::Character(c) => {
            lemma_relex_character(c, tail);
        },
        TokenView::StringLiteral(x) => {
            lemma_relex_string(x, tail);
        },
        TokenView::Plain(tag) => {
            if is_keyword_tag(tag) {
                lemma_keyword_spelling(tag);
                lemma_relex_word(tag_spelling(tag), tail);
            } else {
                lemma_relex_symbol(tag, tail);
            }
        },
    }
}


/// Every token that the lexer reads is a token that the lexer yields.
pub proof fn lemma_lex_yields_lexed(s: Seq<char>, pos: int)
    requires
        0 <= pos <= s.len(),
    ensures
        lex(s, pos) matches Scan::Token(t, _) ==> lexed(t),
{
    lemma_skip_blank_bounds(s, pos);
    let i = skip_blank(s, pos);
    if i < s.len() {
        let c = s[i];
        if delimiter_of(c) is Some {
        } else if operator_of(c, char_at(s, i + 1)) is Some {
        } else if is_letter(c) || c == '_' {
            lemma_word_end_bounds(s, i + 1);
            let e = word_end(s, i + 1);
            let word = s.subrange(i, e);
            assert(word[0] == c);
            assert forall|k: int| 0 <= k < word.len() implies is_word_char(#[trigger] word[k]) by {
                assert(word[k] == s[i + k]);
            }
            if let Some(tag) = keyword_of(word) {
                crate::lexer::lemma_keywords_plain(word);
            }
        } else if is_digit(c) {
            lemma_digits_end_bounds(s, i + 1);
            let e = digits_end(s, i + 1);
            if char_at(s, e) == Some('.') {
                lemma_digits_end_bounds(s, e + 1);
                let f = digits_end(s, e + 1);
                if f != e + 1 {
                    let d = s.subrange(i, f);
                    assert forall|k: int| 0 <= k < e - i implies #[trigger] d[k] != '.' by {
                        assert(d[k] == s[i + k]);
                        assert(is_digit(s[i + k]));
                    }
                    assert(d[e - i] == '.');
                    lemma_find_char_at(d, 0, e - i, '.');
                    assert forall|k: int| 0 <= k < e - i implies is_digit(#[trigger] d[k]) by {
                        assert(d[k] == s[i + k]);
                    }
                    assert forall|k: int| e - i < k < d.len() implies is_digit(#[trigger] d[k]) by {
                        assert(d[k] == s[i + k]);
                    }
                }
            }
        } else if c == '"' {
            lemma_find_char_bounds(s, i + 1, '"');
            let q = find_char(s, i + 1, '"');
            if q < s.len() {
                let x = s.subrange(i, q + 1);
                assert(x[0] == '"');
                assert(x[x.len() - 1] == s[q]);
                assert forall|k: int| 1 <= k < x.len() - 1 implies #[trigger] x[k] != '"' by {
                    assert(x[k] == s[i + k]);
                }
            }
        }
    }
}

/// Every token of a text is a token that the lexer yields.
pub proof fn lemma_tokens_lexed(s: Seq<char>, pos: int)
    requires
        0 <= pos <= s.len(),
    ensures
        tokens_from(s, pos) matches Ok(ts) ==> forall|i: int|
            0 <= i < ts.len() ==> lexed(#[trigger] ts[i]),
    decreases s.len() - pos,
{
    lemma_lex_yields_lexed(s, pos);
    lemma_lex_advances(s, pos);
    if let Scan::Token(t, next) = lex(s, pos) {
        lemma_tokens_lexed(s, next);
        if let Ok(rest) = tokens_from(s, next) {
            let ts = seq![t] + rest;
            assert forall|i: int| 0 <= i < ts.len() implies lexed(#[trigger] ts[i]) by {
                if i > 0 {
                    assert(ts[i] == rest[i - 1]);
                }
            }
        }
    }
}

/// Lexing the spelled tokens yields the tokens: for tokens that the lexer
/// yields, the text of their spellings, each followed by a blank, has
/// exactly these tokens.
pub proof fn lemma_relex_spelled(ts: Seq<TokenView>)
    requires
        forall|i: int| 0 <= i < ts.len() ==> lexed(#[trigger] ts[i]),
    ensures
        tokens_from(unprinted(ts), 0) == Ok::<Seq<TokenView>, LexError>(ts),
    decreases ts.len(),
{
    if ts.len() == 0 {
        assert(skip_blank(unprinted(ts), 0) == 0);
        assert(ts =~= Seq::<TokenView>::empty());
    } else {
        let t = ts[0];
        let rest = ts.drop_first();
        let tail = unprinted(rest);
        let u = unprinted(ts);
        let head = spelling(t) + seq![' '];
        let n = spelling(t).len() as int;
        assert(u =~= spelling(t) + (seq![' '] + tail));
        assert(u =~= head + tail);
        lemma_relex_one(t, seq![' '] + tail);
        assert forall|i: int| 0 <= i < rest.len() implies lexed(#[trigger] rest[i]) by {
            assert(rest[i] == ts[i + 1]);
        }
        lemma_relex_spelled(rest);
        lemma_tokens_shift(head, tail, 0);
        assert(tokens_from(u, n + 1) == Ok::<Seq<TokenView>, LexError>(rest));
        assert(u[n] == ' ');
        assert(skip_blank(u, n) == skip_blank(u, n + 1));
        lemma_lex_advances(u, n + 1);
        assert(tokens_from(u, n) == tokens_from(u, n + 1));
        assert(seq![t] + rest =~= ts);
    }
}

/// Re-lexing. When a text lexes without error, lexing the spellings of
/// its tokens, each followed by a blank, yields the same tokens, and so
/// the same tags.
pub proof fn lemma_relex(s: Seq<char>)
    requires
        tokens_from(s, 0) is Ok,
    ensures
        tokens_from(unprinted(tokens_from(s, 0)->Ok_0), 0) == tokens_from(s, 0),
{
    lemma_tokens_lexed(s, 0);
    lemma_relex_spelled(tokens_from(s, 0)->Ok_0);
}


/// The tokens written one after the other, with a blank between every
/// two and none at the end.
pub open spec fn spaced(ts: Seq<TokenView>) -> Seq<char>
    decreases ts.len(),
{
    if ts.len() == 0 {
        Seq::empty()
    } else if ts.len() == 1 {
        spelling(ts[0])
    } else {
        spelling(ts[0]) + seq![' '] + spaced(ts.drop_first())
    }
}

/// Lexing the spelled tokens yields the tokens: for tokens that the lexer
/// yields, the text of their spellings with a blank between every two has
/// exactly these tokens.
pub proof fn lemma_relex_spaced(ts: Seq<TokenView>)
    requires
        forall|i: int| 0 <= i < ts.len() ==> lexed(#[trigger] ts[i]),
    ensures
        tokens_from(spaced(ts), 0) == Ok::<Seq<TokenView>, LexError>(ts),
    decreases ts.len(),
{
    let u = spaced(ts);
    if ts.len() == 0 {
        assert(skip_blank(u, 0) == 0);
        assert(ts =~= Seq::<TokenView>::empty());
    } else if ts.len() == 1 {
        let t = ts[0];
        let n = spelling(t).len() as int;
        lemma_relex_one(t, Seq::empty());
        assert(u =~= spelling(t) + Seq::<char>::empty());
        assert(skip_blank(u, n) == n);
        assert(tokens_from(u, n) == Ok::<Seq<TokenView>, LexError>(Seq::empty()));
        assert(seq![t] + Seq::<TokenView>::empty() =~= ts);
    } else {
        let t = ts[0];
        let rest = ts.drop_first();
        let tail = spaced(rest);
        let head = spelling(t) + seq![' '];
        let n = spelling(t).len() as int;
        assert(u =~= spelling(t) + (seq![' '] + tail));
        assert(u =~= head + tail);
        lemma_relex_one(t, seq![' '] + tail);
        assert forall|i: int| 0 <= i < rest.len() implies lexed(#[trigger] rest[i]) by {
            assert(rest[i] == ts[i + 1]);
        }
        lemma_relex_spaced(rest);
        lemma_tokens_shift(head, tail, 0);
        assert(tokens_from(u, n + 1) == Ok::<Seq<TokenView>, LexError>(rest));
        assert(u[n] == ' ');
        assert(skip_blank(u, n) == skip_blank(u, n + 1));
        lemma_lex_advances(u, n + 1);
        assert(tokens_from(u, n) == tokens_from(u, n + 1));
        assert(seq![t] + rest =~= ts);
    }
}

/// Re-lexing, with blanks between the tokens only. When a text lexes
/// without error, lexing the spellings of its tokens with one blank
/// between every two yields the same tokens, and so the same tags.
pub proof fn lemma_relex_spaced_text(s: Seq<char>)
    requires
        tokens_from(s, 0) is Ok,
    ensures
        tokens_from(spaced(tokens_from(s, 0)->Ok_0), 0) == tokens_from(s, 0),
{
    lemma_tokens_lexed(s, 0);
    lemma_relex_spaced(tokens_from(s, 0)->Ok_0);
}

} // verus!
