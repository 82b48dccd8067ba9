//! The lexer: a scanner over a character buffer that yields one token per
//! call, skipping blanks and line comments.

use vstd::prelude::*;
use vstd::string::StringExecFns;
use crate::token::{FloatLiteral, FloatView, Token, TokenTag, TokenView, keyword, keyword_of};
use crate::text::string_of;

verus! {

/// Why a stretch of source text is not a token.
#[derive(Clone, Copy, Debug, PartialEq, Eq, Structural)]
pub enum LexError {
    /// A character literal whose body is not exactly one character, or that
    /// is not closed.
    MalformedCharacter,
    /// A string literal without its closing quote.
    UnterminatedString,
    /// A character that begins no token.
    UnexpectedCharacter,
    /// An integer literal above the largest 32-bit signed integer.
    IntegerOutOfRange,
    /// Digits and a dot with no digit after the dot.
    MalformedNumber,
}

impl LexError {
    /// The diagnostic of the error.
    pub open spec fn text(self) -> Seq<char> {
        match self {
            LexError::MalformedCharacter => "Error: characters must be one character length"@,
            LexError::UnterminatedString => "Error: strings must end with a quote"@,
            LexError::UnexpectedCharacter => "Error: unexpected character"@,
            LexError::IntegerOutOfRange => "Error: integers must fit in 32 bits"@,
            LexError::MalformedNumber => "Error: a digit must follow the dot of a number"@,
        }
    }

    /// The diagnostic of the error, as a string.
    pub fn message(&self) -> (r: String)
        ensures
            r@ == self.text(),
    {
        match self {
            LexError::MalformedCharacter => String::from_str(
                "Error: characters must be one character length",
            ),
            LexError::UnterminatedString => String::from_str("Error: strings must end with a quote"),
            LexError::UnexpectedCharacter => String::from_str("Error: unexpected character"),
            LexError::IntegerOutOfRange => String::from_str("Error: integers must fit in 32 bits"),
            LexError::MalformedNumber => String::from_str(
                "Error: a digit must follow the dot of a number",
            ),
        }
    }
}

/// What lexing at a position yields.
pub enum Scan {
    /// A token, and the position just after it.
    Token(TokenView, int),
    /// No token is left; the position reached.
    End(int),
    /// The text at the position is ill-formed.
    Error(LexError),
}

/// Whether the character is a blank.
pub open spec fn is_space(c: char) -> bool {
    c == ' ' || c == '\t' || c == '\n' || c == '\r'
}

/// Whether the character is an ASCII letter.
pub open spec fn is_letter(c: char) -> bool {
    ('a' <= c && c <= 'z') || ('A' <= c && c <= 'Z')
}

/// Whether the character is a decimal digit.
pub open spec fn is_digit(c: char) -> bool {
    '0' <= c && c <= '9'
}

/// Whether the character may stand in an identifier.
pub open spec fn is_word_char(c: char) -> bool {
    is_letter(c) || is_digit(c) || c == '_'
}

/// The end of the run of digits that starts at `i`.
pub open spec fn digits_end(s: Seq<char>, i: int) -> int
    decreases s.len() - i,
{
    if 0 <= i < s.len() && is_digit(s[i]) {
        digits_end(s, i + 1)
    } else {
        i
    }
}

/// The end of the run of letters, digits and underscores that starts at `i`.
pub open spec fn word_end(s: Seq<char>, i: int) -> int
    decreases s.len() - i,
{
    if 0 <= i < s.len() && is_word_char(s[i]) {
        word_end(s, i + 1)
    } else {
        i
    }
}

/// The first position from `i` on that holds the character `stop`, or the
/// length of the text when there is none.
pub open spec fn find_char(s: Seq<char>, i: int, stop: char) -> int
    decreases s.len() - i,
{
    if 0 <= i < s.len() && s[i] != stop {
        find_char(s, i + 1, stop)
    } else {
        i
    }
}

/// The first position from `i` on that is neither a blank nor inside a line
/// comment. A line comment runs from `//` through the end of its line.
pub open spec fn skip_blank(s: Seq<char>, i: int) -> int
    decreases s.len() - i,
{
    if 0 <= i < s.len() && is_space(s[i]) {
        skip_blank(s, i + 1)
    } else if 0 <= i && i + 1 < s.len() && s[i] == '/' && s[i + 1] == '/' {
        let e = find_char(s, i + 2, '\n');
        if i + 2 <= e <= s.len() {
            skip_blank(s, e)
        } else {
            i
        }
    } else {
        i
    }
}

/// The number that a run of decimal digits denotes.
pub open spec fn decimal_value(digits: Seq<char>) -> nat
    decreases digits.len(),
{
    if digits.len() == 0 {
        0
    } else {
        (decimal_value(digits.drop_last()) * 10 + (digits.last() as int - '0' as int)) as nat
    }
}

/// The token of a delimiter that is a token by itself.
pub open spec fn delimiter_of(c: char) -> Option<TokenTag> {
    if c == '{' {
        Some(TokenTag::LeftBrace)
    } else if c == '}' {
        Some(TokenTag::RightBrace)
    } else if c == '(' {
        Some(TokenTag::LeftParen)
    } else if c == ')' {
        Some(TokenTag::RightParen)
    } else if c == '[' {
        Some(TokenTag::LeftBracket)
    } else if c == ']' {
        Some(TokenTag::RightBracket)
    } else if c == ';' {
        Some(TokenTag::Semicolon)
    } else if c == '.' {
        Some(TokenTag::Dot)
    } else if c == ',' {
        Some(TokenTag::Comma)
    } else {
        None
    }
}

/// For the first character of an operator: the token it is alone, and the
/// token it is when `follow` comes right after it, if the two form one.
pub open spec fn operator_of(c: char, follow: Option<char>) -> Option<(TokenTag, bool)> {
    let eq = follow == Some('=');
    if c == '+' {
        Some(if eq { (TokenTag::AddAssign, true) } else { (TokenTag::Add, false) })
    } else if c == '*' {
        Some(if eq { (TokenTag::MulAssign, true) } else { (TokenTag::Mul, false) })
    } else if c == '/' {
        Some(if eq { (TokenTag::DivAssign, true) } else { (TokenTag::Div, false) })
    } else if c == '=' {
        Some(if eq { (TokenTag::Equals, true) } else { (TokenTag::Assign, false) })
    } else if c == '!' {
        Some(if eq { (TokenTag::Neq, true) } else { (TokenTag::Not, false) })
    } else if c == '<' {
        Some(if eq { (TokenTag::Leq, true) } else { (TokenTag::Less, false) })
    } else if c == '>' {
        Some(if eq { (TokenTag::Geq, true) } else { (TokenTag::Greater, false) })
    } else if c == '-' {
        Some(
            if follow == Some('>') {
                (TokenTag::Arrow, true)
            } else if eq {
                (TokenTag::SubAssign, true)
            } else {
                (TokenTag::Sub, false)
            },
        )
    } else if c == ':' {
        Some(if follow == Some(':') { (TokenTag::DoubleColon, true) } else { (TokenTag::Colon, false) })
    } else if c == '&' {
        Some(if follow == Some('&') { (TokenTag::LogicalAnd, true) } else { (TokenTag::BitwiseAnd, false) })
    } else if c == '|' {
        Some(if follow == Some('|') { (TokenTag::LogicalOr, true) } else { (TokenTag::BitwiseOr, false) })
    } else {
        None
    }
}

/// The character at `i`, if the text has one there.
pub open spec fn char_at(s: Seq<char>, i: int) -> Option<char> {
    if 0 <= i < s.len() {
        Some(s[i])
    } else {
        None
    }
}

/// The token that starts at `i`, a position inside the text that holds no
/// blank and starts no comment.
pub open spec fn scan_at(s: Seq<char>, i: int) -> Scan
    recommends
        0 <= i < s.len(),
{
    let c = s[i];
    if delimiter_of(c) is Some {
        Scan::Token(TokenView::Plain(delimiter_of(c)->0), i + 1)
    } else if operator_of(c, char_at(s, i + 1)) is Some {
        let (tag, two) = operator_of(c, char_at(s, i + 1))->0;
        Scan::Token(TokenView::Plain(tag), if two { i + 2 } else { i + 1 })
    } else if is_letter(c) || c == '_' {
        let e = word_end(s, i + 1);
        let word = s.subrange(i, e);
        match keyword_of(word) {
            Some(tag) => Scan::Token(TokenView::Plain(tag), e),
            None => Scan::Token(TokenView::ID(word), e),
        }
    } else if is_digit(c) {
        let e = digits_end(s, i + 1);
        if char_at(s, e) == Some('.') {
            let f = digits_end(s, e + 1);
            if f == e + 1 {
                Scan::Error(LexError::MalformedNumber)
            } else {
                Scan::Token(
                    TokenView::Float(FloatView { negative: false, digits: s.subrange(i, f) }),
                    f,
                )
            }
        } else if decimal_value(s.subrange(i, e)) > i32::MAX {
            Scan::Error(LexError::IntegerOutOfRange)
        } else {
            Scan::Token(TokenView::Integer(decimal_value(s.subrange(i, e)) as i32), e)
        }
    } else if c == '"' {
        let q = find_char(s, i + 1, '"');
        if q >= s.len() {
            Scan::Error(LexError::UnterminatedString)
        } else {
            Scan::Token(TokenView::StringLiteral(s.subrange(i, q + 1)), q + 1)
        }
    } else if c == '\'' {
        if i + 2 < s.len() && s[i + 1] != '\'' && s[i + 2] == '\'' {
            Scan::Token(TokenView::Character(s[i + 1]), i + 3)
        } else {
            Scan::Error(LexError::MalformedCharacter)
        }
    } else {
        Scan::Error(LexError::UnexpectedCharacter)
    }
}

/// Lexing from position `pos`: blanks and comments are passed over, then
/// the token that starts there is read.
pub open spec fn lex(s: Seq<char>, pos: int) -> Scan {
    let i = skip_blank(s, pos);
    if i >= s.len() {
        Scan::End(i)
    } else {
        scan_at(s, i)
    }
}

/// A run of digits ends inside the text, and holds digits only.
pub proof fn lemma_digits_end_bounds(s: Seq<char>, i: int)
    requires
        0 <= i <= s.len(),
    ensures
        i <= digits_end(s, i) <= s.len(),
        forall|k: int| i <= k < digits_end(s, i) ==> is_digit(#[trigger] s[k]),
    decreases s.len() - i,
{
    if i < s.len() && is_digit(s[i]) {
        lemma_digits_end_bounds(s, i + 1);
    }
}

/// A run of word characters ends inside the text, and holds word characters only.
pub proof fn lemma_word_end_bounds(s: Seq<char>, i: int)
    requires
        0 <= i <= s.len(),
    ensures
        i <= word_end(s, i) <= s.len(),
        forall|k: int| i <= k < word_end(s, i) ==> is_word_char(#[trigger] s[k]),
    decreases s.len() - i,
{
    if i < s.len() && is_word_char(s[i]) {
        lemma_word_end_bounds(s, i + 1);
    }
}

/// The search for a character ends inside the text, at the first place that holds it.
pub proof fn lemma_find_char_bounds(s: Seq<char>, i: int, stop: char)
    requires
        0 <= i <= s.len(),
    ensures
        i <= find_char(s, i, stop) <= s.len(),
        forall|k: int| i <= k < find_char(s, i, stop) ==> #[trigger] s[k] != stop,
        find_char(s, i, stop) < s.len() ==> s[find_char(s, i, stop)] == stop,
    decreases s.len() - i,
{
    if i < s.len() && s[i] != stop {
        lemma_find_char_bounds(s, i + 1, stop);
    }
}

/// Skipping blanks and comments ends inside the text.
pub proof fn lemma_skip_blank_bounds(s: Seq<char>, i: int)
    requires
        0 <= i <= s.len(),
    ensures
        i <= skip_blank(s, i) <= s.len(),
    decreases s.len() - i,
{
    if i < s.len() && is_space(s[i]) {
        lemma_skip_blank_bounds(s, i + 1);
    } else if i + 1 < s.len() && s[i] == '/' && s[i + 1] == '/' {
        lemma_find_char_bounds(s, i + 2, '\n');
        lemma_skip_blank_bounds(s, find_char(s, i + 2, '\n'));
    }
}

/// A token ends after the position it was lexed from, and inside the text.
pub proof fn lemma_lex_advances(s: Seq<char>, pos: int)
    requires
        0 <= pos <= s.len(),
    ensures
        lex(s, pos) matches Scan::Token(_, next) ==> pos < next <= s.len(),
        lex(s, pos) matches Scan::End(at) ==> at == s.len(),
{
    lemma_skip_blank_bounds(s, pos);
    let i = skip_blank(s, pos);
    if i < s.len() {
        lemma_word_end_bounds(s, i + 1);
        lemma_digits_end_bounds(s, i + 1);
        let e = digits_end(s, i + 1);
        if e < s.len() {
            lemma_digits_end_bounds(s, e + 1);
        }
        lemma_find_char_bounds(s, i + 1, '"');
    }
}

/// The value of a run of digits with one more digit appended.
pub proof fn lemma_decimal_step(s: Seq<char>, i: int, k: int)
    requires
        0 <= i <= k < s.len(),
    ensures
        is_digit(s[k]) ==> decimal_value(s.subrange(i, k + 1)) == decimal_value(s.subrange(i, k))
            * 10 + (s[k] as int - '0' as int),
{
    let t = s.subrange(i, k + 1);
    assert(t.drop_last() =~= s.subrange(i, k));
    assert(t.last() == s[k]);
}

/// Appending digits never lowers the value.
pub proof fn lemma_decimal_monotonic(s: Seq<char>, i: int, k: int, e: int)
    requires
        0 <= i <= k <= e <= s.len(),
        forall|j: int| i <= j < e ==> is_digit(#[trigger] s[j]),
    ensures
        decimal_value(s.subrange(i, k)) <= decimal_value(s.subrange(i, e)),
    decreases e - k,
{
    if k < e {
        lemma_decimal_monotonic(s, i, k, e - 1);
        lemma_decimal_step(s, i, e - 1);
    }
}

/// Whether the character is a blank.
pub fn is_space_char(c: char) -> (r: bool)
    ensures
        r == is_space(c),
{
    c == ' ' || c == '\t' || c == '\n' || c == '\r'
}

/// Whether the character is a decimal digit.
pub fn is_digit_char(c: char) -> (r: bool)
    ensures
        r == is_digit(c),
{
    '0' <= c && c <= '9'
}

/// Whether the character may stand in an identifier.
pub fn is_word_character(c: char) -> (r: bool)
    ensures
        r == is_word_char(c),
{
    ('a' <= c && c <= 'z') || ('A' <= c && c <= 'Z') || ('0' <= c && c <= '9') || c == '_'
}

/// The lexer: the characters of the source and the position of the next
/// character to read.
pub struct Lexer {
    chars: Vec<char>,
    curr: usize,
}

impl Lexer {
    #[verifier::type_invariant]
    spec fn inv(self) -> bool {
        self.curr <= self.chars.len()
    }

    /// The source text.
    pub closed spec fn text(&self) -> Seq<char> {
        self.chars@
    }

    /// The position of the next character to read.
    pub closed spec fn position(&self) -> int {
        self.curr as int
    }

    /// A lexer at the start of `chars`.
    pub fn new(chars: Vec<char>) -> (r: Lexer)
        ensures
            r.text() == chars@,
            r.position() == 0,
    {
        Lexer { chars, curr: 0 }
    }

    /// How many characters are left to read.
    pub fn remaining(&self) -> (r: usize)
        ensures
            0 <= self.position() <= self.text().len(),
            r == self.text().len() - self.position(),
    {
        proof {
            use_type_invariant(self);
        }
        self.chars.len() - self.curr
    }

    fn digits_end(&self, i: usize) -> (r: usize)
        requires
            i <= self.chars.len(),
        ensures
            r == digits_end(self.chars@, i as int),
            i <= r <= self.chars.len(),
    {
        let mut j: usize = i;
        while j < self.chars.len() && is_digit_char(self.chars[j])
            invariant
                i <= j <= self.chars.len(),
                digits_end(self.chars@, i as int) == digits_end(self.chars@, j as int),
            decreases self.chars.len() - j,
        {
            j += 1;
        }
        j
    }

    fn word_end(&self, i: usize) -> (r: usize)
        requires
            i <= self.chars.len(),
        ensures
            r == word_end(self.chars@, i as int),
            i <= r <= self.chars.len(),
    {
        let mut j: usize = i;
        while j < self.chars.len() && is_word_character(self.chars[j])
            invariant
                i <= j <= self.chars.len(),
                word_end(self.chars@, i as int) == word_end(self.chars@, j as int),
            decreases self.chars.len() - j,
        {
            j += 1;
        }
        j
    }

    fn find_char(&self, i: usize, stop: char) -> (r: usize)
        requires
            i <= self.chars.len(),
        ensures
            r == find_char(self.chars@, i as int, stop),
            i <= r <= self.chars.len(),
    {
        let mut j: usize = i;
        while j < self.chars.len() && self.chars[j] != stop
            invariant
                i <= j <= self.chars.len(),
                find_char(self.chars@, i as int, stop) == find_char(self.chars@, j as int, stop),
            decreases self.chars.len() - j,
        {
            j += 1;
        }
        j
    }

    fn skip_blank(&self, i: usize) -> (r: usize)
        requires
            i <= self.chars.len(),
        ensures
            r == skip_blank(self.chars@, i as int),
            i <= r <= self.chars.len(),
    {
        let n = self.chars.len();
        let mut j: usize = i;
        loop
            invariant
                i <= j <= n,
                n == self.chars.len(),
                skip_blank(self.chars@, i as int) == skip_blank(self.chars@, j as int),
            ensures
                j == skip_blank(self.chars@, i as int),
            decreases n - j,
        {
            if j < n && is_space_char(self.chars[j]) {
                j += 1;
            } else if j < n && n - j >= 2 && self.chars[j] == '/' && self.chars[j + 1] == '/' {
                let e = self.find_char(j + 2, '\n');
                j = e;
            } else {
                break;
            }
        }
        j
    }

    /// The value of the digits `chars[from..to]`, or `None` when it is above
    /// the largest 32-bit signed integer.
    fn decimal(&self, from: usize, to: usize) -> (r: Option<i32>)
        requires
            from <= to <= self.chars.len(),
            forall|k: int| from <= k < to ==> is_digit(#[trigger] self.chars@[k]),
        ensures
            r is None <==> decimal_value(self.chars@.subrange(from as int, to as int)) > i32::MAX,
            r matches Some(v) ==> v == decimal_value(self.chars@.subrange(from as int, to as int)),
    {
        let mut acc: u64 = 0;
        let mut k: usize = from;
        assert(self.chars@.subrange(from as int, from as int) =~= Seq::<char>::empty());
        while k < to
            invariant
                from <= k <= to <= self.chars.len(),
                forall|j: int| from <= j < to ==> is_digit(#[trigger] self.chars@[j]),
                acc == decimal_value(self.chars@.subrange(from as int, k as int)),
                acc <= i32::MAX,
            decreases to - k,
        {
            let d: u64 = (self.chars[k] as u32 - '0' as u32) as u64;
            proof {
                lemma_decimal_step(self.chars@, from as int, k as int);
            }
            acc = acc * 10 + d;
            k += 1;
            if acc > 0x7fff_ffff {
                proof {
                    lemma_decimal_monotonic(self.chars@, from as int, k as int, to as int);
                }
                return None;
            }
        }
        Some(acc as i32)
    }

    /// Reads the next token.
    ///
    /// Blanks and line comments before it are passed over. The result is
    /// `Ok(Some(..))` with the token and the position moved just past it,
    /// `Ok(None)` when only blanks and comments are left, and an error, with
    /// the position unchanged, when the text there is no token.
    pub fn next_token(&mut self) -> (r: Result<Option<Token>, LexError>)
        ensures
            final(self).text() == old(self).text(),
            match lex(old(self).text(), old(self).position()) {
                Scan::Token(t, next) => r matches Ok(Some(k)) && k@ == t && final(self).position()
                    == next,
                Scan::End(at) => r matches Ok(None) && final(self).position() == at,
                Scan::Error(e) => r == Err::<Option<Token>, LexError>(e) && final(self).position()
                    == old(self).position(),
            },
    {
        proof {
            use_type_invariant(&*self);
        }
        let n = self.chars.len();
        let i = self.skip_blank(self.curr);
        if i >= n {
            self.curr = i;
            return Ok(None);
        }
        let c = self.chars[i];
        let ghost s = self.chars@;
        let follow: Option<char> = if n - i > 1 {
            Some(self.chars[i + 1])
        } else {
            None
        };
        assert(follow == char_at(s, i + 1));
        match delimiter(c) {
            Some(tag) => {
                self.curr = i + 1;
                return Ok(Some(Token::of_tag(tag)));
            },
            None => {},
        }
        match operator(c, follow) {
            Some((tag, two)) => {
                self.curr = if two {
                    i + 2
                } else {
                    i + 1
                };
                return Ok(Some(Token::of_tag(tag)));
            },
            None => {},
        }
        if ('a' <= c && c <= 'z') || ('A' <= c && c <= 'Z') || c == '_' {
            let e = self.word_end(i + 1);
            let word = string_of(&self.chars, i, e);
            self.curr = e;
            return match keyword(&word) {
                Some(tag) => {
                    proof {
                        lemma_keywords_plain(word@);
                    }
                    Ok(Some(Token::of_tag(tag)))
                },
                None => Ok(Some(Token::ID(word))),
            };
        }
        if is_digit_char(c) {
            let e = self.digits_end(i + 1);
            proof {
                lemma_digits_end_bounds(s, i + 1);
            }
            if e < n && self.chars[e] == '.' {
                let f = self.digits_end(e + 1);
                if f == e + 1 {
                    return Err(LexError::MalformedNumber);
                }
                let digits = string_of(&self.chars, i, f);
                self.curr = f;
                return Ok(Some(Token::Float(FloatLiteral { negative: false, digits })));
            }
            return match self.decimal(i, e) {
                Some(v) => {
                    self.curr = e;
                    Ok(Some(Token::Integer(v)))
                },
                None => Err(LexError::IntegerOutOfRange),
            };
        }
        if c == '"' {
            let q = self.find_char(i + 1, '"');
            if q >= n {
                return Err(LexError::UnterminatedString);
            }
            let text = string_of(&self.chars, i, q + 1);
            self.curr = q + 1;
            return Ok(Some(Token::StringLiteral(text)));
        }
        if c == '\'' {
            if n - i > 2 && self.chars[i + 1] != '\'' && self.chars[i + 2] == '\'' {
                let body = self.chars[i + 1];
                self.curr = i + 3;
                return Ok(Some(Token::Character(body)));
            }
            return Err(LexError::MalformedCharacter);
        }
        Err(LexError::UnexpectedCharacter)
    }
}

/// A keyword's tag is never the tag of a payload-carrying token.
pub proof fn lemma_keywords_plain(word: Seq<char>)
    ensures
        keyword_of(word) matches Some(t) ==> !crate::token::carries_payload(t),
{
}

/// The token of a delimiter that is a token by itself.
pub fn delimiter(c: char) -> (r: Option<TokenTag>)
    ensures
        r == delimiter_of(c),
        r matches Some(t) ==> !crate::token::carries_payload(t),
{
    if c == '{' {
        Some(TokenTag::LeftBrace)
    } else if c == '}' {
        Some(TokenTag::RightBrace)
    } else if c == '(' {
        Some(TokenTag::LeftParen)
    } else if c == ')' {
        Some(TokenTag::RightParen)
    } else if c == '[' {
        Some(TokenTag::LeftBracket)
    } else if c == ']' {
        Some(TokenTag::RightBracket)
    } else if c == ';' {
        Some(TokenTag::Semicolon)
    } else if c == '.' {
        Some(TokenTag::Dot)
    } else if c == ',' {
        Some(TokenTag::Comma)
    } else {
        None
    }
}

/// The token of an operator, from its first character and the character after it.
pub fn operator(c: char, follow: Option<char>) -> (r: Option<(TokenTag, bool)>)
    ensures
        r == operator_of(c, follow),
        r matches Some(p) ==> !crate::token::carries_payload(p.0),
{
    let eq = match follow {
        Some(f) => f == '=',
        None => false,
    };
    let same = match follow {
        Some(f) => f == c,
        None => false,
    };
    let gt = match follow {
        Some(f) => f == '>',
        None => false,
    };
    if c == '+' {
        Some(if eq { (TokenTag::AddAssign, true) } else { (TokenTag::Add, false) })
    } else if c == '*' {
        Some(if eq { (TokenTag::MulAssign, true) } else { (TokenTag::Mul, false) })
    } else if c == '/' {
        Some(if eq { (TokenTag::DivAssign, true) } else { (TokenTag::Div, false) })
    } else if c == '=' {
        Some(if eq { (TokenTag::Equals, true) } else { (TokenTag::Assign, false) })
    } else if c == '!' {
        Some(if eq { (TokenTag::Neq, true) } else { (TokenTag::Not, false) })
    } else if c == '<' {
        Some(if eq { (TokenTag::Leq, true) } else { (TokenTag::Less, false) })
    } else if c == '>' {
        Some(if eq { (TokenTag::Geq, true) } else { (TokenTag::Greater, false) })
    } else if c == '-' {
        Some(
            if gt {
                (TokenTag::Arrow, true)
            } else if eq {
                (TokenTag::SubAssign, true)
            } else {
                (TokenTag::Sub, false)
            },
        )
    } else if c == ':' {
        Some(if same { (TokenTag::DoubleColon, true) } else { (TokenTag::Colon, false) })
    } else if c == '&' {
        Some(if same { (TokenTag::LogicalAnd, true) } else { (TokenTag::BitwiseAnd, false) })
    } else if c == '|' {
        Some(if same { (TokenTag::LogicalOr, true) } else { (TokenTag::BitwiseOr, false) })
    } else {
        None
    }
}

} // verus!
