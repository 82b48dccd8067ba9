//! The sets of the grammar: which nonterminals derive nothing, which
//! tokens their derivations start with, and which tokens follow them; and
//! the facts that tie the production table to these sets.

use vstd::prelude::*;
use crate::grammar::{Item, SymbolKind, production_of};
use crate::token::TokenTag;

verus! {

/// Whether the nonterminal derives the empty sequence of tokens.
pub open spec fn nullable(kind: SymbolKind) -> bool {
    match kind {
        SymbolKind::BoolTerm1 => true,
        SymbolKind::Comparison => true,
        SymbolKind::Conditional1 => true,
        SymbolKind::Expression1 => true,
        SymbolKind::IDOrFn => true,
        SymbolKind::InputList => true,
        SymbolKind::InputRest => true,
        SymbolKind::NodeRest => true,
        SymbolKind::OptElse => true,
        SymbolKind::OptIDList => true,
        SymbolKind::OptIndex => true,
        SymbolKind::ParamList => true,
        SymbolKind::ParamRest => true,
        SymbolKind::Program => true,
        SymbolKind::StmtList => true,
        SymbolKind::Term1 => true,
        SymbolKind::TLStmtList => true,
        _ => false,
    }
}

/// Whether a derivation of the nonterminal can start with a token of the
/// tag.
pub open spec fn first(kind: SymbolKind, tag: TokenTag) -> bool {
    match kind {
        SymbolKind::Array => tag == TokenTag::LeftBracket,
        SymbolKind::ArrLen => tag == TokenTag::Integer,
        SymbolKind::AssignOrFnCall => tag == TokenTag::Assign || tag == TokenTag::LeftBracket || tag == TokenTag::LeftParen,
        SymbolKind::Block => tag == TokenTag::LeftBrace,
        SymbolKind::BoolExpr => tag == TokenTag::Character || tag == TokenTag::False || tag == TokenTag::Float || tag == TokenTag::ID || tag == TokenTag::Integer || tag == TokenTag::LeftParen || tag == TokenTag::Sub || tag == TokenTag::True,
        SymbolKind::BoolTerm => tag == TokenTag::Character || tag == TokenTag::False || tag == TokenTag::Float || tag == TokenTag::ID || tag == TokenTag::Integer || tag == TokenTag::LeftParen || tag == TokenTag::Sub || tag == TokenTag::True,
        SymbolKind::BoolTerm1 => tag == TokenTag::LogicalAnd,
        SymbolKind::Comparison => tag == TokenTag::Equals || tag == TokenTag::Geq || tag == TokenTag::Greater || tag == TokenTag::Leq || tag == TokenTag::Less || tag == TokenTag::Neq,
        SymbolKind::Conditional => tag == TokenTag::Character || tag == TokenTag::False || tag == TokenTag::Float || tag == TokenTag::ID || tag == TokenTag::Integer || tag == TokenTag::LeftParen || tag == TokenTag::Sub || tag == TokenTag::True,
        SymbolKind::Conditional1 => tag == TokenTag::LogicalOr,
        SymbolKind::CondOrArr => tag == TokenTag::Character || tag == TokenTag::False || tag == TokenTag::Float || tag == TokenTag::ID || tag == TokenTag::Integer || tag == TokenTag::LeftBracket || tag == TokenTag::LeftParen || tag == TokenTag::Sub || tag == TokenTag::True,
        SymbolKind::Definition => tag == TokenTag::Const || tag == TokenTag::Var,
        SymbolKind::Expression => tag == TokenTag::Character || tag == TokenTag::False || tag == TokenTag::Float || tag == TokenTag::ID || tag == TokenTag::Integer || tag == TokenTag::LeftParen || tag == TokenTag::Sub || tag == TokenTag::True,
        SymbolKind::Expression1 => tag == TokenTag::Add || tag == TokenTag::Sub,
        SymbolKind::Factor => tag == TokenTag::False || tag == TokenTag::Float || tag == TokenTag::ID || tag == TokenTag::Integer || tag == TokenTag::LeftParen || tag == TokenTag::Sub || tag == TokenTag::True,
        SymbolKind::Func => tag == TokenTag::Fn,
        SymbolKind::ID => tag == TokenTag::ID,
        SymbolKind::IDOrFn => tag == TokenTag::LeftBracket || tag == TokenTag::LeftParen,
        SymbolKind::InputList => tag == TokenTag::Character || tag == TokenTag::False || tag == TokenTag::Float || tag == TokenTag::ID || tag == TokenTag::Integer || tag == TokenTag::LeftBracket || tag == TokenTag::LeftParen || tag == TokenTag::Sub || tag == TokenTag::True,
        SymbolKind::InputRest => tag == TokenTag::Comma,
        SymbolKind::NodeBlock => tag == TokenTag::LeftBrace,
        SymbolKind::NodeHeader => tag == TokenTag::ID,
        SymbolKind::NodeList => tag == TokenTag::ID,
        SymbolKind::NodeNT => tag == TokenTag::Node,
        SymbolKind::NodeRest => tag == TokenTag::Comma,
        SymbolKind::Primitive => tag == TokenTag::False || tag == TokenTag::Float || tag == TokenTag::Integer || tag == TokenTag::Sub || tag == TokenTag::True,
        SymbolKind::OptElse => tag == TokenTag::Else,
        SymbolKind::OptIDList => tag == TokenTag::Colon,
        SymbolKind::OptIndex => tag == TokenTag::LeftBracket,
        SymbolKind::Param => tag == TokenTag::ID,
        SymbolKind::ParamList => tag == TokenTag::ID,
        SymbolKind::ParamRest => tag == TokenTag::Comma,
        SymbolKind::Positive => tag == TokenTag::Float || tag == TokenTag::Integer,
        SymbolKind::Program => tag == TokenTag::Node,
        SymbolKind::ReturnType => tag == TokenTag::Bool || tag == TokenTag::Char || tag == TokenTag::FloatKW || tag == TokenTag::ID || tag == TokenTag::Int || tag == TokenTag::LeftBracket || tag == TokenTag::LeftParen || tag == TokenTag::Not,
        SymbolKind::Stmt => tag == TokenTag::Const || tag == TokenTag::ID || tag == TokenTag::If || tag == TokenTag::Return || tag == TokenTag::Var || tag == TokenTag::While,
        SymbolKind::StmtList => tag == TokenTag::Const || tag == TokenTag::ID || tag == TokenTag::If || tag == TokenTag::Return || tag == TokenTag::Var || tag == TokenTag::While,
        SymbolKind::Term => tag == TokenTag::Character || tag == TokenTag::False || tag == TokenTag::Float || tag == TokenTag::ID || tag == TokenTag::Integer || tag == TokenTag::LeftParen || tag == TokenTag::Sub || tag == TokenTag::True,
        SymbolKind::Term1 => tag == TokenTag::Div || tag == TokenTag::Mul,
        SymbolKind::TLStmt => tag == TokenTag::Export || tag == TokenTag::Fn,
        SymbolKind::TLStmtList => tag == TokenTag::Export || tag == TokenTag::Fn,
        SymbolKind::Type => tag == TokenTag::Bool || tag == TokenTag::Char || tag == TokenTag::FloatKW || tag == TokenTag::ID || tag == TokenTag::Int || tag == TokenTag::LeftBracket,
        _ => false,
    }
}

/// Whether a token of the tag, or for `None` the end of input, can follow
/// a derivation of the nonterminal.
pub open spec fn follows(kind: SymbolKind, look: Option<TokenTag>) -> bool {
    match kind {
        SymbolKind::Array => look == Some(TokenTag::Comma) || look == Some(TokenTag::RightBracket) || look == Some(TokenTag::RightParen) || look == Some(TokenTag::Semicolon),
        SymbolKind::ArrLen => look == Some(TokenTag::RightBracket),
        SymbolKind::AssignOrFnCall => look == Some(TokenTag::Const) || look == Some(TokenTag::ID) || look == Some(TokenTag::If) || look == Some(TokenTag::Return) || look == Some(TokenTag::RightBrace) || look == Some(TokenTag::Var) || look == Some(TokenTag::While),
        SymbolKind::Block => look == Some(TokenTag::Const) || look == Some(TokenTag::Else) || look == Some(TokenTag::Export) || look == Some(TokenTag::Fn) || look == Some(TokenTag::ID) || look == Some(TokenTag::If) || look == Some(TokenTag::Return) || look == Some(TokenTag::RightBrace) || look == Some(TokenTag::Var) || look == Some(TokenTag::While),
        SymbolKind::BoolExpr => look == Some(TokenTag::Comma) || look == Some(TokenTag::LeftBrace) || look == Some(TokenTag::LogicalAnd) || look == Some(TokenTag::LogicalOr) || look == Some(TokenTag::RightBracket) || look == Some(TokenTag::RightParen) || look == Some(TokenTag::Semicolon),
        SymbolKind::BoolTerm => look == Some(TokenTag::Comma) || look == Some(TokenTag::LeftBrace) || look == Some(TokenTag::LogicalOr) || look == Some(TokenTag::RightBracket) || look == Some(TokenTag::RightParen) || look == Some(TokenTag::Semicolon),
        SymbolKind::BoolTerm1 => look == Some(TokenTag::Comma) || look == Some(TokenTag::LeftBrace) || look == Some(TokenTag::LogicalOr) || look == Some(TokenTag::RightBracket) || look == Some(TokenTag::RightParen) || look == Some(TokenTag::Semicolon),
        SymbolKind::Comparison => look == Some(TokenTag::Comma) || look == Some(TokenTag::LeftBrace) || look == Some(TokenTag::LogicalAnd) || look == Some(TokenTag::LogicalOr) || look == Some(TokenTag::RightBracket) || look == Some(TokenTag::RightParen) || look == Some(TokenTag::Semicolon),
        SymbolKind::Conditional => look == Some(TokenTag::Comma) || look == Some(TokenTag::LeftBrace) || look == Some(TokenTag::RightBracket) || look == Some(TokenTag::RightParen) || look == Some(TokenTag::Semicolon),
        SymbolKind::Conditional1 => look == Some(TokenTag::Comma) || look == Some(TokenTag::LeftBrace) || look == Some(TokenTag::RightBracket) || look == Some(TokenTag::RightParen) || look == Some(TokenTag::Semicolon),
        SymbolKind::CondOrArr => look == Some(TokenTag::Comma) || look == Some(TokenTag::RightBracket) || look == Some(TokenTag::RightParen) || look == Some(TokenTag::Semicolon),
        SymbolKind::Definition => look == Some(TokenTag::Const) || look == Some(TokenTag::Export) || look == Some(TokenTag::Fn) || look == Some(TokenTag::ID) || look == Some(TokenTag::If) || look == Some(TokenTag::Return) || look == Some(TokenTag::RightBrace) || look == Some(TokenTag::Var) || look == Some(TokenTag::While),
        SymbolKind::Expression => look == Some(TokenTag::Comma) || look == Some(TokenTag::Equals) || look == Some(TokenTag::Geq) || look == Some(TokenTag::Greater) || look == Some(TokenTag::LeftBrace) || look == Some(TokenTag::Leq) || look == Some(TokenTag::Less) || look == Some(TokenTag::LogicalAnd) || look == Some(TokenTag::LogicalOr) || look == Some(TokenTag::Neq) || look == Some(TokenTag::RightBracket) || look == Some(TokenTag::RightParen) || look == Some(TokenTag::Semicolon),
        SymbolKind::Expression1 => look == Some(TokenTag::Comma) || look == Some(TokenTag::Equals) || look == Some(TokenTag::Geq) || look == Some(TokenTag::Greater) || look == Some(TokenTag::LeftBrace) || look == Some(TokenTag::Leq) || look == Some(TokenTag::Less) || look == Some(TokenTag::LogicalAnd) || look == Some(TokenTag::LogicalOr) || look == Some(TokenTag::Neq) || look == Some(TokenTag::RightBracket) || look == Some(TokenTag::RightParen) || look == Some(TokenTag::Semicolon),
        SymbolKind::Factor => look == Some(TokenTag::Add) || look == Some(TokenTag::Comma) || look == Some(TokenTag::Div) || look == Some(TokenTag::Equals) || look == Some(TokenTag::Geq) || look == Some(TokenTag::Greater) || look == Some(TokenTag::LeftBrace) || look == Some(TokenTag::Leq) || look == Some(TokenTag::Less) || look == Some(TokenTag::LogicalAnd) || look == Some(TokenTag::LogicalOr) || look == Some(TokenTag::Mul) || look == Some(TokenTag::Neq) || look == Some(TokenTag::RightBracket) || look == Some(TokenTag::RightParen) || look == Some(TokenTag::Semicolon) || look == Some(TokenTag::Sub),
        SymbolKind::Func => look == Some(TokenTag::Export) || look == Some(TokenTag::Fn) || look == Some(TokenTag::RightBrace),
        SymbolKind::ID => look == Some(TokenTag::Add) || look == Some(TokenTag::Assign) || look == Some(TokenTag::Colon) || look == Some(TokenTag::Comma) || look == Some(TokenTag::Div) || look == Some(TokenTag::Equals) || look == Some(TokenTag::Geq) || look == Some(TokenTag::Greater) || look == Some(TokenTag::LeftBrace) || look == Some(TokenTag::LeftBracket) || look == Some(TokenTag::LeftParen) || look == Some(TokenTag::Leq) || look == Some(TokenTag::Less) || look == Some(TokenTag::LogicalAnd) || look == Some(TokenTag::LogicalOr) || look == Some(TokenTag::Mul) || look == Some(TokenTag::Neq) || look == Some(TokenTag::RightBracket) || look == Some(TokenTag::RightParen) || look == Some(TokenTag::Semicolon) || look == Some(TokenTag::Sub),
        SymbolKind::IDOrFn => look == Some(TokenTag::Add) || look == Some(TokenTag::Comma) || look == Some(TokenTag::Div) || look == Some(TokenTag::Equals) || look == Some(TokenTag::Geq) || look == Some(TokenTag::Greater) || look == Some(TokenTag::LeftBrace) || look == Some(TokenTag::Leq) || look == Some(TokenTag::Less) || look == Some(TokenTag::LogicalAnd) || look == Some(TokenTag::LogicalOr) || look == Some(TokenTag::Mul) || look == Some(TokenTag::Neq) || look == Some(TokenTag::RightBracket) || look == Some(TokenTag::RightParen) || look == Some(TokenTag::Semicolon) || look == Some(TokenTag::Sub),
        SymbolKind::InputList => look == Some(TokenTag::RightBracket) || look == Some(TokenTag::RightParen),
        SymbolKind::InputRest => look == Some(TokenTag::RightBracket) || look == Some(TokenTag::RightParen),
        SymbolKind::NodeBlock => look is None || look == Some(TokenTag::Node),
        SymbolKind::NodeHeader => look == Some(TokenTag::LeftBrace),
        SymbolKind::NodeList => look == Some(TokenTag::LeftBrace),
        SymbolKind::NodeNT => look is None || look == Some(TokenTag::Node),
        SymbolKind::NodeRest => look == Some(TokenTag::LeftBrace),
        SymbolKind::Primitive => look == Some(TokenTag::Add) || look == Some(TokenTag::Comma) || look == Some(TokenTag::Div) || look == Some(TokenTag::Equals) || look == Some(TokenTag::Geq) || look == Some(TokenTag::Greater) || look == Some(TokenTag::LeftBrace) || look == Some(TokenTag::Leq) || look == Some(TokenTag::Less) || look == Some(TokenTag::LogicalAnd) || look == Some(TokenTag::LogicalOr) || look == Some(TokenTag::Mul) || look == Some(TokenTag::Neq) || look == Some(TokenTag::RightBracket) || look == Some(TokenTag::RightParen) || look == Some(TokenTag::Semicolon) || look == Some(TokenTag::Sub),
        SymbolKind::OptElse => look == Some(TokenTag::Const) || look == Some(TokenTag::ID) || look == Some(TokenTag::If) || look == Some(TokenTag::Return) || look == Some(TokenTag::RightBrace) || look == Some(TokenTag::Var) || look == Some(TokenTag::While),
        SymbolKind::OptIDList => look == Some(TokenTag::LeftBrace),
        SymbolKind::OptIndex => look == Some(TokenTag::Add) || look == Some(TokenTag::Assign) || look == Some(TokenTag::Comma) || look == Some(TokenTag::Div) || look == Some(TokenTag::Equals) || look == Some(TokenTag::Geq) || look == Some(TokenTag::Greater) || look == Some(TokenTag::LeftBrace) || look == Some(TokenTag::Leq) || look == Some(TokenTag::Less) || look == Some(TokenTag::LogicalAnd) || look == Some(TokenTag::LogicalOr) || look == Some(TokenTag::Mul) || look == Some(TokenTag::Neq) || look == Some(TokenTag::RightBracket) || look == Some(TokenTag::RightParen) || look == Some(TokenTag::Semicolon) || look == Some(TokenTag::Sub),
        SymbolKind::Param => look == Some(TokenTag::Comma) || look == Some(TokenTag::RightParen),
        SymbolKind::ParamList => look == Some(TokenTag::RightParen),
        SymbolKind::ParamRest => look == Some(TokenTag::RightParen),
        SymbolKind::Positive => look == Some(TokenTag::Add) || look == Some(TokenTag::Comma) || look == Some(TokenTag::Div) || look == Some(TokenTag::Equals) || look == Some(TokenTag::Geq) || look == Some(TokenTag::Greater) || look == Some(TokenTag::LeftBrace) || look == Some(TokenTag::Leq) || look == Some(TokenTag::Less) || look == Some(TokenTag::LogicalAnd) || look == Some(TokenTag::LogicalOr) || look == Some(TokenTag::Mul) || look == Some(TokenTag::Neq) || look == Some(TokenTag::RightBracket) || look == Some(TokenTag::RightParen) || look == Some(TokenTag::Semicolon) || look == Some(TokenTag::Sub),
        SymbolKind::Program => look is None,
        SymbolKind::ReturnType => look == Some(TokenTag::LeftBrace),
        SymbolKind::Stmt => look == Some(TokenTag::Const) || look == Some(TokenTag::ID) || look == Some(TokenTag::If) || look == Some(TokenTag::Return) || look == Some(TokenTag::RightBrace) || look == Some(TokenTag::Var) || look == Some(TokenTag::While),
        SymbolKind::StmtList => look == Some(TokenTag::RightBrace),
        SymbolKind::Term => look == Some(TokenTag::Add) || look == Some(TokenTag::Comma) || look == Some(TokenTag::Equals) || look == Some(TokenTag::Geq) || look == Some(TokenTag::Greater) || look == Some(TokenTag::LeftBrace) || look == Some(TokenTag::Leq) || look == Some(TokenTag::Less) || look == Some(TokenTag::LogicalAnd) || look == Some(TokenTag::LogicalOr) || look == Some(TokenTag::Neq) || look == Some(TokenTag::RightBracket) || look == Some(TokenTag::RightParen) || look == Some(TokenTag::Semicolon) || look == Some(TokenTag::Sub),
        SymbolKind::Term1 => look == Some(TokenTag::Add) || look == Some(TokenTag::Comma) || look == Some(TokenTag::Equals) || look == Some(TokenTag::Geq) || look == Some(TokenTag::Greater) || look == Some(TokenTag::LeftBrace) || look == Some(TokenTag::Leq) || look == Some(TokenTag::Less) || look == Some(TokenTag::LogicalAnd) || look == Some(TokenTag::LogicalOr) || look == Some(TokenTag::Neq) || look == Some(TokenTag::RightBracket) || look == Some(TokenTag::RightParen) || look == Some(TokenTag::Semicolon) || look == Some(TokenTag::Sub),
        SymbolKind::TLStmt => look == Some(TokenTag::Export) || look == Some(TokenTag::Fn) || look == Some(TokenTag::RightBrace),
        SymbolKind::TLStmtList => look == Some(TokenTag::RightBrace),
        SymbolKind::Type => look == Some(TokenTag::Assign) || look == Some(TokenTag::Comma) || look == Some(TokenTag::LeftBrace) || look == Some(TokenTag::RightParen) || look == Some(TokenTag::Semicolon),
        _ => false,
    }
}

/// Whether the items of a production from the `i`-th on can derive a
/// sequence of tokens that starts with a token of the tag.
pub open spec fn first_from(items: Seq<Item>, i: int, tag: TokenTag) -> bool
    decreases items.len() - i,
{
    if i < 0 || i >= items.len() {
        false
    } else {
        match items[i] {
            Item::T(t) => t == tag,
            Item::N(k) => first(k, tag) || (nullable(k) && first_from(items, i + 1, tag)),
        }
    }
}

/// Whether the items of a production from the `i`-th on can derive the
/// empty sequence of tokens.
pub open spec fn nullable_from(items: Seq<Item>, i: int) -> bool
    decreases items.len() - i,
{
    if i < 0 || i >= items.len() {
        true
    } else {
        match items[i] {
            Item::T(_) => false,
            Item::N(k) => nullable(k) && nullable_from(items, i + 1),
        }
    }
}

/// What can follow the `i`-th item of a production of `kind`: what the
/// items after it can start with, and, when they can derive nothing, what
/// can follow `kind`.
pub open spec fn follows_item(kind: SymbolKind, items: Seq<Item>, i: int, look: Option<TokenTag>) -> bool {
    (look matches Some(tag) && first_from(items, i + 1, tag)) || (nullable_from(items, i + 1)
        && follows(kind, look))
}

/// The table picks by the first token: a production that can start with a
/// token of the tag is the production that the table holds for the tag.
pub proof fn lemma_table_first(kind: SymbolKind, other: Option<TokenTag>, tag: TokenTag)
    requires
        production_of(kind, other) is Some,
        first_from(production_of(kind, other)->0, 0, tag),
    ensures
        production_of(kind, Some(tag)) == production_of(kind, other),
{
    reveal_with_fuel(first_from, 9);
}

/// The table picks the empty production for what follows: for a
/// nonterminal that derives nothing and a token that can follow it, the
/// table holds the empty production.
pub proof fn lemma_table_follows(kind: SymbolKind, look: Option<TokenTag>)
    requires
        nullable(kind),
        follows(kind, look),
    ensures
        production_of(kind, look) == Some(Seq::<Item>::empty()),
{
}

/// The sets are closed under the productions: what a production can start
/// with, its nonterminal can start with; a nonterminal with a production
/// that derives nothing derives nothing; and what can follow an item of a
/// production can follow the nonterminal that the item names.
pub proof fn lemma_sets_closed(kind: SymbolKind, other: Option<TokenTag>)
    requires
        production_of(kind, other) is Some,
    ensures
        forall|tag: TokenTag|
            first_from(production_of(kind, other)->0, 0, tag) ==> #[trigger] first(kind, tag),
        nullable_from(production_of(kind, other)->0, 0) ==> nullable(kind),
        forall|i: int, look: Option<TokenTag>|
            0 <= i < production_of(kind, other)->0.len() && production_of(kind, other)->0[i] is N
                && #[trigger] follows_item(kind, production_of(kind, other)->0, i, look) ==> follows(
                production_of(kind, other)->0[i]->N_0,
                look,
            ),
{
    reveal_with_fuel(first_from, 9);
    reveal_with_fuel(nullable_from, 9);
}

} // verus!
