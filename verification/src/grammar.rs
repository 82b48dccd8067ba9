//! The grammar: its symbols and the table that picks, for a nonterminal and
//! the tag of the next token, the production to expand.

use vstd::prelude::*;
use crate::token::{Token, TokenTag, TokenView};

verus! {

/// A grammar symbol: a terminal with the token it stands for, the empty
/// production, the end of input, or a nonterminal.
#[derive(Debug, PartialEq)]
pub enum GrammarSymbol {
    Terminal(Token),
    Empty,
    End,
    Array,
    ArrLen,
    AssignOrFnCall,
    Block,
    BoolExpr,
    BoolTerm,
    BoolTerm1,
    Comparison,
    Conditional,
    Conditional1,
    CondOrArr,
    Definition,
    Expression,
    Expression1,
    Factor,
    Func,
    ID,
    IDOrFn,
    InputList,
    InputRest,
    NodeBlock,
    NodeHeader,
    NodeList,
    NodeNT,
    NodeRest,
    Primitive,
    OptElse,
    OptIDList,
    OptIndex,
    Param,
    ParamList,
    ParamRest,
    Positive,
    Program,
    ReturnType,
    Stmt,
    StmtList,
    Term,
    Term1,
    TLStmt,
    TLStmtList,
    Type,
}

/// Which symbol a [`GrammarSymbol`] is, without the token of a terminal.
#[derive(Clone, Copy, Debug, PartialEq, Eq, Structural)]
pub enum SymbolKind {
    Terminal,
    Empty,
    End,
    Array,
    ArrLen,
    AssignOrFnCall,
    Block,
    BoolExpr,
    BoolTerm,
    BoolTerm1,
    Comparison,
    Conditional,
    Conditional1,
    CondOrArr,
    Definition,
    Expression,
    Expression1,
    Factor,
    Func,
    ID,
    IDOrFn,
    InputList,
    InputRest,
    NodeBlock,
    NodeHeader,
    NodeList,
    NodeNT,
    NodeRest,
    Primitive,
    OptElse,
    OptIDList,
    OptIndex,
    Param,
    ParamList,
    ParamRest,
    Positive,
    Program,
    ReturnType,
    Stmt,
    StmtList,
    Term,
    Term1,
    TLStmt,
    TLStmtList,
    Type,
}

/// The view of a [`GrammarSymbol`].
pub enum SymbolView {
    Terminal(TokenView),
    Other(SymbolKind),
}

impl SymbolView {
    /// The kind of the symbol this view stands for.
    pub open spec fn kind(self) -> SymbolKind {
        match self {
            SymbolView::Terminal(_) => SymbolKind::Terminal,
            SymbolView::Other(k) => k,
        }
    }

    /// Whether the symbol is a nonterminal.
    pub open spec fn is_nonterminal(self) -> bool {
        is_nonterminal_kind(self.kind())
    }
}

/// Whether symbols of this kind are nonterminals.
pub open spec fn is_nonterminal_kind(k: SymbolKind) -> bool {
    k != SymbolKind::Terminal && k != SymbolKind::Empty && k != SymbolKind::End
}

impl View for GrammarSymbol {
    type V = SymbolView;

    open spec fn view(&self) -> SymbolView {
        match self {
            GrammarSymbol::Terminal(t) => SymbolView::Terminal(t@),
            GrammarSymbol::Empty => SymbolView::Other(SymbolKind::Empty),
            GrammarSymbol::End => SymbolView::Other(SymbolKind::End),
            GrammarSymbol::Array => SymbolView::Other(SymbolKind::Array),
            GrammarSymbol::ArrLen => SymbolView::Other(SymbolKind::ArrLen),
            GrammarSymbol::AssignOrFnCall => SymbolView::Other(SymbolKind::AssignOrFnCall),
            GrammarSymbol::Block => SymbolView::Other(SymbolKind::Block),
            GrammarSymbol::BoolExpr => SymbolView::Other(SymbolKind::BoolExpr),
            GrammarSymbol::BoolTerm => SymbolView::Other(SymbolKind::BoolTerm),
            GrammarSymbol::BoolTerm1 => SymbolView::Other(SymbolKind::BoolTerm1),
            GrammarSymbol::Comparison => SymbolView::Other(SymbolKind::Comparison),
            GrammarSymbol::Conditional => SymbolView::Other(SymbolKind::Conditional),
            GrammarSymbol::Conditional1 => SymbolView::Other(SymbolKind::Conditional1),
            GrammarSymbol::CondOrArr => SymbolView::Other(SymbolKind::CondOrArr),
            GrammarSymbol::Definition => SymbolView::Other(SymbolKind::Definition),
            GrammarSymbol::Expression => SymbolView::Other(SymbolKind::Expression),
            GrammarSymbol::Expression1 => SymbolView::Other(SymbolKind::Expression1),
            GrammarSymbol::Factor => SymbolView::Other(SymbolKind::Factor),
            GrammarSymbol::Func => SymbolView::Other(SymbolKind::Func),
            GrammarSymbol::ID => SymbolView::Other(SymbolKind::ID),
            GrammarSymbol::IDOrFn => SymbolView::Other(SymbolKind::IDOrFn),
            GrammarSymbol::InputList => SymbolView::Other(SymbolKind::InputList),
            GrammarSymbol::InputRest => SymbolView::Other(SymbolKind::InputRest),
            GrammarSymbol::NodeBlock => SymbolView::Other(SymbolKind::NodeBlock),
            GrammarSymbol::NodeHeader => SymbolView::Other(SymbolKind::NodeHeader),
            GrammarSymbol::NodeList => SymbolView::Other(SymbolKind::NodeList),
            GrammarSymbol::NodeNT => SymbolView::Other(SymbolKind::NodeNT),
            GrammarSymbol::NodeRest => SymbolView::Other(SymbolKind::NodeRest),
            GrammarSymbol::Primitive => SymbolView::Other(SymbolKind::Primitive),
            GrammarSymbol::OptElse => SymbolView::Other(SymbolKind::OptElse),
            GrammarSymbol::OptIDList => SymbolView::Other(SymbolKind::OptIDList),
            GrammarSymbol::OptIndex => SymbolView::Other(SymbolKind::OptIndex),
            GrammarSymbol::Param => SymbolView::Other(SymbolKind::Param),
            GrammarSymbol::ParamList => SymbolView::Other(SymbolKind::ParamList),
            GrammarSymbol::ParamRest => SymbolView::Other(SymbolKind::ParamRest),
            GrammarSymbol::Positive => SymbolView::Other(SymbolKind::Positive),
            GrammarSymbol::Program => SymbolView::Other(SymbolKind::Program),
            GrammarSymbol::ReturnType => SymbolView::Other(SymbolKind::ReturnType),
            GrammarSymbol::Stmt => SymbolView::Other(SymbolKind::Stmt),
            GrammarSymbol::StmtList => SymbolView::Other(SymbolKind::StmtList),
            GrammarSymbol::Term => SymbolView::Other(SymbolKind::Term),
            GrammarSymbol::Term1 => SymbolView::Other(SymbolKind::Term1),
            GrammarSymbol::TLStmt => SymbolView::Other(SymbolKind::TLStmt),
            GrammarSymbol::TLStmtList => SymbolView::Other(SymbolKind::TLStmtList),
            GrammarSymbol::Type => SymbolView::Other(SymbolKind::Type),
        }
    }
}

impl GrammarSymbol {
    /// The kind of this symbol.
    pub fn kind(&self) -> (k: SymbolKind)
        ensures
            k == self@.kind(),
            self@ is Other ==> self@ == SymbolView::Other(k) && k != SymbolKind::Terminal,
    {
        match self {
            GrammarSymbol::Terminal(_) => SymbolKind::Terminal,
            GrammarSymbol::Empty => SymbolKind::Empty,
            GrammarSymbol::End => SymbolKind::End,
            GrammarSymbol::Array => SymbolKind::Array,
            GrammarSymbol::ArrLen => SymbolKind::ArrLen,
            GrammarSymbol::AssignOrFnCall => SymbolKind::AssignOrFnCall,
            GrammarSymbol::Block => SymbolKind::Block,
            GrammarSymbol::BoolExpr => SymbolKind::BoolExpr,
            GrammarSymbol::BoolTerm => SymbolKind::BoolTerm,
            GrammarSymbol::BoolTerm1 => SymbolKind::BoolTerm1,
            GrammarSymbol::Comparison => SymbolKind::Comparison,
            GrammarSymbol::Conditional => SymbolKind::Conditional,
            GrammarSymbol::Conditional1 => SymbolKind::Conditional1,
            GrammarSymbol::CondOrArr => SymbolKind::CondOrArr,
            GrammarSymbol::Definition => SymbolKind::Definition,
            GrammarSymbol::Expression => SymbolKind::Expression,
            GrammarSymbol::Expression1 => SymbolKind::Expression1,
            GrammarSymbol::Factor => SymbolKind::Factor,
            GrammarSymbol::Func => SymbolKind::Func,
            GrammarSymbol::ID => SymbolKind::ID,
            GrammarSymbol::IDOrFn => SymbolKind::IDOrFn,
            GrammarSymbol::InputList => SymbolKind::InputList,
            GrammarSymbol::InputRest => SymbolKind::InputRest,
            GrammarSymbol::NodeBlock => SymbolKind::NodeBlock,
            GrammarSymbol::NodeHeader => SymbolKind::NodeHeader,
            GrammarSymbol::NodeList => SymbolKind::NodeList,
            GrammarSymbol::NodeNT => SymbolKind::NodeNT,
            GrammarSymbol::NodeRest => SymbolKind::NodeRest,
            GrammarSymbol::Primitive => SymbolKind::Primitive,
            GrammarSymbol::OptElse => SymbolKind::OptElse,
            GrammarSymbol::OptIDList => SymbolKind::OptIDList,
            GrammarSymbol::OptIndex => SymbolKind::OptIndex,
            GrammarSymbol::Param => SymbolKind::Param,
            GrammarSymbol::ParamList => SymbolKind::ParamList,
            GrammarSymbol::ParamRest => SymbolKind::ParamRest,
            GrammarSymbol::Positive => SymbolKind::Positive,
            GrammarSymbol::Program => SymbolKind::Program,
            GrammarSymbol::ReturnType => SymbolKind::ReturnType,
            GrammarSymbol::Stmt => SymbolKind::Stmt,
            GrammarSymbol::StmtList => SymbolKind::StmtList,
            GrammarSymbol::Term => SymbolKind::Term,
            GrammarSymbol::Term1 => SymbolKind::Term1,
            GrammarSymbol::TLStmt => SymbolKind::TLStmt,
            GrammarSymbol::TLStmtList => SymbolKind::TLStmtList,
            GrammarSymbol::Type => SymbolKind::Type,
        }
    }

    /// The symbol of a kind; for the kind of terminals, the empty production.
    pub fn of_kind(k: SymbolKind) -> (r: GrammarSymbol)
        ensures
            r@ == symbol_of_kind(k),
    {
        match k {
            SymbolKind::Terminal => GrammarSymbol::Empty,
            SymbolKind::Empty => GrammarSymbol::Empty,
            SymbolKind::End => GrammarSymbol::End,
            SymbolKind::Array => GrammarSymbol::Array,
            SymbolKind::ArrLen => GrammarSymbol::ArrLen,
            SymbolKind::AssignOrFnCall => GrammarSymbol::AssignOrFnCall,
            SymbolKind::Block => GrammarSymbol::Block,
            SymbolKind::BoolExpr => GrammarSymbol::BoolExpr,
            SymbolKind::BoolTerm => GrammarSymbol::BoolTerm,
            SymbolKind::BoolTerm1 => GrammarSymbol::BoolTerm1,
            SymbolKind::Comparison => GrammarSymbol::Comparison,
            SymbolKind::Conditional => GrammarSymbol::Conditional,
            SymbolKind::Conditional1 => GrammarSymbol::Conditional1,
            SymbolKind::CondOrArr => GrammarSymbol::CondOrArr,
            SymbolKind::Definition => GrammarSymbol::Definition,
            SymbolKind::Expression => GrammarSymbol::Expression,
            SymbolKind::Expression1 => GrammarSymbol::Expression1,
            SymbolKind::Factor => GrammarSymbol::Factor,
            SymbolKind::Func => GrammarSymbol::Func,
            SymbolKind::ID => GrammarSymbol::ID,
            SymbolKind::IDOrFn => GrammarSymbol::IDOrFn,
            SymbolKind::InputList => GrammarSymbol::InputList,
            SymbolKind::InputRest => GrammarSymbol::InputRest,
            SymbolKind::NodeBlock => GrammarSymbol::NodeBlock,
            SymbolKind::NodeHeader => GrammarSymbol::NodeHeader,
            SymbolKind::NodeList => GrammarSymbol::NodeList,
            SymbolKind::NodeNT => GrammarSymbol::NodeNT,
            SymbolKind::NodeRest => GrammarSymbol::NodeRest,
            SymbolKind::Primitive => GrammarSymbol::Primitive,
            SymbolKind::OptElse => GrammarSymbol::OptElse,
            SymbolKind::OptIDList => GrammarSymbol::OptIDList,
            SymbolKind::OptIndex => GrammarSymbol::OptIndex,
            SymbolKind::Param => GrammarSymbol::Param,
            SymbolKind::ParamList => GrammarSymbol::ParamList,
            SymbolKind::ParamRest => GrammarSymbol::ParamRest,
            SymbolKind::Positive => GrammarSymbol::Positive,
            SymbolKind::Program => GrammarSymbol::Program,
            SymbolKind::ReturnType => GrammarSymbol::ReturnType,
            SymbolKind::Stmt => GrammarSymbol::Stmt,
            SymbolKind::StmtList => GrammarSymbol::StmtList,
            SymbolKind::Term => GrammarSymbol::Term,
            SymbolKind::Term1 => GrammarSymbol::Term1,
            SymbolKind::TLStmt => GrammarSymbol::TLStmt,
            SymbolKind::TLStmtList => GrammarSymbol::TLStmtList,
            SymbolKind::Type => GrammarSymbol::Type,
        }
    }

    /// Whether this symbol is a nonterminal.
    pub fn is_nonterminal(&self) -> (r: bool)
        ensures
            r == self@.is_nonterminal(),
    {
        match self {
            GrammarSymbol::Terminal(_) | GrammarSymbol::Empty | GrammarSymbol::End => false,
            _ => true,
        }
    }
}

impl Clone for GrammarSymbol {
    fn clone(&self) -> (r: Self)
        ensures
            r@ == self@,
    {
        match self {
            GrammarSymbol::Terminal(t) => GrammarSymbol::Terminal(t.clone()),
            other => GrammarSymbol::of_kind(other.kind()),
        }
    }
}

/// The symbol of a kind; for the kind of terminals, the empty production.
pub open spec fn symbol_of_kind(k: SymbolKind) -> SymbolView {
    if k == SymbolKind::Terminal {
        SymbolView::Other(SymbolKind::Empty)
    } else {
        SymbolView::Other(k)
    }
}

/// One symbol on the right-hand side of a production: a terminal by its tag
/// or a nonterminal by its kind.
#[derive(Clone, Copy, Debug, PartialEq, Eq, Structural)]
pub enum Item {
    T(TokenTag),
    N(SymbolKind),
}

/// Whether an expression can start with a token of this tag.
pub open spec fn starts_expression(look: Option<TokenTag>) -> bool {
    look == Some(TokenTag::ID)
        || look == Some(TokenTag::Sub)
        || look == Some(TokenTag::Integer)
        || look == Some(TokenTag::Float)
        || look == Some(TokenTag::Character)
        || look == Some(TokenTag::True)
        || look == Some(TokenTag::False)
        || look == Some(TokenTag::LeftParen)
}

/// Whether a token of this tag can follow a sum.
pub open spec fn follows_expression(look: Option<TokenTag>) -> bool {
    look == Some(TokenTag::RightParen)
        || look == Some(TokenTag::Semicolon)
        || look == Some(TokenTag::Equals)
        || look == Some(TokenTag::Neq)
        || look == Some(TokenTag::Less)
        || look == Some(TokenTag::Greater)
        || look == Some(TokenTag::Leq)
        || look == Some(TokenTag::Geq)
        || look == Some(TokenTag::LeftBrace)
        || look == Some(TokenTag::LogicalAnd)
        || look == Some(TokenTag::LogicalOr)
        || look == Some(TokenTag::Comma)
        || look == Some(TokenTag::RightBracket)
}

/// Whether a token of this tag can follow a product.
pub open spec fn follows_term(look: Option<TokenTag>) -> bool {
    look == Some(TokenTag::Add)
        || look == Some(TokenTag::Sub)
        || look == Some(TokenTag::RightParen)
        || look == Some(TokenTag::Semicolon)
        || look == Some(TokenTag::Equals)
        || look == Some(TokenTag::Neq)
        || look == Some(TokenTag::Less)
        || look == Some(TokenTag::Greater)
        || look == Some(TokenTag::Leq)
        || look == Some(TokenTag::Geq)
        || look == Some(TokenTag::LeftBrace)
        || look == Some(TokenTag::LogicalAnd)
        || look == Some(TokenTag::LogicalOr)
        || look == Some(TokenTag::Comma)
        || look == Some(TokenTag::RightBracket)
}

/// Whether a token of this tag can follow a factor.
pub open spec fn follows_factor(look: Option<TokenTag>) -> bool {
    look == Some(TokenTag::Mul)
        || look == Some(TokenTag::Div)
        || look == Some(TokenTag::Add)
        || look == Some(TokenTag::Sub)
        || look == Some(TokenTag::RightParen)
        || look == Some(TokenTag::Semicolon)
        || look == Some(TokenTag::Equals)
        || look == Some(TokenTag::Neq)
        || look == Some(TokenTag::Less)
        || look == Some(TokenTag::Greater)
        || look == Some(TokenTag::Leq)
        || look == Some(TokenTag::Geq)
        || look == Some(TokenTag::LeftBrace)
        || look == Some(TokenTag::LogicalAnd)
        || look == Some(TokenTag::LogicalOr)
        || look == Some(TokenTag::Comma)
        || look == Some(TokenTag::RightBracket)
}

/// Whether a token of this tag can follow an indexed name.
pub open spec fn follows_index(look: Option<TokenTag>) -> bool {
    look == Some(TokenTag::Assign)
        || look == Some(TokenTag::Mul)
        || look == Some(TokenTag::Div)
        || look == Some(TokenTag::Add)
        || look == Some(TokenTag::Sub)
        || look == Some(TokenTag::RightParen)
        || look == Some(TokenTag::Semicolon)
        || look == Some(TokenTag::Equals)
        || look == Some(TokenTag::Neq)
        || look == Some(TokenTag::Less)
        || look == Some(TokenTag::Greater)
        || look == Some(TokenTag::Leq)
        || look == Some(TokenTag::Geq)
        || look == Some(TokenTag::LeftBrace)
        || look == Some(TokenTag::LogicalAnd)
        || look == Some(TokenTag::LogicalOr)
        || look == Some(TokenTag::Comma)
        || look == Some(TokenTag::RightBracket)
}

/// Whether a token of this tag can follow a comparison.
pub open spec fn follows_comparison(look: Option<TokenTag>) -> bool {
    look == Some(TokenTag::LogicalAnd)
        || look == Some(TokenTag::LogicalOr)
        || look == Some(TokenTag::LeftBrace)
        || look == Some(TokenTag::Semicolon)
        || look == Some(TokenTag::Comma)
        || look == Some(TokenTag::RightParen)
        || look == Some(TokenTag::RightBracket)
}

/// Whether a token of this tag can follow a conjunction.
pub open spec fn follows_conjunction(look: Option<TokenTag>) -> bool {
    look == Some(TokenTag::LogicalOr)
        || look == Some(TokenTag::LeftBrace)
        || look == Some(TokenTag::Semicolon)
        || look == Some(TokenTag::Comma)
        || look == Some(TokenTag::RightParen)
        || look == Some(TokenTag::RightBracket)
}

/// Whether a token of this tag can follow a condition.
pub open spec fn follows_condition(look: Option<TokenTag>) -> bool {
    look == Some(TokenTag::LeftBrace)
        || look == Some(TokenTag::Semicolon)
        || look == Some(TokenTag::Comma)
        || look == Some(TokenTag::RightParen)
        || look == Some(TokenTag::RightBracket)
}

/// Whether a statement can start with a token of this tag.
pub open spec fn starts_statement(look: Option<TokenTag>) -> bool {
    look == Some(TokenTag::Var)
        || look == Some(TokenTag::Const)
        || look == Some(TokenTag::While)
        || look == Some(TokenTag::If)
        || look == Some(TokenTag::Return)
        || look == Some(TokenTag::ID)
}

/// Whether a token of this tag can follow an `if` without `else`.
pub open spec fn follows_if(look: Option<TokenTag>) -> bool {
    look == Some(TokenTag::Var)
        || look == Some(TokenTag::Const)
        || look == Some(TokenTag::ID)
        || look == Some(TokenTag::While)
        || look == Some(TokenTag::If)
        || look == Some(TokenTag::Return)
        || look == Some(TokenTag::RightBrace)
}

/// Whether a type can start with a token of this tag.
pub open spec fn starts_plain_type(look: Option<TokenTag>) -> bool {
    look == Some(TokenTag::ID)
        || look == Some(TokenTag::Int)
        || look == Some(TokenTag::FloatKW)
        || look == Some(TokenTag::Bool)
        || look == Some(TokenTag::Char)
        || look == Some(TokenTag::LeftBracket)
}

/// The productions of `Array`.
pub open spec fn rule_array(look: Option<TokenTag>) -> Option<Seq<Item>> {
    if look == Some(TokenTag::LeftBracket) {
        Some(seq![Item::T(TokenTag::LeftBracket), Item::N(SymbolKind::InputList), Item::T(TokenTag::RightBracket)])
    } else {
        None
    }
}

/// The productions of `ArrLen`.
pub open spec fn rule_arr_len(look: Option<TokenTag>) -> Option<Seq<Item>> {
    if look == Some(TokenTag::Integer) {
        Some(seq![Item::T(TokenTag::Integer)])
    } else {
        None
    }
}

/// The productions of `AssignOrFnCall`.
pub open spec fn rule_assign_or_fn_call(look: Option<TokenTag>) -> Option<Seq<Item>> {
    if look == Some(TokenTag::Assign) || look == Some(TokenTag::LeftBracket) {
        Some(seq![Item::N(SymbolKind::OptIndex), Item::T(TokenTag::Assign), Item::N(SymbolKind::CondOrArr), Item::T(TokenTag::Semicolon)])
    } else if look == Some(TokenTag::LeftParen) {
        Some(seq![Item::T(TokenTag::LeftParen), Item::N(SymbolKind::InputList), Item::T(TokenTag::RightParen), Item::T(TokenTag::Semicolon)])
    } else {
        None
    }
}

/// The productions of `Block`.
pub open spec fn rule_block(look: Option<TokenTag>) -> Option<Seq<Item>> {
    if look == Some(TokenTag::LeftBrace) {
        Some(seq![Item::T(TokenTag::LeftBrace), Item::N(SymbolKind::StmtList), Item::T(TokenTag::RightBrace)])
    } else {
        None
    }
}

/// The productions of `BoolExpr`.
pub open spec fn rule_bool_expr(look: Option<TokenTag>) -> Option<Seq<Item>> {
    if starts_expression(look) {
        Some(seq![Item::N(SymbolKind::Expression), Item::N(SymbolKind::Comparison)])
    } else {
        None
    }
}

/// The productions of `BoolTerm`.
pub open spec fn rule_bool_term(look: Option<TokenTag>) -> Option<Seq<Item>> {
    if starts_expression(look) {
        Some(seq![Item::N(SymbolKind::BoolExpr), Item::N(SymbolKind::BoolTerm1)])
    } else {
        None
    }
}

/// The productions of `BoolTerm1`.
pub open spec fn rule_bool_term1(look: Option<TokenTag>) -> Option<Seq<Item>> {
    if look == Some(TokenTag::LogicalAnd) {
        Some(seq![Item::T(TokenTag::LogicalAnd), Item::N(SymbolKind::BoolExpr), Item::N(SymbolKind::BoolTerm1)])
    } else if follows_conjunction(look) {
        Some(Seq::empty())
    } else {
        None
    }
}

/// The productions of `Comparison`.
pub open spec fn rule_comparison(look: Option<TokenTag>) -> Option<Seq<Item>> {
    if look == Some(TokenTag::Equals) {
        Some(seq![Item::T(TokenTag::Equals), Item::N(SymbolKind::Expression)])
    } else if look == Some(TokenTag::Neq) {
        Some(seq![Item::T(TokenTag::Neq), Item::N(SymbolKind::Expression)])
    } else if look == Some(TokenTag::Less) {
        Some(seq![Item::T(TokenTag::Less), Item::N(SymbolKind::Expression)])
    } else if look == Some(TokenTag::Greater) {
        Some(seq![Item::T(TokenTag::Greater), Item::N(SymbolKind::Expression)])
    } else if look == Some(TokenTag::Leq) {
        Some(seq![Item::T(TokenTag::Leq), Item::N(SymbolKind::Expression)])
    } else if look == Some(TokenTag::Geq) {
        Some(seq![Item::T(TokenTag::Geq), Item::N(SymbolKind::Expression)])
    } else if follows_comparison(look) {
        Some(Seq::empty())
    } else {
        None
    }
}

/// The productions of `Conditional`.
pub open spec fn rule_conditional(look: Option<TokenTag>) -> Option<Seq<Item>> {
    if starts_expression(look) {
        Some(seq![Item::N(SymbolKind::BoolTerm), Item::N(SymbolKind::Conditional1)])
    } else {
        None
    }
}

/// The productions of `Conditional1`.
pub open spec fn rule_conditional1(look: Option<TokenTag>) -> Option<Seq<Item>> {
    if look == Some(TokenTag::LogicalOr) {
        Some(seq![Item::T(TokenTag::LogicalOr), Item::N(SymbolKind::BoolTerm), Item::N(SymbolKind::Conditional1)])
    } else if follows_condition(look) {
        Some(Seq::empty())
    } else {
        None
    }
}

/// The productions of `CondOrArr`.
pub open spec fn rule_cond_or_arr(look: Option<TokenTag>) -> Option<Seq<Item>> {
    if starts_expression(look) {
        Some(seq![Item::N(SymbolKind::Conditional)])
    } else if look == Some(TokenTag::LeftBracket) {
        Some(seq![Item::N(SymbolKind::Array)])
    } else {
        None
    }
}

/// The productions of `Definition`.
pub open spec fn rule_definition(look: Option<TokenTag>) -> Option<Seq<Item>> {
    if look == Some(TokenTag::Var) {
        Some(seq![Item::T(TokenTag::Var), Item::N(SymbolKind::ID), Item::T(TokenTag::Colon), Item::N(SymbolKind::Type), Item::T(TokenTag::Assign), Item::N(SymbolKind::CondOrArr), Item::T(TokenTag::Semicolon)])
    } else if look == Some(TokenTag::Const) {
        Some(seq![Item::T(TokenTag::Const), Item::N(SymbolKind::ID), Item::T(TokenTag::Colon), Item::N(SymbolKind::Type), Item::T(TokenTag::Assign), Item::N(SymbolKind::CondOrArr), Item::T(TokenTag::Semicolon)])
    } else {
        None
    }
}

/// The productions of `Expression`.
pub open spec fn rule_expression(look: Option<TokenTag>) -> Option<Seq<Item>> {
    if starts_expression(look) {
        Some(seq![Item::N(SymbolKind::Term), Item::N(SymbolKind::Expression1)])
    } else {
        None
    }
}

/// The productions of `Expression1`.
pub open spec fn rule_expression1(look: Option<TokenTag>) -> Option<Seq<Item>> {
    if look == Some(TokenTag::Sub) {
        Some(seq![Item::T(TokenTag::Sub), Item::N(SymbolKind::Term), Item::N(SymbolKind::Expression1)])
    } else if look == Some(TokenTag::Add) {
        Some(seq![Item::T(TokenTag::Add), Item::N(SymbolKind::Term), Item::N(SymbolKind::Expression1)])
    } else if follows_expression(look) {
        Some(Seq::empty())
    } else {
        None
    }
}

/// The productions of `Factor`.
pub open spec fn rule_factor(look: Option<TokenTag>) -> Option<Seq<Item>> {
    if look == Some(TokenTag::LeftParen) {
        Some(seq![Item::T(TokenTag::LeftParen), Item::N(SymbolKind::Expression), Item::T(TokenTag::RightParen)])
    } else if look == Some(TokenTag::ID) {
        Some(seq![Item::N(SymbolKind::ID), Item::N(SymbolKind::IDOrFn)])
    } else if look == Some(TokenTag::Sub) || look == Some(TokenTag::Integer) || look == Some(TokenTag::Float) || look == Some(TokenTag::True) || look == Some(TokenTag::False) {
        Some(seq![Item::N(SymbolKind::Primitive)])
    } else {
        None
    }
}

/// The productions of `Func`.
pub open spec fn rule_func(look: Option<TokenTag>) -> Option<Seq<Item>> {
    if look == Some(TokenTag::Fn) {
        Some(seq![Item::T(TokenTag::Fn), Item::N(SymbolKind::ID), Item::T(TokenTag::LeftParen), Item::N(SymbolKind::ParamList), Item::T(TokenTag::RightParen), Item::T(TokenTag::Arrow), Item::N(SymbolKind::ReturnType), Item::N(SymbolKind::Block)])
    } else {
        None
    }
}

/// The productions of `ID`.
pub open spec fn rule_id(look: Option<TokenTag>) -> Option<Seq<Item>> {
    if look == Some(TokenTag::ID) {
        Some(seq![Item::T(TokenTag::ID)])
    } else {
        None
    }
}

/// The productions of `IDOrFn`.
pub open spec fn rule_id_or_fn(look: Option<TokenTag>) -> Option<Seq<Item>> {
    if look == Some(TokenTag::LeftBracket) {
        Some(seq![Item::N(SymbolKind::OptIndex)])
    } else if look == Some(TokenTag::LeftParen) {
        Some(seq![Item::T(TokenTag::LeftParen), Item::N(SymbolKind::InputList), Item::T(TokenTag::RightParen)])
    } else if follows_factor(look) {
        Some(Seq::empty())
    } else {
        None
    }
}

/// The productions of `InputList`.
pub open spec fn rule_input_list(look: Option<TokenTag>) -> Option<Seq<Item>> {
    if starts_expression(look) {
        Some(seq![Item::N(SymbolKind::CondOrArr), Item::N(SymbolKind::InputRest)])
    } else if look == Some(TokenTag::LeftBracket) {
        Some(seq![Item::N(SymbolKind::CondOrArr), Item::N(SymbolKind::InputRest)])
    } else if look == Some(TokenTag::RightParen) || look == Some(TokenTag::RightBracket) {
        Some(Seq::empty())
    } else {
        None
    }
}

/// The productions of `InputRest`.
pub open spec fn rule_input_rest(look: Option<TokenTag>) -> Option<Seq<Item>> {
    if look == Some(TokenTag::Comma) {
        Some(seq![Item::T(TokenTag::Comma), Item::N(SymbolKind::InputList)])
    } else if look == Some(TokenTag::RightParen) || look == Some(TokenTag::RightBracket) {
        Some(Seq::empty())
    } else {
        None
    }
}

/// The productions of `NodeBlock`.
pub open spec fn rule_node_block(look: Option<TokenTag>) -> Option<Seq<Item>> {
    if look == Some(TokenTag::LeftBrace) {
        Some(seq![Item::T(TokenTag::LeftBrace), Item::N(SymbolKind::TLStmtList), Item::T(TokenTag::RightBrace)])
    } else {
        None
    }
}

/// The productions of `NodeHeader`.
pub open spec fn rule_node_header(look: Option<TokenTag>) -> Option<Seq<Item>> {
    if look == Some(TokenTag::ID) {
        Some(seq![Item::N(SymbolKind::ID), Item::N(SymbolKind::OptIDList)])
    } else {
        None
    }
}

/// The productions of `NodeList`.
pub open spec fn rule_node_list(look: Option<TokenTag>) -> Option<Seq<Item>> {
    if look == Some(TokenTag::ID) {
        Some(seq![Item::N(SymbolKind::ID), Item::N(SymbolKind::NodeRest)])
    } else {
        None
    }
}

/// The productions of `NodeNT`.
pub open spec fn rule_node_nt(look: Option<TokenTag>) -> Option<Seq<Item>> {
    if look == Some(TokenTag::Node) {
        Some(seq![Item::T(TokenTag::Node), Item::N(SymbolKind::NodeHeader), Item::N(SymbolKind::NodeBlock)])
    } else {
        None
    }
}

/// The productions of `NodeRest`.
pub open spec fn rule_node_rest(look: Option<TokenTag>) -> Option<Seq<Item>> {
    if look == Some(TokenTag::Comma) {
        Some(seq![Item::T(TokenTag::Comma), Item::N(SymbolKind::NodeList)])
    } else if look == Some(TokenTag::LeftBrace) {
        Some(Seq::empty())
    } else {
        None
    }
}

/// The productions of `Primitive`.
pub open spec fn rule_primitive(look: Option<TokenTag>) -> Option<Seq<Item>> {
    if look == Some(TokenTag::True) {
        Some(seq![Item::T(TokenTag::True)])
    } else if look == Some(TokenTag::False) {
        Some(seq![Item::T(TokenTag::False)])
    } else if look == Some(TokenTag::Sub) {
        Some(seq![Item::T(TokenTag::Sub), Item::N(SymbolKind::Positive)])
    } else if look == Some(TokenTag::Integer) || look == Some(TokenTag::Float) {
        Some(seq![Item::N(SymbolKind::Positive)])
    } else {
        None
    }
}

/// The productions of `OptElse`.
pub open spec fn rule_opt_else(look: Option<TokenTag>) -> Option<Seq<Item>> {
    if look == Some(TokenTag::Else) {
        Some(seq![Item::T(TokenTag::Else), Item::N(SymbolKind::Block)])
    } else if follows_if(look) {
        Some(Seq::empty())
    } else {
        None
    }
}

/// The productions of `OptIDList`.
pub open spec fn rule_opt_id_list(look: Option<TokenTag>) -> Option<Seq<Item>> {
    if look == Some(TokenTag::Colon) {
        Some(seq![Item::T(TokenTag::Colon), Item::N(SymbolKind::NodeList)])
    } else if look == Some(TokenTag::LeftBrace) {
        Some(Seq::empty())
    } else {
        None
    }
}

/// The productions of `OptIndex`.
pub open spec fn rule_opt_index(look: Option<TokenTag>) -> Option<Seq<Item>> {
    if look == Some(TokenTag::LeftBracket) {
        Some(seq![Item::T(TokenTag::LeftBracket), Item::N(SymbolKind::Expression), Item::T(TokenTag::RightBracket), Item::N(SymbolKind::OptIndex)])
    } else if follows_index(look) {
        Some(Seq::empty())
    } else {
        None
    }
}

/// The productions of `Param`.
pub open spec fn rule_param(look: Option<TokenTag>) -> Option<Seq<Item>> {
    if look == Some(TokenTag::ID) {
        Some(seq![Item::N(SymbolKind::ID), Item::T(TokenTag::Colon), Item::N(SymbolKind::Type)])
    } else {
        None
    }
}

/// The productions of `ParamList`.
pub open spec fn rule_param_list(look: Option<TokenTag>) -> Option<Seq<Item>> {
    if look == Some(TokenTag::ID) {
        Some(seq![Item::N(SymbolKind::Param), Item::N(SymbolKind::ParamRest)])
    } else if look == Some(TokenTag::RightParen) {
        Some(Seq::empty())
    } else {
        None
    }
}

/// The productions of `ParamRest`.
pub open spec fn rule_param_rest(look: Option<TokenTag>) -> Option<Seq<Item>> {
    if look == Some(TokenTag::Comma) {
        Some(seq![Item::T(TokenTag::Comma), Item::N(SymbolKind::ParamList)])
    } else if look == Some(TokenTag::RightParen) {
        Some(Seq::empty())
    } else {
        None
    }
}

/// The productions of `Positive`.
pub open spec fn rule_positive(look: Option<TokenTag>) -> Option<Seq<Item>> {
    if look == Some(TokenTag::Integer) {
        Some(seq![Item::T(TokenTag::Integer)])
    } else if look == Some(TokenTag::Float) {
        Some(seq![Item::T(TokenTag::Float)])
    } else {
        None
    }
}

/// The productions of `Program`.
pub open spec fn rule_program(look: Option<TokenTag>) -> Option<Seq<Item>> {
    if look == Some(TokenTag::Node) {
        Some(seq![Item::N(SymbolKind::NodeNT), Item::N(SymbolKind::Program)])
    } else if look is None {
        Some(Seq::empty())
    } else {
        None
    }
}

/// The productions of `ReturnType`.
pub open spec fn rule_return_type(look: Option<TokenTag>) -> Option<Seq<Item>> {
    if starts_plain_type(look) {
        Some(seq![Item::N(SymbolKind::Type)])
    } else if look == Some(TokenTag::LeftParen) {
        Some(seq![Item::T(TokenTag::LeftParen), Item::T(TokenTag::RightParen)])
    } else if look == Some(TokenTag::Not) {
        Some(seq![Item::T(TokenTag::Not)])
    } else {
        None
    }
}

/// The productions of `Stmt`.
pub open spec fn rule_stmt(look: Option<TokenTag>) -> Option<Seq<Item>> {
    if look == Some(TokenTag::Var) || look == Some(TokenTag::Const) {
        Some(seq![Item::N(SymbolKind::Definition)])
    } else if look == Some(TokenTag::ID) {
        Some(seq![Item::N(SymbolKind::ID), Item::N(SymbolKind::AssignOrFnCall)])
    } else if look == Some(TokenTag::While) {
        Some(seq![Item::T(TokenTag::While), Item::N(SymbolKind::Conditional), Item::N(SymbolKind::Block)])
    } else if look == Some(TokenTag::If) {
        Some(seq![Item::T(TokenTag::If), Item::N(SymbolKind::Conditional), Item::N(SymbolKind::Block), Item::N(SymbolKind::OptElse)])
    } else if look == Some(TokenTag::Return) {
        Some(seq![Item::T(TokenTag::Return), Item::N(SymbolKind::Conditional), Item::T(TokenTag::Semicolon)])
    } else {
        None
    }
}

/// The productions of `StmtList`.
pub open spec fn rule_stmt_list(look: Option<TokenTag>) -> Option<Seq<Item>> {
    if starts_statement(look) {
        Some(seq![Item::N(SymbolKind::Stmt), Item::N(SymbolKind::StmtList)])
    } else if look == Some(TokenTag::RightBrace) {
        Some(Seq::empty())
    } else {
        None
    }
}

/// The productions of `Term`.
pub open spec fn rule_term(look: Option<TokenTag>) -> Option<Seq<Item>> {
    if look == Some(TokenTag::ID) || look == Some(TokenTag::Sub) || look == Some(TokenTag::Integer) || look == Some(TokenTag::Float) || look == Some(TokenTag::True) || look == Some(TokenTag::False) || look == Some(TokenTag::LeftParen) {
        Some(seq![Item::N(SymbolKind::Factor), Item::N(SymbolKind::Term1)])
    } else if look == Some(TokenTag::Character) {
        Some(seq![Item::T(TokenTag::Character)])
    } else {
        None
    }
}

/// The productions of `Term1`.
pub open spec fn rule_term1(look: Option<TokenTag>) -> Option<Seq<Item>> {
    if look == Some(TokenTag::Mul) {
        Some(seq![Item::T(TokenTag::Mul), Item::N(SymbolKind::Factor), Item::N(SymbolKind::Term1)])
    } else if look == Some(TokenTag::Div) {
        Some(seq![Item::T(TokenTag::Div), Item::N(SymbolKind::Factor), Item::N(SymbolKind::Term1)])
    } else if follows_term(look) {
        Some(Seq::empty())
    } else {
        None
    }
}

/// The productions of `TLStmt`.
pub open spec fn rule_tl_stmt(look: Option<TokenTag>) -> Option<Seq<Item>> {
    if look == Some(TokenTag::Export) {
        Some(seq![Item::T(TokenTag::Export), Item::N(SymbolKind::Definition)])
    } else if look == Some(TokenTag::Fn) {
        Some(seq![Item::N(SymbolKind::Func)])
    } else {
        None
    }
}

/// The productions of `TLStmtList`.
pub open spec fn rule_tl_stmt_list(look: Option<TokenTag>) -> Option<Seq<Item>> {
    if look == Some(TokenTag::Fn) || look == Some(TokenTag::Export) {
        Some(seq![Item::N(SymbolKind::TLStmt), Item::N(SymbolKind::TLStmtList)])
    } else if look == Some(TokenTag::RightBrace) {
        Some(Seq::empty())
    } else {
        None
    }
}

/// The productions of `Type`.
pub open spec fn rule_type(look: Option<TokenTag>) -> Option<Seq<Item>> {
    if look == Some(TokenTag::ID) {
        Some(seq![Item::N(SymbolKind::ID)])
    } else if look == Some(TokenTag::Int) {
        Some(seq![Item::T(TokenTag::Int)])
    } else if look == Some(TokenTag::FloatKW) {
        Some(seq![Item::T(TokenTag::FloatKW)])
    } else if look == Some(TokenTag::Bool) {
        Some(seq![Item::T(TokenTag::Bool)])
    } else if look == Some(TokenTag::Char) {
        Some(seq![Item::T(TokenTag::Char)])
    } else if look == Some(TokenTag::LeftBracket) {
        Some(seq![Item::T(TokenTag::LeftBracket), Item::N(SymbolKind::Type), Item::T(TokenTag::Semicolon), Item::N(SymbolKind::ArrLen), Item::T(TokenTag::RightBracket)])
    } else {
        None
    }
}

/// The production that the table holds for the nonterminal `nt` when the
/// next token has the tag `look` (`None` at the end of input); `None` where
/// the table has no entry, which is a syntax error.
pub open spec fn production_of(nt: SymbolKind, look: Option<TokenTag>) -> Option<Seq<Item>> {
    match nt {
        SymbolKind::Terminal | SymbolKind::Empty | SymbolKind::End => None,
        SymbolKind::Array => rule_array(look),
        SymbolKind::ArrLen => rule_arr_len(look),
        SymbolKind::AssignOrFnCall => rule_assign_or_fn_call(look),
        SymbolKind::Block => rule_block(look),
        SymbolKind::BoolExpr => rule_bool_expr(look),
        SymbolKind::BoolTerm => rule_bool_term(look),
        SymbolKind::BoolTerm1 => rule_bool_term1(look),
        SymbolKind::Comparison => rule_comparison(look),
        SymbolKind::Conditional => rule_conditional(look),
        SymbolKind::Conditional1 => rule_conditional1(look),
        SymbolKind::CondOrArr => rule_cond_or_arr(look),
        SymbolKind::Definition => rule_definition(look),
        SymbolKind::Expression => rule_expression(look),
        SymbolKind::Expression1 => rule_expression1(look),
        SymbolKind::Factor => rule_factor(look),
        SymbolKind::Func => rule_func(look),
        SymbolKind::ID => rule_id(look),
        SymbolKind::IDOrFn => rule_id_or_fn(look),
        SymbolKind::InputList => rule_input_list(look),
        SymbolKind::InputRest => rule_input_rest(look),
        SymbolKind::NodeBlock => rule_node_block(look),
        SymbolKind::NodeHeader => rule_node_header(look),
        SymbolKind::NodeList => rule_node_list(look),
        SymbolKind::NodeNT => rule_node_nt(look),
        SymbolKind::NodeRest => rule_node_rest(look),
        SymbolKind::Primitive => rule_primitive(look),
        SymbolKind::OptElse => rule_opt_else(look),
        SymbolKind::OptIDList => rule_opt_id_list(look),
        SymbolKind::OptIndex => rule_opt_index(look),
        SymbolKind::Param => rule_param(look),
        SymbolKind::ParamList => rule_param_list(look),
        SymbolKind::ParamRest => rule_param_rest(look),
        SymbolKind::Positive => rule_positive(look),
        SymbolKind::Program => rule_program(look),
        SymbolKind::ReturnType => rule_return_type(look),
        SymbolKind::Stmt => rule_stmt(look),
        SymbolKind::StmtList => rule_stmt_list(look),
        SymbolKind::Term => rule_term(look),
        SymbolKind::Term1 => rule_term1(look),
        SymbolKind::TLStmt => rule_tl_stmt(look),
        SymbolKind::TLStmtList => rule_tl_stmt_list(look),
        SymbolKind::Type => rule_type(look),
    }
}

/// Whether `look` is the tag `t`.
pub fn at(look: Option<TokenTag>, t: TokenTag) -> (r: bool)
    ensures
        r == (look == Some(t)),
{
    match look {
        Some(k) => k == t,
        None => false,
    }
}

/// Whether an expression can start with a token of this tag.
pub fn is_starts_expression(look: Option<TokenTag>) -> (r: bool)
    ensures
        r == starts_expression(look),
{
    at(look, TokenTag::ID)
        || at(look, TokenTag::Sub)
        || at(look, TokenTag::Integer)
        || at(look, TokenTag::Float)
        || at(look, TokenTag::Character)
        || at(look, TokenTag::True)
        || at(look, TokenTag::False)
        || at(look, TokenTag::LeftParen)
}

/// Whether a token of this tag can follow a sum.
pub fn is_follows_expression(look: Option<TokenTag>) -> (r: bool)
    ensures
        r == follows_expression(look),
{
    at(look, TokenTag::RightParen)
        || at(look, TokenTag::Semicolon)
        || at(look, TokenTag::Equals)
        || at(look, TokenTag::Neq)
        || at(look, TokenTag::Less)
        || at(look, TokenTag::Greater)
        || at(look, TokenTag::Leq)
        || at(look, TokenTag::Geq)
        || at(look, TokenTag::LeftBrace)
        || at(look, TokenTag::LogicalAnd)
        || at(look, TokenTag::LogicalOr)
        || at(look, TokenTag::Comma)
        || at(look, TokenTag::RightBracket)
}

/// Whether a token of this tag can follow a product.
pub fn is_follows_term(look: Option<TokenTag>) -> (r: bool)
    ensures
        r == follows_term(look),
{
    at(look, TokenTag::Add)
        || at(look, TokenTag::Sub)
        || at(look, TokenTag::RightParen)
        || at(look, TokenTag::Semicolon)
        || at(look, TokenTag::Equals)
        || at(look, TokenTag::Neq)
        || at(look, TokenTag::Less)
        || at(look, TokenTag::Greater)
        || at(look, TokenTag::Leq)
        || at(look, TokenTag::Geq)
        || at(look, TokenTag::LeftBrace)
        || at(look, TokenTag::LogicalAnd)
        || at(look, TokenTag::LogicalOr)
        || at(look, TokenTag::Comma)
        || at(look, TokenTag::RightBracket)
}

/// Whether a token of this tag can follow a factor.
pub fn is_follows_factor(look: Option<TokenTag>) -> (r: bool)
    ensures
        r == follows_factor(look),
{
    at(look, TokenTag::Mul)
        || at(look, TokenTag::Div)
        || at(look, TokenTag::Add)
        || at(look, TokenTag::Sub)
        || at(look, TokenTag::RightParen)
        || at(look, TokenTag::Semicolon)
        || at(look, TokenTag::Equals)
        || at(look, TokenTag::Neq)
        || at(look, TokenTag::Less)
        || at(look, TokenTag::Greater)
        || at(look, TokenTag::Leq)
        || at(look, TokenTag::Geq)
        || at(look, TokenTag::LeftBrace)
        || at(look, TokenTag::LogicalAnd)
        || at(look, TokenTag::LogicalOr)
        || at(look, TokenTag::Comma)
        || at(look, TokenTag::RightBracket)
}

/// Whether a token of this tag can follow an indexed name.
pub fn is_follows_index(look: Option<TokenTag>) -> (r: bool)
    ensures
        r == follows_index(look),
{
    at(look, TokenTag::Assign)
        || at(look, TokenTag::Mul)
        || at(look, TokenTag::Div)
        || at(look, TokenTag::Add)
        || at(look, TokenTag::Sub)
        || at(look, TokenTag::RightParen)
        || at(look, TokenTag::Semicolon)
        || at(look, TokenTag::Equals)
        || at(look, TokenTag::Neq)
        || at(look, TokenTag::Less)
        || at(look, TokenTag::Greater)
        || at(look, TokenTag::Leq)
        || at(look, TokenTag::Geq)
        || at(look, TokenTag::LeftBrace)
        || at(look, TokenTag::LogicalAnd)
        || at(look, TokenTag::LogicalOr)
        || at(look, TokenTag::Comma)
        || at(look, TokenTag::RightBracket)
}

/// Whether a token of this tag can follow a comparison.
pub fn is_follows_comparison(look: Option<TokenTag>) -> (r: bool)
    ensures
        r == follows_comparison(look),
{
    at(look, TokenTag::LogicalAnd)
        || at(look, TokenTag::LogicalOr)
        || at(look, TokenTag::LeftBrace)
        || at(look, TokenTag::Semicolon)
        || at(look, TokenTag::Comma)
        || at(look, TokenTag::RightParen)
        || at(look, TokenTag::RightBracket)
}

/// Whether a token of this tag can follow a conjunction.
pub fn is_follows_conjunction(look: Option<TokenTag>) -> (r: bool)
    ensures
        r == follows_conjunction(look),
{
    at(look, TokenTag::LogicalOr)
        || at(look, TokenTag::LeftBrace)
        || at(look, TokenTag::Semicolon)
        || at(look, TokenTag::Comma)
        || at(look, TokenTag::RightParen)
        || at(look, TokenTag::RightBracket)
}

/// Whether a token of this tag can follow a condition.
pub fn is_follows_condition(look: Option<TokenTag>) -> (r: bool)
    ensures
        r == follows_condition(look),
{
    at(look, TokenTag::LeftBrace)
        || at(look, TokenTag::Semicolon)
        || at(look, TokenTag::Comma)
        || at(look, TokenTag::RightParen)
        || at(look, TokenTag::RightBracket)
}

/// Whether a statement can start with a token of this tag.
pub fn is_starts_statement(look: Option<TokenTag>) -> (r: bool)
    ensures
        r == starts_statement(look),
{
    at(look, TokenTag::Var)
        || at(look, TokenTag::Const)
        || at(look, TokenTag::While)
        || at(look, TokenTag::If)
        || at(look, TokenTag::Return)
        || at(look, TokenTag::ID)
}

/// Whether a token of this tag can follow an `if` without `else`.
pub fn is_follows_if(look: Option<TokenTag>) -> (r: bool)
    ensures
        r == follows_if(look),
{
    at(look, TokenTag::Var)
        || at(look, TokenTag::Const)
        || at(look, TokenTag::ID)
        || at(look, TokenTag::While)
        || at(look, TokenTag::If)
        || at(look, TokenTag::Return)
        || at(look, TokenTag::RightBrace)
}

/// Whether a type can start with a token of this tag.
pub fn is_starts_plain_type(look: Option<TokenTag>) -> (r: bool)
    ensures
        r == starts_plain_type(look),
{
    at(look, TokenTag::ID)
        || at(look, TokenTag::Int)
        || at(look, TokenTag::FloatKW)
        || at(look, TokenTag::Bool)
        || at(look, TokenTag::Char)
        || at(look, TokenTag::LeftBracket)
}

fn expand_array(look: Option<TokenTag>) -> (r: Option<Vec<Item>>)
    ensures
        r is None <==> rule_array(look) is None,
        r matches Some(v) ==> rule_array(look) == Some(v@),
{
    if at(look, TokenTag::LeftBracket) {
        let v = vec![Item::T(TokenTag::LeftBracket), Item::N(SymbolKind::InputList), Item::T(TokenTag::RightBracket)];
        assert(v@ =~= seq![Item::T(TokenTag::LeftBracket), Item::N(SymbolKind::InputList), Item::T(TokenTag::RightBracket)]);
        Some(v)
    } else {
        None
    }
}

fn expand_arr_len(look: Option<TokenTag>) -> (r: Option<Vec<Item>>)
    ensures
        r is None <==> rule_arr_len(look) is None,
        r matches Some(v) ==> rule_arr_len(look) == Some(v@),
{
    if at(look, TokenTag::Integer) {
        let v = vec![Item::T(TokenTag::Integer)];
        assert(v@ =~= seq![Item::T(TokenTag::Integer)]);
        Some(v)
    } else {
        None
    }
}

fn expand_assign_or_fn_call(look: Option<TokenTag>) -> (r: Option<Vec<Item>>)
    ensures
        r is None <==> rule_assign_or_fn_call(look) is None,
        r matches Some(v) ==> rule_assign_or_fn_call(look) == Some(v@),
{
    if at(look, TokenTag::Assign) || at(look, TokenTag::LeftBracket) {
        let v = vec![Item::N(SymbolKind::OptIndex), Item::T(TokenTag::Assign), Item::N(SymbolKind::CondOrArr), Item::T(TokenTag::Semicolon)];
        assert(v@ =~= seq![Item::N(SymbolKind::OptIndex), Item::T(TokenTag::Assign), Item::N(SymbolKind::CondOrArr), Item::T(TokenTag::Semicolon)]);
        Some(v)
    } else if at(look, TokenTag::LeftParen) {
        let v = vec![Item::T(TokenTag::LeftParen), Item::N(SymbolKind::InputList), Item::T(TokenTag::RightParen), Item::T(TokenTag::Semicolon)];
        assert(v@ =~= seq![Item::T(TokenTag::LeftParen), Item::N(SymbolKind::InputList), Item::T(TokenTag::RightParen), Item::T(TokenTag::Semicolon)]);
        Some(v)
    } else {
        None
    }
}

fn expand_block(look: Option<TokenTag>) -> (r: Option<Vec<Item>>)
    ensures
        r is None <==> rule_block(look) is None,
        r matches Some(v) ==> rule_block(look) == Some(v@),
{
    if at(look, TokenTag::LeftBrace) {
        let v = vec![Item::T(TokenTag::LeftBrace), Item::N(SymbolKind::StmtList), Item::T(TokenTag::RightBrace)];
        assert(v@ =~= seq![Item::T(TokenTag::LeftBrace), Item::N(SymbolKind::StmtList), Item::T(TokenTag::RightBrace)]);
        Some(v)
    } else {
        None
    }
}

fn expand_bool_expr(look: Option<TokenTag>) -> (r: Option<Vec<Item>>)
    ensures
        r is None <==> rule_bool_expr(look) is None,
        r matches Some(v) ==> rule_bool_expr(look) == Some(v@),
{
    if is_starts_expression(look) {
        let v = vec![Item::N(SymbolKind::Expression), Item::N(SymbolKind::Comparison)];
        assert(v@ =~= seq![Item::N(SymbolKind::Expression), Item::N(SymbolKind::Comparison)]);
        Some(v)
    } else {
        None
    }
}

fn expand_bool_term(look: Option<TokenTag>) -> (r: Option<Vec<Item>>)
    ensures
        r is None <==> rule_bool_term(look) is None,
        r matches Some(v) ==> rule_bool_term(look) == Some(v@),
{
    if is_starts_expression(look) {
        let v = vec![Item::N(SymbolKind::BoolExpr), Item::N(SymbolKind::BoolTerm1)];
        assert(v@ =~= seq![Item::N(SymbolKind::BoolExpr), Item::N(SymbolKind::BoolTerm1)]);
        Some(v)
    } else {
        None
    }
}

fn expand_bool_term1(look: Option<TokenTag>) -> (r: Option<Vec<Item>>)
    ensures
        r is None <==> rule_bool_term1(look) is None,
        r matches Some(v) ==> rule_bool_term1(look) == Some(v@),
{
    if at(look, TokenTag::LogicalAnd) {
        let v = vec![Item::T(TokenTag::LogicalAnd), Item::N(SymbolKind::BoolExpr), Item::N(SymbolKind::BoolTerm1)];
        assert(v@ =~= seq![Item::T(TokenTag::LogicalAnd), Item::N(SymbolKind::BoolExpr), Item::N(SymbolKind::BoolTerm1)]);
        Some(v)
    } else if is_follows_conjunction(look) {
        Some(Vec::new())
    } else {
        None
    }
}

fn expand_comparison(look: Option<TokenTag>) -> (r: Option<Vec<Item>>)
    ensures
        r is None <==> rule_comparison(look) is None,
        r matches Some(v) ==> rule_comparison(look) == Some(v@),
{
    if at(look, TokenTag::Equals) {
        let v = vec![Item::T(TokenTag::Equals), Item::N(SymbolKind::Expression)];
        assert(v@ =~= seq![Item::T(TokenTag::Equals), Item::N(SymbolKind::Expression)]);
        Some(v)
    } else if at(look, TokenTag::Neq) {
        let v = vec![Item::T(TokenTag::Neq), Item::N(SymbolKind::Expression)];
        assert(v@ =~= seq![Item::T(TokenTag::Neq), Item::N(SymbolKind::Expression)]);
        Some(v)
    } else if at(look, TokenTag::Less) {
        let v = vec![Item::T(TokenTag::Less), Item::N(SymbolKind::Expression)];
        assert(v@ =~= seq![Item::T(TokenTag::Less), Item::N(SymbolKind::Expression)]);
        Some(v)
    } else if at(look, TokenTag::Greater) {
        let v = vec![Item::T(TokenTag::Greater), Item::N(SymbolKind::Expression)];
        assert(v@ =~= seq![Item::T(TokenTag::Greater), Item::N(SymbolKind::Expression)]);
        Some(v)
    } else if at(look, TokenTag::Leq) {
        let v = vec![Item::T(TokenTag::Leq), Item::N(SymbolKind::Expression)];
        assert(v@ =~= seq![Item::T(TokenTag::Leq), Item::N(SymbolKind::Expression)]);
        Some(v)
    } else if at(look, TokenTag::Geq) {
        let v = vec![Item::T(TokenTag::Geq), Item::N(SymbolKind::Expression)];
        assert(v@ =~= seq![Item::T(TokenTag::Geq), Item::N(SymbolKind::Expression)]);
        Some(v)
    } else if is_follows_comparison(look) {
        Some(Vec::new())
    } else {
        None
    }
}

fn expand_conditional(look: Option<TokenTag>) -> (r: Option<Vec<Item>>)
    ensures
        r is None <==> rule_conditional(look) is None,
        r matches Some(v) ==> rule_conditional(look) == Some(v@),
{
    if is_starts_expression(look) {
        let v = vec![Item::N(SymbolKind::BoolTerm), Item::N(SymbolKind::Conditional1)];
        assert(v@ =~= seq![Item::N(SymbolKind::BoolTerm), Item::N(SymbolKind::Conditional1)]);
        Some(v)
    } else {
        None
    }
}

fn expand_conditional1(look: Option<TokenTag>) -> (r: Option<Vec<Item>>)
    ensures
        r is None <==> rule_conditional1(look) is None,
        r matches Some(v) ==> rule_conditional1(look) == Some(v@),
{
    if at(look, TokenTag::LogicalOr) {
        let v = vec![Item::T(TokenTag::LogicalOr), Item::N(SymbolKind::BoolTerm), Item::N(SymbolKind::Conditional1)];
        assert(v@ =~= seq![Item::T(TokenTag::LogicalOr), Item::N(SymbolKind::BoolTerm), Item::N(SymbolKind::Conditional1)]);
        Some(v)
    } else if is_follows_condition(look) {
        Some(Vec::new())
    } else {
        None
    }
}

fn expand_cond_or_arr(look: Option<TokenTag>) -> (r: Option<Vec<Item>>)
    ensures
        r is None <==> rule_cond_or_arr(look) is None,
        r matches Some(v) ==> rule_cond_or_arr(look) == Some(v@),
{
    if is_starts_expression(look) {
        let v = vec![Item::N(SymbolKind::Conditional)];
        assert(v@ =~= seq![Item::N(SymbolKind::Conditional)]);
        Some(v)
    } else if at(look, TokenTag::LeftBracket) {
        let v = vec![Item::N(SymbolKind::Array)];
        assert(v@ =~= seq![Item::N(SymbolKind::Array)]);
        Some(v)
    } else {
        None
    }
}

fn expand_definition(look: Option<TokenTag>) -> (r: Option<Vec<Item>>)
    ensures
        r is None <==> rule_definition(look) is None,
        r matches Some(v) ==> rule_definition(look) == Some(v@),
{
    if at(look, TokenTag::Var) {
        let v = vec![Item::T(TokenTag::Var), Item::N(SymbolKind::ID), Item::T(TokenTag::Colon), Item::N(SymbolKind::Type), Item::T(TokenTag::Assign), Item::N(SymbolKind::CondOrArr), Item::T(TokenTag::Semicolon)];
        assert(v@ =~= seq![Item::T(TokenTag::Var), Item::N(SymbolKind::ID), Item::T(TokenTag::Colon), Item::N(SymbolKind::Type), Item::T(TokenTag::Assign), Item::N(SymbolKind::CondOrArr), Item::T(TokenTag::Semicolon)]);
        Some(v)
    } else if at(look, TokenTag::Const) {
        let v = vec![Item::T(TokenTag::Const), Item::N(SymbolKind::ID), Item::T(TokenTag::Colon), Item::N(SymbolKind::Type), Item::T(TokenTag::Assign), Item::N(SymbolKind::CondOrArr), Item::T(TokenTag::Semicolon)];
        assert(v@ =~= seq![Item::T(TokenTag::Const), Item::N(SymbolKind::ID), Item::T(TokenTag::Colon), Item::N(SymbolKind::Type), Item::T(TokenTag::Assign), Item::N(SymbolKind::CondOrArr), Item::T(TokenTag::Semicolon)]);
        Some(v)
    } else {
        None
    }
}

fn expand_expression(look: Option<TokenTag>) -> (r: Option<Vec<Item>>)
    ensures
        r is None <==> rule_expression(look) is None,
        r matches Some(v) ==> rule_expression(look) == Some(v@),
{
    if is_starts_expression(look) {
        let v = vec![Item::N(SymbolKind::Term), Item::N(SymbolKind::Expression1)];
        assert(v@ =~= seq![Item::N(SymbolKind::Term), Item::N(SymbolKind::Expression1)]);
        Some(v)
    } else {
        None
    }
}

fn expand_expression1(look: Option<TokenTag>) -> (r: Option<Vec<Item>>)
    ensures
        r is None <==> rule_expression1(look) is None,
        r matches Some(v) ==> rule_expression1(look) == Some(v@),
{
    if at(look, TokenTag::Sub) {
        let v = vec![Item::T(TokenTag::Sub), Item::N(SymbolKind::Term), Item::N(SymbolKind::Expression1)];
        assert(v@ =~= seq![Item::T(TokenTag::Sub), Item::N(SymbolKind::Term), Item::N(SymbolKind::Expression1)]);
        Some(v)
    } else if at(look, TokenTag::Add) {
        let v = vec![Item::T(TokenTag::Add), Item::N(SymbolKind::Term), Item::N(SymbolKind::Expression1)];
        assert(v@ =~= seq![Item::T(TokenTag::Add), Item::N(SymbolKind::Term), Item::N(SymbolKind::Expression1)]);
        Some(v)
    } else if is_follows_expression(look) {
        Some(Vec::new())
    } else {
        None
    }
}

fn expand_factor(look: Option<TokenTag>) -> (r: Option<Vec<Item>>)
    ensures
        r is None <==> rule_factor(look) is None,
        r matches Some(v) ==> rule_factor(look) == Some(v@),
{
    if at(look, TokenTag::LeftParen) {
        let v = vec![Item::T(TokenTag::LeftParen), Item::N(SymbolKind::Expression), Item::T(TokenTag::RightParen)];
        assert(v@ =~= seq![Item::T(TokenTag::LeftParen), Item::N(SymbolKind::Expression), Item::T(TokenTag::RightParen)]);
        Some(v)
    } else if at(look, TokenTag::ID) {
        let v = vec![Item::N(SymbolKind::ID), Item::N(SymbolKind::IDOrFn)];
        assert(v@ =~= seq![Item::N(SymbolKind::ID), Item::N(SymbolKind::IDOrFn)]);
        Some(v)
    } else if at(look, TokenTag::Sub) || at(look, TokenTag::Integer) || at(look, TokenTag::Float) || at(look, TokenTag::True) || at(look, TokenTag::False) {
        let v = vec![Item::N(SymbolKind::Primitive)];
        assert(v@ =~= seq![Item::N(SymbolKind::Primitive)]);
        Some(v)
    } else {
        None
    }
}

fn expand_func(look: Option<TokenTag>) -> (r: Option<Vec<Item>>)
    ensures
        r is None <==> rule_func(look) is None,
        r matches Some(v) ==> rule_func(look) == Some(v@),
{
    if at(look, TokenTag::Fn) {
        let v = vec![Item::T(TokenTag::Fn), Item::N(SymbolKind::ID), Item::T(TokenTag::LeftParen), Item::N(SymbolKind::ParamList), Item::T(TokenTag::RightParen), Item::T(TokenTag::Arrow), Item::N(SymbolKind::ReturnType), Item::N(SymbolKind::Block)];
        assert(v@ =~= seq![Item::T(TokenTag::Fn), Item::N(SymbolKind::ID), Item::T(TokenTag::LeftParen), Item::N(SymbolKind::ParamList), Item::T(TokenTag::RightParen), Item::T(TokenTag::Arrow), Item::N(SymbolKind::ReturnType), Item::N(SymbolKind::Block)]);
        Some(v)
    } else {
        None
    }
}

fn expand_id(look: Option<TokenTag>) -> (r: Option<Vec<Item>>)
    ensures
        r is None <==> rule_id(look) is None,
        r matches Some(v) ==> rule_id(look) == Some(v@),
{
    if at(look, TokenTag::ID) {
        let v = vec![Item::T(TokenTag::ID)];
        assert(v@ =~= seq![Item::T(TokenTag::ID)]);
        Some(v)
    } else {
        None
    }
}

fn expand_id_or_fn(look: Option<TokenTag>) -> (r: Option<Vec<Item>>)
    ensures
        r is None <==> rule_id_or_fn(look) is None,
        r matches Some(v) ==> rule_id_or_fn(look) == Some(v@),
{
    if at(look, TokenTag::LeftBracket) {
        let v = vec![Item::N(SymbolKind::OptIndex)];
        assert(v@ =~= seq![Item::N(SymbolKind::OptIndex)]);
        Some(v)
    } else if at(look, TokenTag::LeftParen) {
        let v = vec![Item::T(TokenTag::LeftParen), Item::N(SymbolKind::InputList), Item::T(TokenTag::RightParen)];
        assert(v@ =~= seq![Item::T(TokenTag::LeftParen), Item::N(SymbolKind::InputList), Item::T(TokenTag::RightParen)]);
        Some(v)
    } else if is_follows_factor(look) {
        Some(Vec::new())
    } else {
        None
    }
}

fn expand_input_list(look: Option<TokenTag>) -> (r: Option<Vec<Item>>)
    ensures
        r is None <==> rule_input_list(look) is None,
        r matches Some(v) ==> rule_input_list(look) == Some(v@),
{
    if is_starts_expression(look) {
        let v = vec![Item::N(SymbolKind::CondOrArr), Item::N(SymbolKind::InputRest)];
        assert(v@ =~= seq![Item::N(SymbolKind::CondOrArr), Item::N(SymbolKind::InputRest)]);
        Some(v)
    } else if at(look, TokenTag::LeftBracket) {
        let v = vec![Item::N(SymbolKind::CondOrArr), Item::N(SymbolKind::InputRest)];
        assert(v@ =~= seq![Item::N(SymbolKind::CondOrArr), Item::N(SymbolKind::InputRest)]);
        Some(v)
    } else if at(look, TokenTag::RightParen) || at(look, TokenTag::RightBracket) {
        Some(Vec::new())
    } else {
        None
    }
}

fn expand_input_rest(look: Option<TokenTag>) -> (r: Option<Vec<Item>>)
    ensures
        r is None <==> rule_input_rest(look) is None,
        r matches Some(v) ==> rule_input_rest(look) == Some(v@),
{
    if at(look, TokenTag::Comma) {
        let v = vec![Item::T(TokenTag::Comma), Item::N(SymbolKind::InputList)];
        assert(v@ =~= seq![Item::T(TokenTag::Comma), Item::N(SymbolKind::InputList)]);
        Some(v)
    } else if at(look, TokenTag::RightParen) || at(look, TokenTag::RightBracket) {
        Some(Vec::new())
    } else {
        None
    }
}

fn expand_node_block(look: Option<TokenTag>) -> (r: Option<Vec<Item>>)
    ensures
        r is None <==> rule_node_block(look) is None,
        r matches Some(v) ==> rule_node_block(look) == Some(v@),
{
    if at(look, TokenTag::LeftBrace) {
        let v = vec![Item::T(TokenTag::LeftBrace), Item::N(SymbolKind::TLStmtList), Item::T(TokenTag::RightBrace)];
        assert(v@ =~= seq![Item::T(TokenTag::LeftBrace), Item::N(SymbolKind::TLStmtList), Item::T(TokenTag::RightBrace)]);
        Some(v)
    } else {
        None
    }
}

fn expand_node_header(look: Option<TokenTag>) -> (r: Option<Vec<Item>>)
    ensures
        r is None <==> rule_node_header(look) is None,
        r matches Some(v) ==> rule_node_header(look) == Some(v@),
{
    if at(look, TokenTag::ID) {
        let v = vec![Item::N(SymbolKind::ID), Item::N(SymbolKind::OptIDList)];
        assert(v@ =~= seq![Item::N(SymbolKind::ID), Item::N(SymbolKind::OptIDList)]);
        Some(v)
    } else {
        None
    }
}

fn expand_node_list(look: Option<TokenTag>) -> (r: Option<Vec<Item>>)
    ensures
        r is None <==> rule_node_list(look) is None,
        r matches Some(v) ==> rule_node_list(look) == Some(v@),
{
    if at(look, TokenTag::ID) {
        let v = vec![Item::N(SymbolKind::ID), Item::N(SymbolKind::NodeRest)];
        assert(v@ =~= seq![Item::N(SymbolKind::ID), Item::N(SymbolKind::NodeRest)]);
        Some(v)
    } else {
        None
    }
}

fn expand_node_nt(look: Option<TokenTag>) -> (r: Option<Vec<Item>>)
    ensures
        r is None <==> rule_node_nt(look) is None,
        r matches Some(v) ==> rule_node_nt(look) == Some(v@),
{
    if at(look, TokenTag::Node) {
        let v = vec![Item::T(TokenTag::Node), Item::N(SymbolKind::NodeHeader), Item::N(SymbolKind::NodeBlock)];
        assert(v@ =~= seq![Item::T(TokenTag::Node), Item::N(SymbolKind::NodeHeader), Item::N(SymbolKind::NodeBlock)]);
        Some(v)
    } else {
        None
    }
}

fn expand_node_rest(look: Option<TokenTag>) -> (r: Option<Vec<Item>>)
    ensures
        r is None <==> rule_node_rest(look) is None,
        r matches Some(v) ==> rule_node_rest(look) == Some(v@),
{
    if at(look, TokenTag::Comma) {
        let v = vec![Item::T(TokenTag::Comma), Item::N(SymbolKind::NodeList)];
        assert(v@ =~= seq![Item::T(TokenTag::Comma), Item::N(SymbolKind::NodeList)]);
        Some(v)
    } else if at(look, TokenTag::LeftBrace) {
        Some(Vec::new())
    } else {
        None
    }
}

fn expand_primitive(look: Option<TokenTag>) -> (r: Option<Vec<Item>>)
    ensures
        r is None <==> rule_primitive(look) is None,
        r matches Some(v) ==> rule_primitive(look) == Some(v@),
{
    if at(look, TokenTag::True) {
        let v = vec![Item::T(TokenTag::True)];
        assert(v@ =~= seq![Item::T(TokenTag::True)]);
        Some(v)
    } else if at(look, TokenTag::False) {
        let v = vec![Item::T(TokenTag::False)];
        assert(v@ =~= seq![Item::T(TokenTag::False)]);
        Some(v)
    } else if at(look, TokenTag::Sub) {
        let v = vec![Item::T(TokenTag::Sub), Item::N(SymbolKind::Positive)];
        assert(v@ =~= seq![Item::T(TokenTag::Sub), Item::N(SymbolKind::Positive)]);
        Some(v)
    } else if at(look, TokenTag::Integer) || at(look, TokenTag::Float) {
        let v = vec![Item::N(SymbolKind::Positive)];
        assert(v@ =~= seq![Item::N(SymbolKind::Positive)]);
        Some(v)
    } else {
        None
    }
}

fn expand_opt_else(look: Option<TokenTag>) -> (r: Option<Vec<Item>>)
    ensures
        r is None <==> rule_opt_else(look) is None,
        r matches Some(v) ==> rule_opt_else(look) == Some(v@),
{
    if at(look, TokenTag::Else) {
        let v = vec![Item::T(TokenTag::Else), Item::N(SymbolKind::Block)];
        assert(v@ =~= seq![Item::T(TokenTag::Else), Item::N(SymbolKind::Block)]);
        Some(v)
    } else if is_follows_if(look) {
        Some(Vec::new())
    } else {
        None
    }
}

fn expand_opt_id_list(look: Option<TokenTag>) -> (r: Option<Vec<Item>>)
    ensures
        r is None <==> rule_opt_id_list(look) is None,
        r matches Some(v) ==> rule_opt_id_list(look) == Some(v@),
{
    if at(look, TokenTag::Colon) {
        let v = vec![Item::T(TokenTag::Colon), Item::N(SymbolKind::NodeList)];
        assert(v@ =~= seq![Item::T(TokenTag::Colon), Item::N(SymbolKind::NodeList)]);
        Some(v)
    } else if at(look, TokenTag::LeftBrace) {
        Some(Vec::new())
    } else {
        None
    }
}

fn expand_opt_index(look: Option<TokenTag>) -> (r: Option<Vec<Item>>)
    ensures
        r is None <==> rule_opt_index(look) is None,
        r matches Some(v) ==> rule_opt_index(look) == Some(v@),
{
    if at(look, TokenTag::LeftBracket) {
        let v = vec![Item::T(TokenTag::LeftBracket), Item::N(SymbolKind::Expression), Item::T(TokenTag::RightBracket), Item::N(SymbolKind::OptIndex)];
        assert(v@ =~= seq![Item::T(TokenTag::LeftBracket), Item::N(SymbolKind::Expression), Item::T(TokenTag::RightBracket), Item::N(SymbolKind::OptIndex)]);
        Some(v)
    } else if is_follows_index(look) {
        Some(Vec::new())
    } else {
        None
    }
}

fn expand_param(look: Option<TokenTag>) -> (r: Option<Vec<Item>>)
    ensures
        r is None <==> rule_param(look) is None,
        r matches Some(v) ==> rule_param(look) == Some(v@),
{
    if at(look, TokenTag::ID) {
        let v = vec![Item::N(SymbolKind::ID), Item::T(TokenTag::Colon), Item::N(SymbolKind::Type)];
        assert(v@ =~= seq![Item::N(SymbolKind::ID), Item::T(TokenTag::Colon), Item::N(SymbolKind::Type)]);
        Some(v)
    } else {
        None
    }
}

fn expand_param_list(look: Option<TokenTag>) -> (r: Option<Vec<Item>>)
    ensures
        r is None <==> rule_param_list(look) is None,
        r matches Some(v) ==> rule_param_list(look) == Some(v@),
{
    if at(look, TokenTag::ID) {
        let v = vec![Item::N(SymbolKind::Param), Item::N(SymbolKind::ParamRest)];
        assert(v@ =~= seq![Item::N(SymbolKind::Param), Item::N(SymbolKind::ParamRest)]);
        Some(v)
    } else if at(look, TokenTag::RightParen) {
        Some(Vec::new())
    } else {
        None
    }
}

fn expand_param_rest(look: Option<TokenTag>) -> (r: Option<Vec<Item>>)
    ensures
        r is None <==> rule_param_rest(look) is None,
        r matches Some(v) ==> rule_param_rest(look) == Some(v@),
{
    if at(look, TokenTag::Comma) {
        let v = vec![Item::T(TokenTag::Comma), Item::N(SymbolKind::ParamList)];
        assert(v@ =~= seq![Item::T(TokenTag::Comma), Item::N(SymbolKind::ParamList)]);
        Some(v)
    } else if at(look, TokenTag::RightParen) {
        Some(Vec::new())
    } else {
        None
    }
}

fn expand_positive(look: Option<TokenTag>) -> (r: Option<Vec<Item>>)
    ensures
        r is None <==> rule_positive(look) is None,
        r matches Some(v) ==> rule_positive(look) == Some(v@),
{
    if at(look, TokenTag::Integer) {
        let v = vec![Item::T(TokenTag::Integer)];
        assert(v@ =~= seq![Item::T(TokenTag::Integer)]);
        Some(v)
    } else if at(look, TokenTag::Float) {
        let v = vec![Item::T(TokenTag::Float)];
        assert(v@ =~= seq![Item::T(TokenTag::Float)]);
        Some(v)
    } else {
        None
    }
}

fn expand_program(look: Option<TokenTag>) -> (r: Option<Vec<Item>>)
    ensures
        r is None <==> rule_program(look) is None,
        r matches Some(v) ==> rule_program(look) == Some(v@),
{
    if at(look, TokenTag::Node) {
        let v = vec![Item::N(SymbolKind::NodeNT), Item::N(SymbolKind::Program)];
        assert(v@ =~= seq![Item::N(SymbolKind::NodeNT), Item::N(SymbolKind::Program)]);
        Some(v)
    } else if look.is_none() {
        Some(Vec::new())
    } else {
        None
    }
}

fn expand_return_type(look: Option<TokenTag>) -> (r: Option<Vec<Item>>)
    ensures
        r is None <==> rule_return_type(look) is None,
        r matches Some(v) ==> rule_return_type(look) == Some(v@),
{
    if is_starts_plain_type(look) {
        let v = vec![Item::N(SymbolKind::Type)];
        assert(v@ =~= seq![Item::N(SymbolKind::Type)]);
        Some(v)
    } else if at(look, TokenTag::LeftParen) {
        let v = vec![Item::T(TokenTag::LeftParen), Item::T(TokenTag::RightParen)];
        assert(v@ =~= seq![Item::T(TokenTag::LeftParen), Item::T(TokenTag::RightParen)]);
        Some(v)
    } else if at(look, TokenTag::Not) {
        let v = vec![Item::T(TokenTag::Not)];
        assert(v@ =~= seq![Item::T(TokenTag::Not)]);
        Some(v)
    } else {
        None
    }
}

fn expand_stmt(look: Option<TokenTag>) -> (r: Option<Vec<Item>>)
    ensures
        r is None <==> rule_stmt(look) is None,
        r matches Some(v) ==> rule_stmt(look) == Some(v@),
{
    if at(look, TokenTag::Var) || at(look, TokenTag::Const) {
        let v = vec![Item::N(SymbolKind::Definition)];
        assert(v@ =~= seq![Item::N(SymbolKind::Definition)]);
        Some(v)
    } else if at(look, TokenTag::ID) {
        let v = vec![Item::N(SymbolKind::ID), Item::N(SymbolKind::AssignOrFnCall)];
        assert(v@ =~= seq![Item::N(SymbolKind::ID), Item::N(SymbolKind::AssignOrFnCall)]);
        Some(v)
    } else if at(look, TokenTag::While) {
        let v = vec![Item::T(TokenTag::While), Item::N(SymbolKind::Conditional), Item::N(SymbolKind::Block)];
        assert(v@ =~= seq![Item::T(TokenTag::While), Item::N(SymbolKind::Conditional), Item::N(SymbolKind::Block)]);
        Some(v)
    } else if at(look, TokenTag::If) {
        let v = vec![Item::T(TokenTag::If), Item::N(SymbolKind::Conditional), Item::N(SymbolKind::Block), Item::N(SymbolKind::OptElse)];
        assert(v@ =~= seq![Item::T(TokenTag::If), Item::N(SymbolKind::Conditional), Item::N(SymbolKind::Block), Item::N(SymbolKind::OptElse)]);
        Some(v)
    } else if at(look, TokenTag::Return) {
        let v = vec![Item::T(TokenTag::Return), Item::N(SymbolKind::Conditional), Item::T(TokenTag::Semicolon)];
        assert(v@ =~= seq![Item::T(TokenTag::Return), Item::N(SymbolKind::Conditional), Item::T(TokenTag::Semicolon)]);
        Some(v)
    } else {
        None
    }
}

fn expand_stmt_list(look: Option<TokenTag>) -> (r: Option<Vec<Item>>)
    ensures
        r is None <==> rule_stmt_list(look) is None,
        r matches Some(v) ==> rule_stmt_list(look) == Some(v@),
{
    if is_starts_statement(look) {
        let v = vec![Item::N(SymbolKind::Stmt), Item::N(SymbolKind::StmtList)];
        assert(v@ =~= seq![Item::N(SymbolKind::Stmt), Item::N(SymbolKind::StmtList)]);
        Some(v)
    } else if at(look, TokenTag::RightBrace) {
        Some(Vec::new())
    } else {
        None
    }
}

fn expand_term(look: Option<TokenTag>) -> (r: Option<Vec<Item>>)
    ensures
        r is None <==> rule_term(look) is None,
        r matches Some(v) ==> rule_term(look) == Some(v@),
{
    if at(look, TokenTag::ID) || at(look, TokenTag::Sub) || at(look, TokenTag::Integer) || at(look, TokenTag::Float) || at(look, TokenTag::True) || at(look, TokenTag::False) || at(look, TokenTag::LeftParen) {
        let v = vec![Item::N(SymbolKind::Factor), Item::N(SymbolKind::Term1)];
        assert(v@ =~= seq![Item::N(SymbolKind::Factor), Item::N(SymbolKind::Term1)]);
        Some(v)
    } else if at(look, TokenTag::Character) {
        let v = vec![Item::T(TokenTag::Character)];
        assert(v@ =~= seq![Item::T(TokenTag::Character)]);
        Some(v)
    } else {
        None
    }
}

fn expand_term1(look: Option<TokenTag>) -> (r: Option<Vec<Item>>)
    ensures
        r is None <==> rule_term1(look) is None,
        r matches Some(v) ==> rule_term1(look) == Some(v@),
{
    if at(look, TokenTag::Mul) {
        let v = vec![Item::T(TokenTag::Mul), Item::N(SymbolKind::Factor), Item::N(SymbolKind::Term1)];
        assert(v@ =~= seq![Item::T(TokenTag::Mul), Item::N(SymbolKind::Factor), Item::N(SymbolKind::Term1)]);
        Some(v)
    } else if at(look, TokenTag::Div) {
        let v = vec![Item::T(TokenTag::Div), Item::N(SymbolKind::Factor), Item::N(SymbolKind::Term1)];
        assert(v@ =~= seq![Item::T(TokenTag::Div), Item::N(SymbolKind::Factor), Item::N(SymbolKind::Term1)]);
        Some(v)
    } else if is_follows_term(look) {
        Some(Vec::new())
    } else {
        None
    }
}

fn expand_tl_stmt(look: Option<TokenTag>) -> (r: Option<Vec<Item>>)
    ensures
        r is None <==> rule_tl_stmt(look) is None,
        r matches Some(v) ==> rule_tl_stmt(look) == Some(v@),
{
    if at(look, TokenTag::Export) {
        let v = vec![Item::T(TokenTag::Export), Item::N(SymbolKind::Definition)];
        assert(v@ =~= seq![Item::T(TokenTag::Export), Item::N(SymbolKind::Definition)]);
        Some(v)
    } else if at(look, TokenTag::Fn) {
        let v = vec![Item::N(SymbolKind::Func)];
        assert(v@ =~= seq![Item::N(SymbolKind::Func)]);
        Some(v)
    } else {
        None
    }
}

fn expand_tl_stmt_list(look: Option<TokenTag>) -> (r: Option<Vec<Item>>)
    ensures
        r is None <==> rule_tl_stmt_list(look) is None,
        r matches Some(v) ==> rule_tl_stmt_list(look) == Some(v@),
{
    if at(look, TokenTag::Fn) || at(look, TokenTag::Export) {
        let v = vec![Item::N(SymbolKind::TLStmt), Item::N(SymbolKind::TLStmtList)];
        assert(v@ =~= seq![Item::N(SymbolKind::TLStmt), Item::N(SymbolKind::TLStmtList)]);
        Some(v)
    } else if at(look, TokenTag::RightBrace) {
        Some(Vec::new())
    } else {
        None
    }
}

fn expand_type(look: Option<TokenTag>) -> (r: Option<Vec<Item>>)
    ensures
        r is None <==> rule_type(look) is None,
        r matches Some(v) ==> rule_type(look) == Some(v@),
{
    if at(look, TokenTag::ID) {
        let v = vec![Item::N(SymbolKind::ID)];
        assert(v@ =~= seq![Item::N(SymbolKind::ID)]);
        Some(v)
    } else if at(look, TokenTag::Int) {
        let v = vec![Item::T(TokenTag::Int)];
        assert(v@ =~= seq![Item::T(TokenTag::Int)]);
        Some(v)
    } else if at(look, TokenTag::FloatKW) {
        let v = vec![Item::T(TokenTag::FloatKW)];
        assert(v@ =~= seq![Item::T(TokenTag::FloatKW)]);
        Some(v)
    } else if at(look, TokenTag::Bool) {
        let v = vec![Item::T(TokenTag::Bool)];
        assert(v@ =~= seq![Item::T(TokenTag::Bool)]);
        Some(v)
    } else if at(look, TokenTag::Char) {
        let v = vec![Item::T(TokenTag::Char)];
        assert(v@ =~= seq![Item::T(TokenTag::Char)]);
        Some(v)
    } else if at(look, TokenTag::LeftBracket) {
        let v = vec![Item::T(TokenTag::LeftBracket), Item::N(SymbolKind::Type), Item::T(TokenTag::Semicolon), Item::N(SymbolKind::ArrLen), Item::T(TokenTag::RightBracket)];
        assert(v@ =~= seq![Item::T(TokenTag::LeftBracket), Item::N(SymbolKind::Type), Item::T(TokenTag::Semicolon), Item::N(SymbolKind::ArrLen), Item::T(TokenTag::RightBracket)]);
        Some(v)
    } else {
        None
    }
}

/// Looks the table up: the production for the nonterminal `nt` when the
/// next token has the tag `look`.
pub fn production(nt: SymbolKind, look: Option<TokenTag>) -> (r: Option<Vec<Item>>)
    ensures
        r is None <==> production_of(nt, look) is None,
        r matches Some(v) ==> production_of(nt, look) == Some(v@),
{
    match nt {
        SymbolKind::Terminal | SymbolKind::Empty | SymbolKind::End => None,
        SymbolKind::Array => expand_array(look),
        SymbolKind::ArrLen => expand_arr_len(look),
        SymbolKind::AssignOrFnCall => expand_assign_or_fn_call(look),
        SymbolKind::Block => expand_block(look),
        SymbolKind::BoolExpr => expand_bool_expr(look),
        SymbolKind::BoolTerm => expand_bool_term(look),
        SymbolKind::BoolTerm1 => expand_bool_term1(look),
        SymbolKind::Comparison => expand_comparison(look),
        SymbolKind::Conditional => expand_conditional(look),
        SymbolKind::Conditional1 => expand_conditional1(look),
        SymbolKind::CondOrArr => expand_cond_or_arr(look),
        SymbolKind::Definition => expand_definition(look),
        SymbolKind::Expression => expand_expression(look),
        SymbolKind::Expression1 => expand_expression1(look),
        SymbolKind::Factor => expand_factor(look),
        SymbolKind::Func => expand_func(look),
        SymbolKind::ID => expand_id(look),
        SymbolKind::IDOrFn => expand_id_or_fn(look),
        SymbolKind::InputList => expand_input_list(look),
        SymbolKind::InputRest => expand_input_rest(look),
        SymbolKind::NodeBlock => expand_node_block(look),
        SymbolKind::NodeHeader => expand_node_header(look),
        SymbolKind::NodeList => expand_node_list(look),
        SymbolKind::NodeNT => expand_node_nt(look),
        SymbolKind::NodeRest => expand_node_rest(look),
        SymbolKind::Primitive => expand_primitive(look),
        SymbolKind::OptElse => expand_opt_else(look),
        SymbolKind::OptIDList => expand_opt_id_list(look),
        SymbolKind::OptIndex => expand_opt_index(look),
        SymbolKind::Param => expand_param(look),
        SymbolKind::ParamList => expand_param_list(look),
        SymbolKind::ParamRest => expand_param_rest(look),
        SymbolKind::Positive => expand_positive(look),
        SymbolKind::Program => expand_program(look),
        SymbolKind::ReturnType => expand_return_type(look),
        SymbolKind::Stmt => expand_stmt(look),
        SymbolKind::StmtList => expand_stmt_list(look),
        SymbolKind::Term => expand_term(look),
        SymbolKind::Term1 => expand_term1(look),
        SymbolKind::TLStmt => expand_tl_stmt(look),
        SymbolKind::TLStmtList => expand_tl_stmt_list(look),
        SymbolKind::Type => expand_type(look),
    }
}

} // verus!
