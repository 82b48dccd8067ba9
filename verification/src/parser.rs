//! The predictive parser: a stack of grammar symbols driven by the
//! production table, which builds the parse tree while it recognises.

use vstd::prelude::*;
use vstd::string::StringExecFns;
use crate::ast::AbstractSyntaxTree;
use crate::derivation::{conforms_all, derives, lemma_parse_derives};
use crate::shape::{complete, lemma_lowered_tree_complete};
use crate::grammar::{GrammarSymbol, Item, SymbolKind, SymbolView, production, production_of, symbol_of_kind};
use crate::lexer::{LexError, Lexer, Scan, lemma_lex_advances, lex};
use crate::lower::{lower, lower_node};
use crate::parse_tree::{ParseTree, TreeView, lemma_add_child_wf, lemma_add_children_wf, lemma_next_nt_sibling_bounds};
use crate::recognition::{derivable, lemma_parses_what_is_derivable};
use crate::spelling::tokens_from;
use crate::token::{Token, TokenTag, TokenView, blank_token};

verus! {

/// Why a source text is not a program.
#[derive(Clone, Copy, Debug, PartialEq)]
pub enum ParseError {
    /// The lexer found ill-formed text.
    Lexical(LexError),
    /// The grammar symbol on top of the stack does not admit the next
    /// token: `found` is the tag of that token, `None` at the end of input.
    Syntax { expected: SymbolKind, found: Option<TokenTag> },
    /// The parse tree would hold more than [`MAX_TREE_NODES`] nodes.
    TreeTooLarge,
}

/// The diagnostic for a grammar symbol that does not admit the next token.
pub open spec fn syntax_text(expected: SymbolKind) -> Seq<char> {
    match expected {
        SymbolKind::Terminal => "syntax error: unexpected token"@,
        SymbolKind::Empty => "syntax error"@,
        SymbolKind::End => "syntax error: expected the end of input"@,
        SymbolKind::Array => "syntax error: expected array assignment"@,
        SymbolKind::ArrLen => "syntax error: expected integer constant for array length"@,
        SymbolKind::AssignOrFnCall => "syntax error: expected function call or assignment"@,
        SymbolKind::Block => "syntax error: expected {"@,
        SymbolKind::BoolExpr => "syntax error: expected expression 1"@,
        SymbolKind::BoolTerm => "syntax error: expected expression 2"@,
        SymbolKind::BoolTerm1 => "syntax error: expected expression 3"@,
        SymbolKind::Comparison => "syntax error: expected comparison symbol"@,
        SymbolKind::Conditional => "syntax error: expected expression 4"@,
        SymbolKind::Conditional1 => "syntax error: expected expression 5"@,
        SymbolKind::CondOrArr => "syntax error: expected conditional or array"@,
        SymbolKind::Definition => "syntax error: expected variable definition"@,
        SymbolKind::Expression => "syntax error: expected expression 6"@,
        SymbolKind::Expression1 => "syntax error: expected expression 7"@,
        SymbolKind::Factor => "syntax error: expected expression 8"@,
        SymbolKind::Func => "syntax error: expected function declaration"@,
        SymbolKind::ID => "syntax error: expected identifier"@,
        SymbolKind::IDOrFn => "syntax error: expected identifier or function call"@,
        SymbolKind::InputList => "syntax error: expected valid input"@,
        SymbolKind::InputRest => "syntax error: expected comma"@,
        SymbolKind::NodeBlock => "syntax error: expected {"@,
        SymbolKind::NodeHeader => "syntax error: expected identifier for node"@,
        SymbolKind::NodeList => "syntax error: expected list of node identifiers"@,
        SymbolKind::NodeNT => "syntax error: expected node keyword"@,
        SymbolKind::NodeRest => "syntax error: expected comma for node list"@,
        SymbolKind::Primitive => "syntax error: expected number"@,
        SymbolKind::OptElse => "syntax error: expected else keyword"@,
        SymbolKind::OptIDList => "syntax error: expected : or {"@,
        SymbolKind::OptIndex => "syntax error: expected array index"@,
        SymbolKind::Param => "syntax error: expected parameter name"@,
        SymbolKind::ParamList => "syntax error: expected parameter list"@,
        SymbolKind::ParamRest => "syntax error: expected comma for param list"@,
        SymbolKind::Positive => "syntax error: expected number"@,
        SymbolKind::Program => "syntax error: expected node keyword"@,
        SymbolKind::ReturnType => "syntax error: invalid return type"@,
        SymbolKind::Stmt => "syntax error: invalid statement"@,
        SymbolKind::StmtList => "syntax error: unrecognized statement"@,
        SymbolKind::Term => "syntax error: expected term"@,
        SymbolKind::Term1 => "syntax error: expected term 2"@,
        SymbolKind::TLStmt => "syntax error: invalid top level statement"@,
        SymbolKind::TLStmtList => "syntax error: invalid top level statement 2"@,
        SymbolKind::Type => "syntax error: expected type"@,
    }
}

/// The diagnostic for a grammar symbol that does not admit the next token.
pub fn syntax_message(expected: SymbolKind) -> (r: String)
    ensures
        r@ == syntax_text(expected),
{
    match expected {
        SymbolKind::Terminal => String::from_str("syntax error: unexpected token"),
        SymbolKind::Empty => String::from_str("syntax error"),
        SymbolKind::End => String::from_str("syntax error: expected the end of input"),
        SymbolKind::Array => String::from_str("syntax error: expected array assignment"),
        SymbolKind::ArrLen => String::from_str("syntax error: expected integer constant for array length"),
        SymbolKind::AssignOrFnCall => String::from_str("syntax error: expected function call or assignment"),
        SymbolKind::Block => String::from_str("syntax error: expected {"),
        SymbolKind::BoolExpr => String::from_str("syntax error: expected expression 1"),
        SymbolKind::BoolTerm => String::from_str("syntax error: expected expression 2"),
        SymbolKind::BoolTerm1 => String::from_str("syntax error: expected expression 3"),
        SymbolKind::Comparison => String::from_str("syntax error: expected comparison symbol"),
        SymbolKind::Conditional => String::from_str("syntax error: expected expression 4"),
        SymbolKind::Conditional1 => String::from_str("syntax error: expected expression 5"),
        SymbolKind::CondOrArr => String::from_str("syntax error: expected conditional or array"),
        SymbolKind::Definition => String::from_str("syntax error: expected variable definition"),
        SymbolKind::Expression => String::from_str("syntax error: expected expression 6"),
        SymbolKind::Expression1 => String::from_str("syntax error: expected expression 7"),
        SymbolKind::Factor => String::from_str("syntax error: expected expression 8"),
        SymbolKind::Func => String::from_str("syntax error: expected function declaration"),
        SymbolKind::ID => String::from_str("syntax error: expected identifier"),
        SymbolKind::IDOrFn => String::from_str("syntax error: expected identifier or function call"),
        SymbolKind::InputList => String::from_str("syntax error: expected valid input"),
        SymbolKind::InputRest => String::from_str("syntax error: expected comma"),
        SymbolKind::NodeBlock => String::from_str("syntax error: expected {"),
        SymbolKind::NodeHeader => String::from_str("syntax error: expected identifier for node"),
        SymbolKind::NodeList => String::from_str("syntax error: expected list of node identifiers"),
        SymbolKind::NodeNT => String::from_str("syntax error: expected node keyword"),
        SymbolKind::NodeRest => String::from_str("syntax error: expected comma for node list"),
        SymbolKind::Primitive => String::from_str("syntax error: expected number"),
        SymbolKind::OptElse => String::from_str("syntax error: expected else keyword"),
        SymbolKind::OptIDList => String::from_str("syntax error: expected : or {"),
        SymbolKind::OptIndex => String::from_str("syntax error: expected array index"),
        SymbolKind::Param => String::from_str("syntax error: expected parameter name"),
        SymbolKind::ParamList => String::from_str("syntax error: expected parameter list"),
        SymbolKind::ParamRest => String::from_str("syntax error: expected comma for param list"),
        SymbolKind::Positive => String::from_str("syntax error: expected number"),
        SymbolKind::Program => String::from_str("syntax error: expected node keyword"),
        SymbolKind::ReturnType => String::from_str("syntax error: invalid return type"),
        SymbolKind::Stmt => String::from_str("syntax error: invalid statement"),
        SymbolKind::StmtList => String::from_str("syntax error: unrecognized statement"),
        SymbolKind::Term => String::from_str("syntax error: expected term"),
        SymbolKind::Term1 => String::from_str("syntax error: expected term 2"),
        SymbolKind::TLStmt => String::from_str("syntax error: invalid top level statement"),
        SymbolKind::TLStmtList => String::from_str("syntax error: invalid top level statement 2"),
        SymbolKind::Type => String::from_str("syntax error: expected type"),
    }
}

impl ParseError {
    /// The diagnostic of the error.
    pub open spec fn text(self) -> Seq<char> {
        match self {
            ParseError::Lexical(e) => e.text(),
            ParseError::Syntax { expected, found } => syntax_text(expected),
            ParseError::TreeTooLarge => "syntax error: program too large"@,
        }
    }

    /// The diagnostic of the error, as a string.
    pub fn message(&self) -> (r: String)
        ensures
            r@ == self.text(),
    {
        match self {
            ParseError::Lexical(e) => e.message(),
            ParseError::Syntax { expected, found } => syntax_message(*expected),
            ParseError::TreeTooLarge => String::from_str("syntax error: program too large"),
        }
    }
}

/// The largest number of nodes a parse tree may hold.
pub const MAX_TREE_NODES: usize = 0x7fff_ffff;

/// The state of the parser between two steps: the stack of symbols still
/// to recognise, its top last; the parse tree built so far; and the focus,
/// the node that the next expansion gives children to.
pub struct Machine {
    pub stack: Seq<SymbolView>,
    pub tree: TreeView,
    pub focus: int,
}

impl Machine {
    /// The state in which parsing starts: the end marker and the start
    /// symbol on the stack, and a tree whose only node is the start symbol.
    pub open spec fn start() -> Machine {
        Machine {
            stack: seq![SymbolView::Other(SymbolKind::End), SymbolView::Other(SymbolKind::Program)],
            tree: TreeView::empty().set_root(SymbolView::Other(SymbolKind::Program)),
            focus: 0,
        }
    }

    /// The tree is well formed and the focus is one of its nodes.
    pub open spec fn wf(self) -> bool {
        self.tree.wf() && 0 <= self.focus < self.tree.nodes.len()
    }
}

/// The tag of the next token, `None` at the end of input.
pub open spec fn look_tag(look: Option<TokenView>) -> Option<TokenTag> {
    match look {
        Some(t) => Some(t.tag()),
        None => None,
    }
}

/// The grammar symbol that an item of a production stands for when the next
/// token is `look`: a terminal with the tag of `look` is `look` itself, so
/// that the tree records what was read; any other terminal is the token of
/// its tag with an empty payload.
pub open spec fn item_symbol(item: Item, look: Option<TokenView>) -> SymbolView {
    match item {
        Item::T(tag) => SymbolView::Terminal(
            if look_tag(look) == Some(tag) {
                look->0
            } else {
                blank_token(tag)
            },
        ),
        Item::N(kind) => symbol_of_kind(kind),
    }
}

/// The symbols of a production when the next token is `look`.
pub open spec fn instantiate(items: Seq<Item>, look: Option<TokenView>) -> Seq<SymbolView> {
    Seq::new(items.len(), |i: int| item_symbol(items[i], look))
}

/// The position of the first nonterminal among `syms` from `from` on.
pub open spec fn first_nonterminal(syms: Seq<SymbolView>, from: int) -> Option<int>
    decreases syms.len() - from,
{
    if from < 0 || from >= syms.len() {
        None
    } else if syms[from].is_nonterminal() {
        Some(from)
    } else {
        first_nonterminal(syms, from + 1)
    }
}

/// A sequence back to front.
pub open spec fn reversed(syms: Seq<SymbolView>) -> Seq<SymbolView> {
    Seq::new(syms.len(), |i: int| syms[syms.len() - 1 - i])
}

/// One expansion. `m` is the state after the nonterminal on top of the
/// stack was popped, `items` the production the table gave for it.
///
/// An empty production gives the focus one child, the empty symbol, and
/// moves the focus to the next nonterminal still to expand. Any other
/// production pushes its symbols, the first on top, gives the focus one
/// child for each, and moves the focus to the first nonterminal among them
/// or, when all are terminals, to the next nonterminal still to expand.
pub open spec fn expand(m: Machine, items: Seq<Item>, look: Option<TokenView>) -> Machine {
    if items.len() == 0 {
        let tree = m.tree.add_child(m.focus, SymbolView::Other(SymbolKind::Empty));
        Machine { stack: m.stack, tree, focus: tree.next_nt_sibling(m.focus) }
    } else {
        let syms = instantiate(items, look);
        let tree = m.tree.add_children(m.focus, syms);
        Machine {
            stack: m.stack + reversed(syms),
            tree,
            focus: match first_nonterminal(syms, 0) {
                Some(k) => m.tree.nodes.len() + k,
                None => tree.next_nt_sibling(m.focus),
            },
        }
    }
}

/// The parser's work on one token: symbols are popped and nonterminals
/// expanded until a terminal on top of the stack matches the token by its
/// tag, or, at the end of input, the end marker is reached. A terminal or
/// end marker that does not match, and a nonterminal without a production
/// for the token, are syntax errors.
pub open spec fn feed(m: Machine, look: Option<TokenView>) -> Result<Machine, ParseError>
    decreases MAX_TREE_NODES - m.tree.nodes.len(), m.stack.len(),
{
    if m.stack.len() == 0 {
        Ok(m)
    } else {
        let top = m.stack.last();
        let rest = Machine { stack: m.stack.drop_last(), ..m };
        match top {
            SymbolView::Terminal(t) => {
                if look_tag(look) == Some(t.tag()) {
                    Ok(rest)
                } else {
                    Err(ParseError::Syntax { expected: SymbolKind::Terminal, found: look_tag(look) })
                }
            },
            SymbolView::Other(kind) => {
                if kind == SymbolKind::Empty || kind == SymbolKind::Terminal {
                    feed(rest, look)
                } else if kind == SymbolKind::End {
                    if look is None {
                        Ok(rest)
                    } else {
                        Err(ParseError::Syntax { expected: SymbolKind::End, found: look_tag(look) })
                    }
                } else {
                    match production_of(kind, look_tag(look)) {
                        None => Err(ParseError::Syntax { expected: kind, found: look_tag(look) }),
                        Some(items) => {
                            let next = expand(rest, items, look);
                            if m.tree.nodes.len() < next.tree.nodes.len() <= MAX_TREE_NODES {
                                feed(next, look)
                            } else {
                                Err(ParseError::TreeTooLarge)
                            }
                        },
                    }
                }
            },
        }
    }
}

/// Parsing from the state `m` with the text `s` read from `pos` on: token
/// after token is lexed and fed to the parser; at the end of input the
/// parser is fed the end, and the tree it has built is the result.
pub open spec fn run(m: Machine, s: Seq<char>, pos: int) -> Result<TreeView, ParseError>
    decreases s.len() - pos,
{
    match lex(s, pos) {
        Scan::Error(e) => Err(ParseError::Lexical(e)),
        Scan::End(_) => match feed(m, None) {
            Ok(done) => Ok(done.tree),
            Err(e) => Err(e),
        },
        Scan::Token(t, next) => match feed(m, Some(t)) {
            Err(e) => Err(e),
            Ok(then) => if pos < next <= s.len() {
                run(then, s, next)
            } else {
                Ok(then.tree)
            },
        },
    }
}

/// The parse tree of the text `s` read from `pos` on, or the first error.
pub open spec fn parse_of(s: Seq<char>, pos: int) -> Result<TreeView, ParseError> {
    run(Machine::start(), s, pos)
}

/// The views of a stack of symbols.
pub open spec fn symbols(stack: Seq<GrammarSymbol>) -> Seq<SymbolView> {
    Seq::new(stack.len(), |i: int| stack[i]@)
}

/// The view of a token that may be absent.
pub open spec fn token_view(token: Option<Token>) -> Option<TokenView> {
    match token {
        Some(t) => Some(t@),
        None => None,
    }
}

/// An expansion adds at least one node, keeps the tree well formed and
/// leaves the focus on one of its nodes.
pub proof fn lemma_expand_wf(m: Machine, items: Seq<Item>, look: Option<TokenView>)
    requires
        m.wf(),
        m.tree.nodes.len() + items.len() + 1 <= usize::MAX,
    ensures
        expand(m, items, look).wf(),
        expand(m, items, look).tree.nodes.len() == m.tree.nodes.len() + (if items.len() == 0 {
            1
        } else {
            items.len() as int
        }),
{
    if items.len() == 0 {
        lemma_add_child_wf(m.tree, m.focus, SymbolView::Other(SymbolKind::Empty));
        let tree = m.tree.add_child(m.focus, SymbolView::Other(SymbolKind::Empty));
        lemma_next_nt_sibling_bounds(tree, m.focus);
    } else {
        let syms = instantiate(items, look);
        lemma_add_children_wf(m.tree, m.focus, syms);
        let tree = m.tree.add_children(m.focus, syms);
        lemma_next_nt_sibling_bounds(tree, m.focus);
        lemma_first_nonterminal_bounds(syms, 0);
    }
}

/// A nonterminal that is found stands at or after the position searched from.
pub proof fn lemma_first_nonterminal_bounds(syms: Seq<SymbolView>, from: int)
    requires
        0 <= from,
    ensures
        first_nonterminal(syms, from) matches Some(k) ==> from <= k < syms.len()
            && syms[k].is_nonterminal(),
    decreases syms.len() - from,
{
    if from < syms.len() && !syms[from].is_nonterminal() {
        lemma_first_nonterminal_bounds(syms, from + 1);
    }
}

/// The symbol that an item of a production stands for when the next token
/// is `token`.
fn symbol_for(item: Item, token: &Option<Token>) -> (r: GrammarSymbol)
    ensures
        r@ == item_symbol(item, token_view(*token)),
{
    match item {
        Item::T(tag) => {
            match token {
                Some(t) => {
                    if t.tag() == tag {
                        GrammarSymbol::Terminal(t.clone())
                    } else {
                        GrammarSymbol::Terminal(Token::of_tag(tag))
                    }
                },
                None => GrammarSymbol::Terminal(Token::of_tag(tag)),
            }
        },
        Item::N(kind) => GrammarSymbol::of_kind(kind),
    }
}

/// Carries out one expansion on the stack and the tree, and returns the
/// new focus.
fn expand_into(
    tree: &mut ParseTree,
    stack: &mut Vec<GrammarSymbol>,
    idx: usize,
    items: &Vec<Item>,
    token: &Option<Token>,
) -> (focus: usize)
    requires
        old(tree)@.wf(),
        idx < old(tree)@.nodes.len(),
        old(tree)@.nodes.len() + items@.len() + 1 <= usize::MAX,
    ensures
        (Machine { stack: symbols(final(stack)@), tree: final(tree)@, focus: focus as int }) == expand(
            Machine { stack: symbols(old(stack)@), tree: old(tree)@, focus: idx as int },
            items@,
            token_view(*token),
        ),
        final(tree)@.wf(),
        focus < final(tree)@.nodes.len(),
        final(tree)@.nodes[0] == old(tree)@.nodes[0],
        final(tree)@.nodes.len() >= old(tree)@.nodes.len(),
{
    let ghost look = token_view(*token);
    let ghost m0 = Machine { stack: symbols(old(stack)@), tree: old(tree)@, focus: idx as int };
    proof {
        lemma_expand_wf(m0, items@, look);
    }
    if items.len() == 0 {
        tree.add_child(idx, GrammarSymbol::Empty);
        return tree.get_next_nt_sibling(idx);
    }
    let ghost syms = instantiate(items@, look);
    let n = items.len();
    let mut k: usize = n;
    while k > 0
        invariant
            k <= n,
            n == items@.len(),
            syms == instantiate(items@, look),
            look == token_view(*token),
            symbols(stack@) =~= symbols(old(stack)@) + reversed(syms).subrange(0, n - k),
        decreases k,
    {
        k -= 1;
        let sym = symbol_for(items[k], token);
        let ghost before = stack@;
        stack.push(sym);
        proof {
            assert(reversed(syms)[n - 1 - k] == syms[k as int]);
            assert(symbols(stack@) =~= symbols(before).push(sym@));
            assert(reversed(syms).subrange(0, n - k) =~= reversed(syms).subrange(0, n - k - 1).push(
                syms[k as int],
            ));
        }
    }
    assert(reversed(syms).subrange(0, n as int) =~= reversed(syms));
    let base = tree.len();
    assert(syms.skip(0) =~= syms);
    let mut first: Option<usize> = None;
    let mut i: usize = 0;
    while i < n
        invariant
            i <= n,
            n == items@.len(),
            syms == instantiate(items@, look),
            look == token_view(*token),
            tree@.wf(),
            idx < tree@.nodes.len(),
            tree@.nodes[0] == old(tree)@.nodes[0],
            base == old(tree)@.nodes.len(),
            tree@.nodes.len() == base + i,
            base + n + 1 <= usize::MAX,
            old(tree)@.add_children(idx as int, syms) == tree@.add_children(idx as int, syms.skip(i as int)),
            first matches Some(v) ==> first_nonterminal(syms, 0) == Some(v - base),
            first is None ==> first_nonterminal(syms, 0) == first_nonterminal(syms, i as int),
        decreases n - i,
    {
        let sym = symbol_for(items[i], token);
        let is_nt = sym.is_nonterminal();
        proof {
            assert(syms.skip(i as int)[0] == syms[i as int]);
            assert(syms.skip(i as int).drop_first() =~= syms.skip(i as int + 1));
        }
        let at = tree.add_child(idx, sym);
        if is_nt && first.is_none() {
            first = Some(at);
        }
        i += 1;
    }
    match first {
        Some(v) => v,
        None => tree.get_next_nt_sibling(idx),
    }
}

/// The parser: the lexer it reads from, the parse tree it builds, and the
/// syntax tree lowered from it.
pub struct Parser {
    pub lexer: Lexer,
    pub parse_tree: ParseTree,
    pub ast: AbstractSyntaxTree,
}

impl Parser {
    /// A parser that reads from `lexer`, with an empty parse tree and a
    /// `Null` syntax tree.
    pub fn new(lexer: Lexer) -> (r: Self)
        ensures
            r.lexer == lexer,
            r.parse_tree@ == TreeView::empty(),
            r.parse_tree@.wf(),
            r.ast@ == crate::ast::AstView::null(),
    {
        Parser { lexer, parse_tree: ParseTree::new(), ast: AbstractSyntaxTree::new() }
    }

    /// Lowers the whole parse tree, from its root, and keeps the result as
    /// the parser's syntax tree. The syntax tree of a parse tree that is
    /// well formed, conforms to the grammar and has the start symbol for its
    /// root, as the tree of a parsed text does, is complete.
    pub fn generate_ast(&mut self)
        ensures
            final(self).ast@ == lower(old(self).parse_tree@, 0),
            final(self).parse_tree == old(self).parse_tree,
            final(self).lexer == old(self).lexer,
            old(self).parse_tree@.wf() && conforms_all(old(self).parse_tree@) && old(
                self,
            ).parse_tree@.nodes.len() > 0 && old(self).parse_tree@.nodes[0] == SymbolView::Other(
                SymbolKind::Program,
            ) ==> complete(final(self).ast@),
    {
        proof {
            let t = self.parse_tree@;
            if t.wf() && conforms_all(t) && t.nodes.len() > 0 && t.nodes[0] == SymbolView::Other(
                SymbolKind::Program,
            ) {
                lemma_lowered_tree_complete(t);
            }
        }
        self.ast = self.build_ast_from_parse_node(0);
    }

    /// The syntax tree that the parse-tree node `idx` lowers to.
    pub fn build_ast_from_parse_node(&self, idx: usize) -> (r: AbstractSyntaxTree)
        ensures
            r@ == lower(self.parse_tree@, idx as int),
    {
        lower_node(&self.parse_tree, idx)
    }

    /// Feeds one token, or the end of input, to the stack and the tree.
    fn feed(
        tree: &mut ParseTree,
        stack: &mut Vec<GrammarSymbol>,
        idx: usize,
        token: &Option<Token>,
    ) -> (r: Result<usize, ParseError>)
        requires
            old(tree)@.wf(),
            idx < old(tree)@.nodes.len(),
            old(tree)@.nodes.len() <= MAX_TREE_NODES,
        ensures
            final(tree)@.wf(),
            final(tree)@.nodes.len() <= MAX_TREE_NODES,
            final(tree)@.nodes.len() >= old(tree)@.nodes.len(),
            final(tree)@.nodes[0] == old(tree)@.nodes[0],
            match feed(
                Machine { stack: symbols(old(stack)@), tree: old(tree)@, focus: idx as int },
                token_view(*token),
            ) {
                Ok(m) => r matches Ok(focus) && m == (Machine {
                    stack: symbols(final(stack)@),
                    tree: final(tree)@,
                    focus: focus as int,
                }) && focus < final(tree)@.nodes.len(),
                Err(e) => r == Err::<usize, ParseError>(e),
            },
    {
        let ghost look = token_view(*token);
        let ghost m0 = Machine { stack: symbols(old(stack)@), tree: old(tree)@, focus: idx as int };
        let tag: Option<TokenTag> = match token {
            Some(t) => Some(t.tag()),
            None => None,
        };
        let mut at = idx;
        loop
            invariant
                tree@.wf(),
                at < tree@.nodes.len(),
                tree@.nodes.len() <= MAX_TREE_NODES,
                tree@.nodes.len() >= old(tree)@.nodes.len(),
                tree@.nodes[0] == old(tree)@.nodes[0],
                look == token_view(*token),
                tag == look_tag(look),
                m0 == (Machine { stack: symbols(old(stack)@), tree: old(tree)@, focus: idx as int }),
                feed(m0, look) == feed(
                    Machine { stack: symbols(stack@), tree: tree@, focus: at as int },
                    look,
                ),
            decreases MAX_TREE_NODES - tree@.nodes.len(), stack@.len(),
        {
            let ghost m = Machine { stack: symbols(stack@), tree: tree@, focus: at as int };
            let top = match stack.pop() {
                None => {
                    assert(symbols(stack@) =~= m.stack);
                    return Ok(at);
                },
                Some(top) => top,
            };
            assert(symbols(stack@) =~= m.stack.drop_last());
            assert(top@ == m.stack.last());
            match top {
                GrammarSymbol::Terminal(t) => {
                    let same = match tag {
                        Some(k) => k == t.tag(),
                        None => false,
                    };
                    if same {
                        return Ok(at);
                    } else {
                        return Err(ParseError::Syntax { expected: SymbolKind::Terminal, found: tag });
                    }
                },
                GrammarSymbol::Empty => {},
                GrammarSymbol::End => {
                    if token.is_none() {
                        return Ok(at);
                    } else {
                        return Err(ParseError::Syntax { expected: SymbolKind::End, found: tag });
                    }
                },
                nt => {
                    let kind = nt.kind();
                    let items = match production(kind, tag) {
                        None => {
                            return Err(ParseError::Syntax { expected: kind, found: tag });
                        },
                        Some(items) => items,
                    };
                    let added: usize = if items.len() == 0 {
                        1
                    } else {
                        items.len()
                    };
                    let size = tree.len();
                    proof {
                        lemma_expand_wf(
                            Machine { stack: symbols(stack@), tree: tree@, focus: at as int },
                            items@,
                            look,
                        );
                    }
                    if added > MAX_TREE_NODES - size {
                        return Err(ParseError::TreeTooLarge);
                    }
                    at = expand_into(tree, stack, at, &items, token);
                },
            }
        }
    }

    /// Parses the source from the lexer's position to its end.
    ///
    /// The parse tree is rebuilt from scratch. Parsing succeeds exactly when
    /// the text lexes without error and the grammar derives its tokens, by a
    /// tree of no more nodes than a parse tree may hold. On success the tree
    /// is the tree of the program: it derives the tokens of the text, every
    /// node by a production of the table. On failure the first error is
    /// returned, and the tree is what had been built when it was met. Either
    /// way the tree is well formed and its root, node 0, is the start symbol.
    pub fn parse(&mut self) -> (r: Result<(), ParseError>)
        ensures
            final(self).lexer.text() == old(self).lexer.text(),
            final(self).ast == old(self).ast,
            final(self).parse_tree@.wf(),
            final(self).parse_tree@.nodes.len() > 0,
            final(self).parse_tree@.nodes[0] == SymbolView::Other(SymbolKind::Program),
            r is Ok ==> final(self).lexer.position() == final(self).lexer.text().len(),
            r is Ok <==> tokens_from(old(self).lexer.text(), old(self).lexer.position()) is Ok
                && derivable(
                tokens_from(old(self).lexer.text(), old(self).lexer.position())->Ok_0,
            ),
            r is Ok ==> tokens_from(old(self).lexer.text(), old(self).lexer.position()) is Ok
                && derives(
                final(self).parse_tree@,
                tokens_from(old(self).lexer.text(), old(self).lexer.position())->Ok_0,
            ),
            match parse_of(old(self).lexer.text(), old(self).lexer.position()) {
                Ok(tree) => r is Ok && final(self).parse_tree@ == tree,
                Err(e) => r == Err::<(), ParseError>(e),
            },
    {
        let mut stack: Vec<GrammarSymbol> = Vec::new();
        stack.push(GrammarSymbol::End);
        stack.push(GrammarSymbol::Program);
        self.parse_tree = ParseTree::new();
        self.parse_tree.set_root(GrammarSymbol::Program);
        let mut idx: usize = 0;
        let ghost s = self.lexer.text();
        let ghost start = self.lexer.position();
        assert(symbols(stack@) =~= Machine::start().stack);
        let ahead = self.lexer.remaining();
        proof {
            lemma_parse_derives(s, start);
            lemma_parses_what_is_derivable(s, start);
        }
        loop
            invariant
                parse_of(s, start) is Ok <==> tokens_from(s, start) is Ok && derivable(
                    tokens_from(s, start)->Ok_0,
                ),
                parse_of(s, start) matches Ok(tree) ==> tokens_from(s, start) is Ok && derives(
                    tree,
                    tokens_from(s, start)->Ok_0,
                ),
                self.lexer.text() == s,
                s == old(self).lexer.text(),
                start == old(self).lexer.position(),
                self.ast == old(self).ast,
                self.parse_tree@.wf(),
                idx < self.parse_tree@.nodes.len(),
                self.parse_tree@.nodes.len() <= MAX_TREE_NODES,
                self.parse_tree@.nodes[0] == SymbolView::Other(SymbolKind::Program),
                parse_of(s, start) == run(
                    Machine { stack: symbols(stack@), tree: self.parse_tree@, focus: idx as int },
                    s,
                    self.lexer.position(),
                ),
            decreases self.lexer.text().len() - self.lexer.position(),
        {
            let left = self.lexer.remaining();
            proof {
                lemma_lex_advances(s, self.lexer.position());
            }
            let token = match self.lexer.next_token() {
                Err(e) => {
                    return Err(ParseError::Lexical(e));
                },
                Ok(token) => token,
            };
            match Self::feed(&mut self.parse_tree, &mut stack, idx, &token) {
                Err(e) => {
                    return Err(e);
                },
                Ok(focus) => {
                    idx = focus;
                },
            }
            if token.is_none() {
                return Ok(());
            }
        }
    }
}

} // verus!
