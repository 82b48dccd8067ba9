//! The abstract syntax tree: a tree of tagged nodes.

use vstd::prelude::*;
use crate::token::{FloatLiteral, FloatView};
use crate::types::{Type, TypeView};

verus! {

/// The tag of a syntax-tree node, with the payload of a leaf.
#[derive(Debug, PartialEq)]
pub enum SyntaxTreeNode {
    NodeSeq,
    DeclareNode,
    NodeHeader,
    NodeList,
    TLStmtSeq,
    DeclareFunc,
    ParamList,
    Param,
    ReturnType,
    Void,
    NoReturn,
    StmtSeq,
    DeclareVar,
    DeclareConst,
    ReturnValue,
    WhileLoop,
    IfStmt,
    Assign,
    Index,
    FnCall,
    InputList,
    AddOp,
    SubOp,
    MulOp,
    DivOp,
    OrOp,
    AndOp,
    CompEq,
    CompNeq,
    CompLess,
    CompGreater,
    CompLeq,
    CompGeq,
    Integer(i32),
    Float(FloatLiteral),
    Character(char),
    Identifier(String),
    /// A type written in the source: the annotation of a declaration or a
    /// parameter, or the type a function returns.
    TypeName(Type),
    True,
    False,
    Null,
}

/// The tag of a syntax-tree node without any payload.
#[derive(Clone, Copy, Debug, PartialEq, Eq, Structural)]
pub enum NodeTag {
    NodeSeq,
    DeclareNode,
    NodeHeader,
    NodeList,
    TLStmtSeq,
    DeclareFunc,
    ParamList,
    Param,
    ReturnType,
    Void,
    NoReturn,
    StmtSeq,
    DeclareVar,
    DeclareConst,
    ReturnValue,
    WhileLoop,
    IfStmt,
    Assign,
    Index,
    FnCall,
    InputList,
    AddOp,
    SubOp,
    MulOp,
    DivOp,
    OrOp,
    AndOp,
    CompEq,
    CompNeq,
    CompLess,
    CompGreater,
    CompLeq,
    CompGeq,
    Integer,
    Float,
    Character,
    Identifier,
    TypeName,
    True,
    False,
    Null,
}

/// The view of a [`SyntaxTreeNode`].
pub enum NodeView {
    Integer(i32),
    Float(FloatView),
    Character(char),
    Identifier(Seq<char>),
    TypeName(TypeView),
    Plain(NodeTag),
}

impl NodeView {
    /// The tag of the node this view stands for.
    pub open spec fn tag(self) -> NodeTag {
        match self {
            NodeView::Integer(_) => NodeTag::Integer,
            NodeView::Float(_) => NodeTag::Float,
            NodeView::Character(_) => NodeTag::Character,
            NodeView::Identifier(_) => NodeTag::Identifier,
            NodeView::TypeName(_) => NodeTag::TypeName,
            NodeView::Plain(t) => t,
        }
    }
}

/// The node of a tag with an empty payload.
pub open spec fn blank_node(t: NodeTag) -> NodeView {
    match t {
        NodeTag::Integer => NodeView::Integer(0),
        NodeTag::Float => NodeView::Float(FloatView { negative: false, digits: Seq::empty() }),
        NodeTag::Character => NodeView::Character(' '),
        NodeTag::Identifier => NodeView::Identifier(Seq::empty()),
        NodeTag::TypeName => NodeView::TypeName(TypeView::Int),
        _ => NodeView::Plain(t),
    }
}

impl View for SyntaxTreeNode {
    type V = NodeView;

    open spec fn view(&self) -> NodeView {
        match self {
            SyntaxTreeNode::Integer(i) => NodeView::Integer(*i),
            SyntaxTreeNode::Float(f) => NodeView::Float(f@),
            SyntaxTreeNode::Character(c) => NodeView::Character(*c),
            SyntaxTreeNode::Identifier(s) => NodeView::Identifier(s@),
            SyntaxTreeNode::TypeName(t) => NodeView::TypeName(t@),
            SyntaxTreeNode::NodeSeq => NodeView::Plain(NodeTag::NodeSeq),
            SyntaxTreeNode::DeclareNode => NodeView::Plain(NodeTag::DeclareNode),
            SyntaxTreeNode::NodeHeader => NodeView::Plain(NodeTag::NodeHeader),
            SyntaxTreeNode::NodeList => NodeView::Plain(NodeTag::NodeList),
            SyntaxTreeNode::TLStmtSeq => NodeView::Plain(NodeTag::TLStmtSeq),
            SyntaxTreeNode::DeclareFunc => NodeView::Plain(NodeTag::DeclareFunc),
            SyntaxTreeNode::ParamList => NodeView::Plain(NodeTag::ParamList),
            SyntaxTreeNode::Param => NodeView::Plain(NodeTag::Param),
            SyntaxTreeNode::ReturnType => NodeView::Plain(NodeTag::ReturnType),
            SyntaxTreeNode::Void => NodeView::Plain(NodeTag::Void),
            SyntaxTreeNode::NoReturn => NodeView::Plain(NodeTag::NoReturn),
            SyntaxTreeNode::StmtSeq => NodeView::Plain(NodeTag::StmtSeq),
            SyntaxTreeNode::DeclareVar => NodeView::Plain(NodeTag::DeclareVar),
            SyntaxTreeNode::DeclareConst => NodeView::Plain(NodeTag::DeclareConst),
            SyntaxTreeNode::ReturnValue => NodeView::Plain(NodeTag::ReturnValue),
            SyntaxTreeNode::WhileLoop => NodeView::Plain(NodeTag::WhileLoop),
            SyntaxTreeNode::IfStmt => NodeView::Plain(NodeTag::IfStmt),
            SyntaxTreeNode::Assign => NodeView::Plain(NodeTag::Assign),
            SyntaxTreeNode::Index => NodeView::Plain(NodeTag::Index),
            SyntaxTreeNode::FnCall => NodeView::Plain(NodeTag::FnCall),
            SyntaxTreeNode::InputList => NodeView::Plain(NodeTag::InputList),
            SyntaxTreeNode::AddOp => NodeView::Plain(NodeTag::AddOp),
            SyntaxTreeNode::SubOp => NodeView::Plain(NodeTag::SubOp),
            SyntaxTreeNode::MulOp => NodeView::Plain(NodeTag::MulOp),
            SyntaxTreeNode::DivOp => NodeView::Plain(NodeTag::DivOp),
            SyntaxTreeNode::OrOp => NodeView::Plain(NodeTag::OrOp),
            SyntaxTreeNode::AndOp => NodeView::Plain(NodeTag::AndOp),
            SyntaxTreeNode::CompEq => NodeView::Plain(NodeTag::CompEq),
            SyntaxTreeNode::CompNeq => NodeView::Plain(NodeTag::CompNeq),
            SyntaxTreeNode::CompLess => NodeView::Plain(NodeTag::CompLess),
            SyntaxTreeNode::CompGreater => NodeView::Plain(NodeTag::CompGreater),
            SyntaxTreeNode::CompLeq => NodeView::Plain(NodeTag::CompLeq),
            SyntaxTreeNode::CompGeq => NodeView::Plain(NodeTag::CompGeq),
            SyntaxTreeNode::True => NodeView::Plain(NodeTag::True),
            SyntaxTreeNode::False => NodeView::Plain(NodeTag::False),
            SyntaxTreeNode::Null => NodeView::Plain(NodeTag::Null),
        }
    }
}

impl SyntaxTreeNode {
    /// The tag of this node.
    pub fn tag(&self) -> (t: NodeTag)
        ensures
            t == self@.tag(),
            self@ is Plain ==> self@ == NodeView::Plain(t) && blank_node(t) == self@,
    {
        match self {
            SyntaxTreeNode::Integer(_) => NodeTag::Integer,
            SyntaxTreeNode::Float(_) => NodeTag::Float,
            SyntaxTreeNode::Character(_) => NodeTag::Character,
            SyntaxTreeNode::Identifier(_) => NodeTag::Identifier,
            SyntaxTreeNode::TypeName(_) => NodeTag::TypeName,
            SyntaxTreeNode::NodeSeq => NodeTag::NodeSeq,
            SyntaxTreeNode::DeclareNode => NodeTag::DeclareNode,
            SyntaxTreeNode::NodeHeader => NodeTag::NodeHeader,
            SyntaxTreeNode::NodeList => NodeTag::NodeList,
            SyntaxTreeNode::TLStmtSeq => NodeTag::TLStmtSeq,
            SyntaxTreeNode::DeclareFunc => NodeTag::DeclareFunc,
            SyntaxTreeNode::ParamList => NodeTag::ParamList,
            SyntaxTreeNode::Param => NodeTag::Param,
            SyntaxTreeNode::ReturnType => NodeTag::ReturnType,
            SyntaxTreeNode::Void => NodeTag::Void,
            SyntaxTreeNode::NoReturn => NodeTag::NoReturn,
            SyntaxTreeNode::StmtSeq => NodeTag::StmtSeq,
            SyntaxTreeNode::DeclareVar => NodeTag::DeclareVar,
            SyntaxTreeNode::DeclareConst => NodeTag::DeclareConst,
            SyntaxTreeNode::ReturnValue => NodeTag::ReturnValue,
            SyntaxTreeNode::WhileLoop => NodeTag::WhileLoop,
            SyntaxTreeNode::IfStmt => NodeTag::IfStmt,
            SyntaxTreeNode::Assign => NodeTag::Assign,
            SyntaxTreeNode::Index => NodeTag::Index,
            SyntaxTreeNode::FnCall => NodeTag::FnCall,
            SyntaxTreeNode::InputList => NodeTag::InputList,
            SyntaxTreeNode::AddOp => NodeTag::AddOp,
            SyntaxTreeNode::SubOp => NodeTag::SubOp,
            SyntaxTreeNode::MulOp => NodeTag::MulOp,
            SyntaxTreeNode::DivOp => NodeTag::DivOp,
            SyntaxTreeNode::OrOp => NodeTag::OrOp,
            SyntaxTreeNode::AndOp => NodeTag::AndOp,
            SyntaxTreeNode::CompEq => NodeTag::CompEq,
            SyntaxTreeNode::CompNeq => NodeTag::CompNeq,
            SyntaxTreeNode::CompLess => NodeTag::CompLess,
            SyntaxTreeNode::CompGreater => NodeTag::CompGreater,
            SyntaxTreeNode::CompLeq => NodeTag::CompLeq,
            SyntaxTreeNode::CompGeq => NodeTag::CompGeq,
            SyntaxTreeNode::True => NodeTag::True,
            SyntaxTreeNode::False => NodeTag::False,
            SyntaxTreeNode::Null => NodeTag::Null,
        }
    }

    /// The node of a tag with an empty payload.
    pub fn of_tag(t: NodeTag) -> (r: SyntaxTreeNode)
        ensures
            r@ == blank_node(t),
    {
        match t {
            NodeTag::Integer => SyntaxTreeNode::Integer(0),
            NodeTag::Float => SyntaxTreeNode::Float(
                FloatLiteral { negative: false, digits: String::new() },
            ),
            NodeTag::Character => SyntaxTreeNode::Character(' '),
            NodeTag::Identifier => SyntaxTreeNode::Identifier(String::new()),
            NodeTag::TypeName => SyntaxTreeNode::TypeName(Type::Int),
            NodeTag::NodeSeq => SyntaxTreeNode::NodeSeq,
            NodeTag::DeclareNode => SyntaxTreeNode::DeclareNode,
            NodeTag::NodeHeader => SyntaxTreeNode::NodeHeader,
            NodeTag::NodeList => SyntaxTreeNode::NodeList,
            NodeTag::TLStmtSeq => SyntaxTreeNode::TLStmtSeq,
            NodeTag::DeclareFunc => SyntaxTreeNode::DeclareFunc,
            NodeTag::ParamList => SyntaxTreeNode::ParamList,
            NodeTag::Param => SyntaxTreeNode::Param,
            NodeTag::ReturnType => SyntaxTreeNode::ReturnType,
            NodeTag::Void => SyntaxTreeNode::Void,
            NodeTag::NoReturn => SyntaxTreeNode::NoReturn,
            NodeTag::StmtSeq => SyntaxTreeNode::StmtSeq,
            NodeTag::DeclareVar => SyntaxTreeNode::DeclareVar,
            NodeTag::DeclareConst => SyntaxTreeNode::DeclareConst,
            NodeTag::ReturnValue => SyntaxTreeNode::ReturnValue,
            NodeTag::WhileLoop => SyntaxTreeNode::WhileLoop,
            NodeTag::IfStmt => SyntaxTreeNode::IfStmt,
            NodeTag::Assign => SyntaxTreeNode::Assign,
            NodeTag::Index => SyntaxTreeNode::Index,
            NodeTag::FnCall => SyntaxTreeNode::FnCall,
            NodeTag::InputList => SyntaxTreeNode::InputList,
            NodeTag::AddOp => SyntaxTreeNode::AddOp,
            NodeTag::SubOp => SyntaxTreeNode::SubOp,
            NodeTag::MulOp => SyntaxTreeNode::MulOp,
            NodeTag::DivOp => SyntaxTreeNode::DivOp,
            NodeTag::OrOp => SyntaxTreeNode::OrOp,
            NodeTag::AndOp => SyntaxTreeNode::AndOp,
            NodeTag::CompEq => SyntaxTreeNode::CompEq,
            NodeTag::CompNeq => SyntaxTreeNode::CompNeq,
            NodeTag::CompLess => SyntaxTreeNode::CompLess,
            NodeTag::CompGreater => SyntaxTreeNode::CompGreater,
            NodeTag::CompLeq => SyntaxTreeNode::CompLeq,
            NodeTag::CompGeq => SyntaxTreeNode::CompGeq,
            NodeTag::True => SyntaxTreeNode::True,
            NodeTag::False => SyntaxTreeNode::False,
            NodeTag::Null => SyntaxTreeNode::Null,
        }
    }
}

impl Clone for SyntaxTreeNode {
    fn clone(&self) -> (r: Self)
        ensures
            r@ == self@,
    {
        match self {
            SyntaxTreeNode::Integer(i) => SyntaxTreeNode::Integer(*i),
            SyntaxTreeNode::Float(f) => SyntaxTreeNode::Float(f.clone()),
            SyntaxTreeNode::Character(c) => SyntaxTreeNode::Character(*c),
            SyntaxTreeNode::Identifier(s) => SyntaxTreeNode::Identifier(s.clone()),
            SyntaxTreeNode::TypeName(t) => SyntaxTreeNode::TypeName(t.clone()),
            other => SyntaxTreeNode::of_tag(other.tag()),
        }
    }
}

/// A syntax tree: a node and its subtrees, in order.
#[derive(Debug, PartialEq)]
pub struct AbstractSyntaxTree {
    pub node: SyntaxTreeNode,
    pub children: Vec<AbstractSyntaxTree>,
}

/// The view of an [`AbstractSyntaxTree`].
pub struct AstView {
    pub node: NodeView,
    pub children: Seq<AstView>,
}

/// The view of a tree.
pub open spec fn ast_view(t: AbstractSyntaxTree) -> AstView
    decreases t,
{
    AstView {
        node: t.node@,
        children: Seq::new(
            t.children.len() as nat,
            |i: int|
                if 0 <= i < t.children.len() {
                    ast_view(t.children[i])
                } else {
                    AstView::null()
                },
        ),
    }
}

impl View for AbstractSyntaxTree {
    type V = AstView;

    open spec fn view(&self) -> AstView {
        ast_view(*self)
    }
}

impl AstView {
    /// The tree of a single `Null` node.
    pub open spec fn null() -> AstView {
        AstView { node: NodeView::Plain(NodeTag::Null), children: Seq::empty() }
    }

    /// The tree of a single node.
    pub open spec fn leaf(node: NodeView) -> AstView {
        AstView { node, children: Seq::empty() }
    }

    /// The tree of a node without payload over the given subtrees.
    pub open spec fn of(tag: NodeTag, children: Seq<AstView>) -> AstView {
        AstView { node: NodeView::Plain(tag), children }
    }

    /// The tag of the root.
    pub open spec fn tag(self) -> NodeTag {
        self.node.tag()
    }

    /// The subtree at position `i`, or the `Null` tree when there is none.
    pub open spec fn child(self, i: int) -> AstView {
        if 0 <= i < self.children.len() {
            self.children[i]
        } else {
            AstView::null()
        }
    }
}

/// The views of a sequence of trees.
pub open spec fn views(trees: Seq<AbstractSyntaxTree>) -> Seq<AstView> {
    Seq::new(trees.len(), |i: int| trees[i]@)
}

/// The view of a tree holds the views of its subtrees.
pub proof fn lemma_view_children(t: &AbstractSyntaxTree)
    ensures
        t@.node == t.node@,
        t@.children == views(t.children@),
        t@.children.len() == t.children@.len(),
        forall|i: int| 0 <= i < t.children@.len() ==> (#[trigger] t@.children[i]) == t.children@[i]@,
{
    assert(t@.children =~= views(t.children@));
}

impl AbstractSyntaxTree {
    /// The tree of a single `Null` node.
    pub fn new() -> (r: Self)
        ensures
            r@ == AstView::null(),
    {
        let r = AbstractSyntaxTree { node: SyntaxTreeNode::Null, children: Vec::new() };
        assert(r@.children =~= Seq::empty());
        r
    }

    /// The tree of a single node.
    pub fn leaf(node: SyntaxTreeNode) -> (r: Self)
        ensures
            r@ == AstView::leaf(node@),
    {
        let r = AbstractSyntaxTree { node, children: Vec::new() };
        assert(r@.children =~= Seq::empty());
        r
    }

    /// The tree of a node over the given subtrees.
    pub fn with(node: SyntaxTreeNode, children: Vec<AbstractSyntaxTree>) -> (r: Self)
        ensures
            r@ == (AstView { node: node@, children: views(children@) }),
    {
        let r = AbstractSyntaxTree { node, children };
        proof {
            lemma_view_children(&r);
        }
        r
    }

    /// The tag of the root.
    pub fn tag(&self) -> (t: NodeTag)
        ensures
            t == self@.tag(),
    {
        self.node.tag()
    }
}

impl Clone for AbstractSyntaxTree {
    fn clone(&self) -> (r: Self)
        ensures
            r@ == self@,
        decreases self,
    {
        let mut kids: Vec<AbstractSyntaxTree> = Vec::new();
        let mut i: usize = 0;
        while i < self.children.len()
            invariant
                i <= self.children.len(),
                kids@.len() == i,
                forall|k: int| 0 <= k < i ==> (#[trigger] kids@[k])@ == self.children@[k]@,
            decreases self.children.len() - i,
        {
            let c = self.children[i].clone();
            kids.push(c);
            i += 1;
        }
        let r = AbstractSyntaxTree { node: self.node.clone(), children: kids };
        proof {
            lemma_view_children(&r);
            lemma_view_children(self);
            assert(r@.children =~= self@.children);
        }
        r
    }
}

} // verus!
