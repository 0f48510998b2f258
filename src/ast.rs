use vstd::prelude::*;

use crate::text_data::TextRange;
use crate::tokenizer::{Token, TokenKind};

verus! {

/// A node of the syntax tree: what it is, and the source range it covers.
#[derive(Debug)]
pub struct Node {
    pub data: Box<NodeData>,
    pub text_range: TextRange,
}

#[derive(Debug)]
pub enum NodeData {
    Program(Vec<Node>),
    Identifier(String),
    NumericLiteral(usize),
    BinaryExpr(Node, OperatorType, Node),
    Tuple(Vec<Node>),
    /// Name, parameters, body.
    FunctionDeclaration(Node, Vec<Node>, Node),
    /// Callee, arguments.
    FunctionCall(Node, Vec<Node>),
    FunctionParameter(Node),
    /// Condition, body, and the `Else` node if there is one.
    If(Node, Node, Option<Node>),
    Else(Node),
    /// Kind, name, initial value.
    VariableDeclaration(DeclarationType, Node, Node),
    /// Target, operator, value.
    VariableModification(Node, VariableModificationType, Node),
    StructAccess(Node, Node),
    ModAccess(Node, Node),
    /// Array, index.
    ArrayAccess(Node, Node),
    Neg(Node),
}

#[derive(Debug, Clone, Copy, PartialEq, Eq, Structural)]
pub enum DeclarationType {
    Const,
    Var,
    Let,
}

impl DeclarationType {
    /// The declaration keyword that `value` is, or `value` itself where it is
    /// none.
    pub fn try_from<'a>(value: &'a Token) -> (r: Result<DeclarationType, &'a Token>)
        ensures
            match value.data.spec_kind() {
                TokenKind::Const => r == Ok::<DeclarationType, &Token>(DeclarationType::Const),
                TokenKind::Var => r == Ok::<DeclarationType, &Token>(DeclarationType::Var),
                TokenKind::Let => r == Ok::<DeclarationType, &Token>(DeclarationType::Let),
                _ => r == Err::<DeclarationType, &Token>(value),
            },
    {
        match value.data.kind() {
            TokenKind::Const => Ok(DeclarationType::Const),
            TokenKind::Var => Ok(DeclarationType::Var),
            TokenKind::Let => Ok(DeclarationType::Let),
            _ => Err(value),
        }
    }
}

#[derive(Debug, Clone, Copy, PartialEq, Eq, Structural)]
pub enum OperatorType {
    Add,
    Sub,
    Mul,
    Div,
    NotEquals,
    IsEquals,
    Or,
}

#[derive(Debug, Clone, Copy, PartialEq, Eq, Structural)]
pub enum VariableModificationType {
    IncreaseBy,
    DecreaseBy,
    MultiplyBy,
    DivideBy,
    Assign,
}

#[derive(Debug, Clone, Copy, PartialEq, Eq, Structural)]
pub enum PropertyAccessType {
    Struct,
    Mod,
}

/// What a node is, without its children.
pub enum Label {
    Program,
    Identifier(Seq<char>),
    NumericLiteral(nat),
    BinaryExpr(OperatorType),
    Tuple,
    FunctionDeclaration,
    FunctionCall,
    FunctionParameter,
    If,
    Else,
    VariableDeclaration(DeclarationType),
    VariableModification(VariableModificationType),
    StructAccess,
    ModAccess,
    ArrayAccess,
    Neg,
}

/// A syntax tree as a mathematical value. The children come in the order of
/// the node's fields: a declaration's name, then its parameters, then its body;
/// a call's callee, then its arguments; a conditional's condition, body and
/// `Else` node.
pub struct Tree {
    pub label: Label,
    pub children: Seq<Tree>,
    pub span: TextRange,
}

pub open spec fn leaf(label: Label, span: TextRange) -> Tree {
    Tree { label, children: Seq::empty(), span }
}

pub open spec fn node1(label: Label, a: Tree, span: TextRange) -> Tree {
    Tree { label, children: seq![a], span }
}

pub open spec fn node2(label: Label, a: Tree, b: Tree, span: TextRange) -> Tree {
    Tree { label, children: seq![a, b], span }
}

impl Node {
    pub open spec fn view(&self) -> Tree
        decreases self,
    {
        let span = self.text_range;
        match *self.data {
            NodeData::Program(v) => Tree { label: Label::Program, children: nodes_view(v@), span },
            NodeData::Identifier(s) => leaf(Label::Identifier(s@), span),
            NodeData::NumericLiteral(n) => leaf(Label::NumericLiteral(n as nat), span),
            NodeData::BinaryExpr(a, op, b) => node2(Label::BinaryExpr(op), a.view(), b.view(), span),
            NodeData::Tuple(v) => Tree { label: Label::Tuple, children: nodes_view(v@), span },
            NodeData::FunctionDeclaration(name, params, body) => Tree {
                label: Label::FunctionDeclaration,
                children: seq![name.view()] + nodes_view(params@) + seq![body.view()],
                span,
            },
            NodeData::FunctionCall(callee, args) => Tree {
                label: Label::FunctionCall,
                children: seq![callee.view()] + nodes_view(args@),
                span,
            },
            NodeData::FunctionParameter(id) => node1(Label::FunctionParameter, id.view(), span),
            NodeData::If(c, body, e) => Tree {
                label: Label::If,
                children: match e {
                    Some(x) => seq![c.view(), body.view(), x.view()],
                    None => seq![c.view(), body.view()],
                },
                span,
            },
            NodeData::Else(body) => node1(Label::Else, body.view(), span),
            NodeData::VariableDeclaration(d, id, e) => node2(Label::VariableDeclaration(d), id.view(), e.view(), span),
            NodeData::VariableModification(t, m, v) => node2(Label::VariableModification(m), t.view(), v.view(), span),
            NodeData::StructAccess(a, b) => node2(Label::StructAccess, a.view(), b.view(), span),
            NodeData::ModAccess(a, b) => node2(Label::ModAccess, a.view(), b.view(), span),
            NodeData::ArrayAccess(a, b) => node2(Label::ArrayAccess, a.view(), b.view(), span),
            NodeData::Neg(e) => node1(Label::Neg, e.view(), span),
        }
    }
}

/// The views of a sequence of nodes.
pub open spec fn nodes_view(s: Seq<Node>) -> Seq<Tree>
    decreases s,
{
    if s.len() == 0 {
        Seq::empty()
    } else {
        nodes_view(s.drop_last()).push(s.last().view())
    }
}

pub proof fn lemma_nodes_view_push(s: Seq<Node>, n: Node)
    ensures
        nodes_view(s.push(n)) == nodes_view(s).push(n.view()),
{
    assert(s.push(n).drop_last() =~= s);
}

pub proof fn lemma_nodes_view_len(s: Seq<Node>)
    ensures
        nodes_view(s).len() == s.len(),
    decreases s.len(),
{
    if s.len() > 0 {
        lemma_nodes_view_len(s.drop_last());
    }
}

pub open spec fn view_all(s: Seq<Node>) -> Seq<Tree> {
    s.map_values(|n: Node| n.view())
}

pub proof fn lemma_nodes_view_all(s: Seq<Node>)
    ensures
        nodes_view(s) == view_all(s),
    decreases s.len(),
{
    if s.len() > 0 {
        lemma_nodes_view_all(s.drop_last());
        assert(view_all(s.drop_last()).push(s.last().view()) =~= view_all(s));
    } else {
        assert(view_all(s) =~= Seq::<Tree>::empty());
    }
}

} // verus!
