//! AST nodes: a kind with its children, an id, and where the node came from.
use vstd::prelude::*;
use crate::ast::kind::AstNodeKind;
use crate::location::{Location, Span};

verus! {

/// A node of the syntax tree. The id is chosen by whoever builds the tree.
#[derive(Debug)]
pub struct AstNode {
    pub id: usize,
    pub kind: AstNodeKind,
    pub location: Option<Location>,
    pub span: Option<Span>,
}

/// The number of nodes in a tree.
pub open spec fn node_size(n: AstNode) -> nat
    decreases n, 0nat,
{
    1 + kind_size(n.kind)
}

/// The number of nodes below a kind.
pub open spec fn kind_size(k: AstNodeKind) -> nat
    decreases k, 0nat,
{
    match k {
        AstNodeKind::Script { body } => list_size(body@),
        AstNodeKind::Arguments { args } => list_size(args@),
        AstNodeKind::Workspace { body, .. } => node_size(*body),
        AstNodeKind::Project { body, .. } => node_size(*body),
        AstNodeKind::Stage { args, body, .. } => node_size(*body) + match args {
            Some(a) => node_size(*a),
            None => 0,
        },
        AstNodeKind::Block { statements } => list_size(statements@),
        AstNodeKind::If { condition, body } => node_size(*condition) + node_size(*body),
        AstNodeKind::IfElse { condition, if_body, else_body } =>
            node_size(*condition) + node_size(*if_body) + node_size(*else_body),
        AstNodeKind::ForIn { iterable, body, .. } => node_size(*iterable) + node_size(*body),
        AstNodeKind::ForTo { initializer, limit, body } =>
            node_size(*initializer) + node_size(*limit) + node_size(*body),
        AstNodeKind::While { condition, body } => node_size(*condition) + node_size(*body),
        AstNodeKind::UnaryOp { expr, .. } => node_size(*expr),
        AstNodeKind::BinaryOp { left, right, .. } => node_size(*left) + node_size(*right),
        AstNodeKind::Assignment { target, value } => node_size(*target) + node_size(*value),
        AstNodeKind::Call { callee, args } => node_size(*callee) + list_size(args@),
        AstNodeKind::Member { object, .. } => node_size(*object),
        AstNodeKind::Index { object, index } => node_size(*object) + node_size(*index),
        AstNodeKind::Return { value } => match value {
            Some(v) => node_size(*v),
            None => 0,
        },
        AstNodeKind::List { elements } => list_size(elements@),
        _ => 0,
    }
}

/// The number of nodes in a list of trees.
pub open spec fn list_size(s: Seq<AstNode>) -> nat
    decreases s, s.len(),
{
    if s.len() == 0 {
        0
    } else {
        node_size(s[0]) + list_size(s.drop_first())
    }
}

/// Every tree of a list is smaller than the list.
pub proof fn lemma_list_size(s: Seq<AstNode>, i: int)
    requires
        0 <= i < s.len(),
    ensures
        node_size(s[i]) <= list_size(s),
    decreases s.len(),
{
    if i > 0 {
        lemma_list_size(s.drop_first(), i - 1);
    }
}

impl AstNode {
    /// Creates a node with the given id.
    pub fn new(id: usize, node_type: AstNodeKind, location: Option<Location>, span: Option<Span>) -> (r: Self)
        ensures
            r.id == id,
            r.kind == node_type,
            r.location == location,
            r.span == span,
    {
        AstNode { id, kind: node_type, location, span }
    }

    /// The node with its location set.
    pub fn with_location(self, location: Location) -> (r: Self)
        ensures
            r.id == self.id,
            r.kind == self.kind,
            r.location == Some(location),
            r.span == self.span,
    {
        AstNode { id: self.id, kind: self.kind, location: Some(location), span: self.span }
    }

    /// The node with its span set.
    pub fn with_span(self, span: Span) -> (r: Self)
        ensures
            r.id == self.id,
            r.kind == self.kind,
            r.location == self.location,
            r.span == Some(span),
    {
        AstNode { id: self.id, kind: self.kind, location: self.location, span: Some(span) }
    }

    /// The id of the node.
    pub fn get_id(&self) -> (r: usize)
        ensures
            r == self.id,
    {
        self.id
    }

    /// The kind of the node.
    pub fn get_kind(&self) -> (r: &AstNodeKind)
        ensures
            *r == self.kind,
    {
        &self.kind
    }

    /// The location of the node, if known.
    pub fn get_location(&self) -> (r: Option<&Location>)
        ensures
            match self.location {
                Some(l) => r == Some(&l),
                None => r is None,
            },
    {
        self.location.as_ref()
    }

    /// The span of the node, if known.
    pub fn get_span(&self) -> (r: Option<&Span>)
        ensures
            match self.span {
                Some(s) => r == Some(&s),
                None => r is None,
            },
    {
        self.span.as_ref()
    }
}

} // verus!
