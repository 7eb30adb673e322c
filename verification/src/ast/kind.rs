//! AST node kinds and operator enums.
use vstd::prelude::*;
use crate::ast::node::AstNode;

verus! {

/// Binary operators.
#[derive(Debug, Clone, Copy, PartialEq, Eq, Structural)]
pub enum BinaryOperator {
    Eq,
    Ne,
    Lt,
    Le,
    Gt,
    Ge,
    Add,
    Sub,
    Mul,
    Div,
    Mod,
}

/// Unary operators.
#[derive(Debug, Clone, Copy, PartialEq, Eq, Structural)]
pub enum UnaryOperator {
    Inc,
    Dec,
    Plus,
    Minus,
    Not,
}

/// The kind of an AST node, with its children. A float literal is carried by the
/// bit pattern of its IEEE-754 double.
#[derive(Debug)]
pub enum AstNodeKind {
    Script { body: Vec<AstNode> },
    Import { module: String, alias: String },
    Include { file: String },
    Statement,
    Arguments { args: Vec<AstNode> },
    Workspace { name: String, body: Box<AstNode> },
    Project { name: String, body: Box<AstNode> },
    Stage { name: String, args: Option<Box<AstNode>>, body: Box<AstNode> },
    Block { statements: Vec<AstNode> },
    If { condition: Box<AstNode>, body: Box<AstNode> },
    IfElse { condition: Box<AstNode>, if_body: Box<AstNode>, else_body: Box<AstNode> },
    ForIn { iterator: String, iterable: Box<AstNode>, body: Box<AstNode> },
    ForTo { initializer: Box<AstNode>, limit: Box<AstNode>, body: Box<AstNode> },
    While { condition: Box<AstNode>, body: Box<AstNode> },
    UnaryOp { op: UnaryOperator, expr: Box<AstNode> },
    BinaryOp { left: Box<AstNode>, op: BinaryOperator, right: Box<AstNode> },
    Assignment { target: Box<AstNode>, value: Box<AstNode> },
    Command { name: String, arg: String },
    Call { callee: Box<AstNode>, args: Vec<AstNode> },
    Member { object: Box<AstNode>, property: String },
    Index { object: Box<AstNode>, index: Box<AstNode> },
    Return { value: Option<Box<AstNode>> },
    Identifier { name: String },
    String { value: String },
    Integer { value: i64 },
    Float { value: u64 },
    Bool { value: bool },
    List { elements: Vec<AstNode> },
    Null,
}

/// Whether a kind is an expression.
pub open spec fn kind_is_expression(k: AstNodeKind) -> bool {
    match k {
        AstNodeKind::UnaryOp { .. } | AstNodeKind::BinaryOp { .. } | AstNodeKind::Assignment { .. }
        | AstNodeKind::Call { .. } | AstNodeKind::Member { .. } | AstNodeKind::Index { .. }
        | AstNodeKind::Identifier { .. } | AstNodeKind::String { .. } | AstNodeKind::Integer { .. }
        | AstNodeKind::Float { .. } | AstNodeKind::Bool { .. } | AstNodeKind::List { .. }
        | AstNodeKind::Null => true,
        _ => false,
    }
}

/// The name of a kind, as shown in messages.
pub open spec fn kind_name(k: AstNodeKind) -> Seq<char> {
    match k {
        AstNodeKind::Script { .. } => "Script"@,
        AstNodeKind::Import { .. } => "Import"@,
        AstNodeKind::Include { .. } => "Include"@,
        AstNodeKind::Statement => "Statement"@,
        AstNodeKind::Arguments { .. } => "Arguments"@,
        AstNodeKind::Workspace { .. } => "Workspace"@,
        AstNodeKind::Project { .. } => "Project"@,
        AstNodeKind::Stage { .. } => "Stage"@,
        AstNodeKind::Block { .. } => "Block"@,
        AstNodeKind::If { .. } => "If"@,
        AstNodeKind::IfElse { .. } => "IfElse"@,
        AstNodeKind::ForIn { .. } => "ForIn"@,
        AstNodeKind::ForTo { .. } => "ForTo"@,
        AstNodeKind::While { .. } => "While"@,
        AstNodeKind::UnaryOp { .. } => "UnaryOp"@,
        AstNodeKind::BinaryOp { .. } => "BinaryOp"@,
        AstNodeKind::Assignment { .. } => "Assignment"@,
        AstNodeKind::Command { .. } => "Command"@,
        AstNodeKind::Call { .. } => "Call"@,
        AstNodeKind::Member { .. } => "Member"@,
        AstNodeKind::Index { .. } => "Index"@,
        AstNodeKind::Return { .. } => "Return"@,
        AstNodeKind::Identifier { .. } => "Identifier"@,
        AstNodeKind::String { .. } => "String"@,
        AstNodeKind::Integer { .. } => "Integer"@,
        AstNodeKind::Float { .. } => "Float"@,
        AstNodeKind::Bool { .. } => "Bool"@,
        AstNodeKind::List { .. } => "List"@,
        AstNodeKind::Null => "Null"@,
    }
}

impl AstNodeKind {
    /// Whether this kind is an expression.
    pub fn is_expression(&self) -> (r: bool)
        ensures
            r == kind_is_expression(*self),
    {
        match self {
            AstNodeKind::UnaryOp { .. } | AstNodeKind::BinaryOp { .. } | AstNodeKind::Assignment { .. }
            | AstNodeKind::Call { .. } | AstNodeKind::Member { .. } | AstNodeKind::Index { .. }
            | AstNodeKind::Identifier { .. } | AstNodeKind::String { .. } | AstNodeKind::Integer { .. }
            | AstNodeKind::Float { .. } | AstNodeKind::Bool { .. } | AstNodeKind::List { .. }
            | AstNodeKind::Null => true,
            _ => false,
        }
    }

    /// The body of a container (workspace, project or stage).
    pub fn container_body(&self) -> (r: Option<&AstNode>)
        ensures
            match *self {
                AstNodeKind::Workspace { body, .. } => r == Some(&*body),
                AstNodeKind::Project { body, .. } => r == Some(&*body),
                AstNodeKind::Stage { body, .. } => r == Some(&*body),
                _ => r is None,
            },
    {
        match self {
            AstNodeKind::Workspace { body, .. } => Some(&**body),
            AstNodeKind::Project { body, .. } => Some(&**body),
            AstNodeKind::Stage { body, .. } => Some(&**body),
            _ => None,
        }
    }

    /// The name of the kind, as shown in messages.
    pub fn to_string(&self) -> (r: String)
        ensures
            r@ == kind_name(*self),
    {
        let s: &str = match self {
            AstNodeKind::Script { .. } => "Script",
            AstNodeKind::Import { .. } => "Import",
            AstNodeKind::Include { .. } => "Include",
            AstNodeKind::Statement => "Statement",
            AstNodeKind::Arguments { .. } => "Arguments",
            AstNodeKind::Workspace { .. } => "Workspace",
            AstNodeKind::Project { .. } => "Project",
            AstNodeKind::Stage { .. } => "Stage",
            AstNodeKind::Block { .. } => "Block",
            AstNodeKind::If { .. } => "If",
            AstNodeKind::IfElse { .. } => "IfElse",
            AstNodeKind::ForIn { .. } => "ForIn",
            AstNodeKind::ForTo { .. } => "ForTo",
            AstNodeKind::While { .. } => "While",
            AstNodeKind::UnaryOp { .. } => "UnaryOp",
            AstNodeKind::BinaryOp { .. } => "BinaryOp",
            AstNodeKind::Assignment { .. } => "Assignment",
            AstNodeKind::Command { .. } => "Command",
            AstNodeKind::Call { .. } => "Call",
            AstNodeKind::Member { .. } => "Member",
            AstNodeKind::Index { .. } => "Index",
            AstNodeKind::Return { .. } => "Return",
            AstNodeKind::Identifier { .. } => "Identifier",
            AstNodeKind::String { .. } => "String",
            AstNodeKind::Integer { .. } => "Integer",
            AstNodeKind::Float { .. } => "Float",
            AstNodeKind::Bool { .. } => "Bool",
            AstNodeKind::List { .. } => "List",
            AstNodeKind::Null => "Null",
        };
        String::from_str(s)
    }
}

} // verus!
