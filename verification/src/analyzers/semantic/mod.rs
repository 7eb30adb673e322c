//! The semantic analysis.
use vstd::prelude::*;
use crate::ast::node::AstNode;
use crate::error::Level;
use crate::location::{dup_opt_location, dup_opt_span};
use crate::analyzers::semantic::err::SemanticError;
use crate::analyzers::semantic::analyzer::Analyzer;
use crate::analyzers::semantic::stmt::{script_finding, reports, finding};

pub mod err;
pub mod kind;
pub mod symbol;
pub mod table;
pub mod stmt;
pub mod analyzer;

verus! {

/// What the semantic rules report on a script: the refusal of its first statement
/// that is not `Null`, or, when every statement passes, that no entrypoint
/// workspace was declared.
pub open spec fn semantic_finding(ast: AstNode) -> (Seq<char>, Seq<char>, Option<crate::location::Location>, Option<crate::location::Span>) {
    match script_finding(ast) {
        Some(f) => f,
        None => finding(
            "No entrypoint workspace found in script."@,
            "mainstage.analyzers.semantic.analyze_semantic_rules"@,
            ast,
        ),
    }
}

/// Checks a script against the semantic rules and names its entrypoint workspace.
/// The analysis of bodies takes no node yet, so a script is either refused at its
/// first statement or declares nothing, and no entrypoint is found: the result is
/// always the one diagnostic of `semantic_finding`.
pub fn analyze_semantic_rules(ast: &AstNode) -> (r: Result<String, Vec<SemanticError>>)
    ensures
        r matches Err(v) && v@.len() == 1 && reports(v@[0], semantic_finding(*ast)),
{
    let mut analyzer = Analyzer::new();
    match analyzer.analyze(ast) {
        Err(e) => {
            let mut v: Vec<SemanticError> = Vec::new();
            v.push(e);
            return Err(v);
        },
        Ok(()) => {},
    }
    let diagnostics = analyzer.take_diagnostics();
    if diagnostics.len() > 0 {
        return Err(diagnostics);
    }
    let e = SemanticError::with(
        Level::Error,
        String::from_str("No entrypoint workspace found in script."),
        String::from_str("mainstage.analyzers.semantic.analyze_semantic_rules"),
        dup_opt_location(&ast.location),
        dup_opt_span(&ast.span),
    );
    let mut v: Vec<SemanticError> = Vec::new();
    v.push(e);
    Err(v)
}

} // verus!
