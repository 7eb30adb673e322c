//! Mainstage: the core of a small scripting language for build workspaces — its
//! syntax tree, analyses, intermediate representations and their optimization.
use vstd::prelude::*;
use crate::error::{MainstageErrorExt, level_text};
use crate::location::location_text;
use crate::text::push_str;

pub mod text;
pub mod acyclic;
pub mod ast;
pub mod ir;
pub mod location;
pub mod error;
pub mod diagnostic;
pub mod analyzers;
pub mod output;
pub mod codegen;
pub mod disasm;
pub mod listing;
pub mod imports;
pub mod strmap;

verus! {

/// The location part of an error report: `file:line:column`, or `unknown location`.
pub open spec fn report_location(l: Option<crate::location::Location>) -> Seq<char> {
    match l {
        Some(x) => location_text(x),
        None => "unknown location"@,
    }
}

/// `MAINSTAGE | level | location | message` for a diagnostic.
pub fn generate_error_report<E: MainstageErrorExt>(error: &E) -> (r: String)
    ensures
        r@ == "MAINSTAGE | "@ + level_text(error.level_of()) + " | "@ + report_location(error.location_of())
            + " | "@ + error.message_of(),
{
    let level = error.level();
    let location = match error.location() {
        Some(loc) => loc.to_string(),
        None => String::from_str("unknown location"),
    };
    let message = error.message();
    let mut out = String::from_str("MAINSTAGE | ");
    push_str(&mut out, level.as_str());
    push_str(&mut out, " | ");
    push_str(&mut out, location.as_str());
    push_str(&mut out, " | ");
    push_str(&mut out, message.as_str());
    out
}

/// The analysis stage of the text pipeline: `Analysis(ast)`.
pub fn analyze_ast(ast: &str) -> (r: Result<String, Box<dyn MainstageErrorExt>>)
    ensures
        r matches Ok(s) && s@ == "Analysis("@ + ast@ + ")"@,
{
    let mut out = String::from_str("Analysis(");
    push_str(&mut out, ast);
    push_str(&mut out, ")");
    Ok(out)
}

/// The IR stage of the text pipeline: `IR(ast + analysis)`.
pub fn generate_ir_from_ast(ast: &str, analysis: &str) -> (r: Result<String, Box<dyn MainstageErrorExt>>)
    ensures
        r matches Ok(s) && s@ == "IR("@ + ast@ + " + "@ + analysis@ + ")"@,
{
    let mut out = String::from_str("IR(");
    push_str(&mut out, ast);
    push_str(&mut out, " + ");
    push_str(&mut out, analysis);
    push_str(&mut out, ")");
    Ok(out)
}

/// The optimization stage of the text pipeline: `Optimized(ir)`.
pub fn optimize_ir(ir: &str) -> (r: Result<String, Box<dyn MainstageErrorExt>>)
    ensures
        r matches Ok(s) && s@ == "Optimized("@ + ir@ + ")"@,
{
    let mut out = String::from_str("Optimized(");
    push_str(&mut out, ir);
    push_str(&mut out, ")");
    Ok(out)
}

/// The execution stage of the text pipeline: `IR`, whatever the input.
pub fn run_ir_in_vm(_ir: &str) -> (r: Result<String, Box<dyn MainstageErrorExt>>)
    ensures
        r matches Ok(s) && s@ == "IR"@,
{
    Ok(String::from_str("IR"))
}

/// What the text pipeline makes of a parsed script: the stages run on empty text.
pub open spec fn compiled_text() -> Seq<char> {
    "Optimized("@ + ("IR("@ + ""@ + " + "@ + ("Analysis("@ + ""@ + ")"@) + ")"@) + ")"@
}

/// Compiles a parsed script to its IR text. A parse error is passed on; a parsed
/// script goes through the analysis, IR and optimization stages of the text
/// pipeline.
pub fn compile_source_to_ir(parsed: Result<crate::ast::node::AstNode, Box<dyn MainstageErrorExt>>) -> (r: Result<String, Box<dyn MainstageErrorExt>>)
    ensures
        parsed is Err ==> r is Err,
        parsed is Ok ==> (r matches Ok(s) && s@ == compiled_text()),
{
    let _ast = match parsed {
        Ok(a) => a,
        Err(e) => return Err(e),
    };
    let analysis = match analyze_ast("") {
        Ok(a) => a,
        Err(e) => return Err(e),
    };
    let ir = match generate_ir_from_ast("", analysis.as_str()) {
        Ok(i) => i,
        Err(e) => return Err(e),
    };
    optimize_ir(ir.as_str())
}

} // verus!
