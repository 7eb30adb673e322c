use mainstage_core::{generate_error_report, analyze_ast, generate_ir_from_ast, optimize_ir, run_ir_in_vm, compile_source_to_ir};
use mainstage_core::ast::err::{EmptyScriptError, SyntaxError};
use mainstage_core::ast::kind::AstNodeKind;
use mainstage_core::ast::node::AstNode;
use mainstage_core::analyzers::semantic::err::SemanticError;
use mainstage_core::analyzers::acyclic::err::AcyclicError;
use mainstage_core::error::{Level, MainstageErrorExt};
use mainstage_core::location::{Location, Span};
use mainstage_core::codegen::scheduler::{fq, ScopeKind};
use mainstage_core::text::usize_to_string;

fn loc(l: usize, c: usize) -> Location {
    Location::new("main.ms".to_string(), l, c)
}

#[test]
fn error_report_with_and_without_location() {
    let e = SemanticError::with(Level::Warning, "careful".to_string(), "me".to_string(), Some(loc(2, 5)), None);
    assert_eq!(generate_error_report(&e), "MAINSTAGE | WARNING | main.ms:2:5 | careful");
    let e = SemanticError::with(Level::Critical, "boom".to_string(), "me".to_string(), None, None);
    assert_eq!(generate_error_report(&e), "MAINSTAGE | CRITICAL | unknown location | boom");
}

#[test]
fn long_reports_show_every_part() {
    let span = Span::new(loc(1, 1), loc(1, 9));
    let e = SemanticError::with(Level::Error, "bad".to_string(), "mainstage.x".to_string(), Some(loc(1, 1)), Some(span));
    assert_eq!(e.to_string(), "MAINSTAGE | ERROR | main.ms:1:1 | mainstage.x | main.ms:1:1 - main.ms:1:9 | bad");
    let a = AcyclicError::with(Level::Info, "cycle".to_string(), "dag".to_string(), None, None);
    assert_eq!(a.to_string(), "MAINSTAGE | INFO | unknown | dag | span:none | cycle");
    assert_eq!(a.level(), Level::Info);
    assert_eq!(a.issuer(), "dag");
}

#[test]
fn short_reports_of_parse_errors() {
    let e = EmptyScriptError::new("parser".to_string(), Some(loc(0, 0)), None);
    assert_eq!(e.message(), "The provided script is empty.");
    assert_eq!(e.to_string(), "The provided script is empty. (at main.ms:0:0)");
    let s = SyntaxError::with(Level::Error, "unexpected token".to_string(), "parser".to_string(), None, None);
    assert_eq!(s.to_string(), "unexpected token");
    assert!(s.span().is_none());
}

#[test]
fn levels_render_in_capitals() {
    assert_eq!(Level::Info.to_string(), "INFO");
    assert_eq!(Level::Warning.as_str(), "WARNING");
    assert_eq!(Level::Error.to_string(), "ERROR");
    assert_eq!(Level::Critical.to_string(), "CRITICAL");
}

#[test]
fn text_pipeline_stages() {
    assert_eq!(analyze_ast("x").ok().unwrap(), "Analysis(x)");
    assert_eq!(generate_ir_from_ast("a", "b").ok().unwrap(), "IR(a + b)");
    assert_eq!(optimize_ir("i").ok().unwrap(), "Optimized(i)");
    assert_eq!(run_ir_in_vm("anything").ok().unwrap(), "IR");
}

#[test]
fn compiling_a_parsed_script() {
    let ast = AstNode::new(1, AstNodeKind::Script { body: vec![] }, None, None);
    assert_eq!(compile_source_to_ir(Ok(ast)).ok().unwrap(), "Optimized(IR( + Analysis()))");
    let err: Box<dyn MainstageErrorExt> = Box::new(EmptyScriptError::new("p".to_string(), None, None));
    assert!(compile_source_to_ir(Err(err)).is_err());
}

#[test]
fn locations_and_spans_render() {
    assert_eq!(loc(12, 3).to_string(), "main.ms:12:3");
    assert_eq!(Span::new(loc(1, 2), loc(3, 4)).to_string(), "main.ms:1:2 - main.ms:3:4");
    assert_eq!(Location::default().to_string(), ":0:0");
    assert_eq!(usize_to_string(0), "0");
    assert_eq!(usize_to_string(90210), "90210");
}

#[test]
fn node_kinds_and_accessors() {
    let n = AstNode::new(4, AstNodeKind::Integer { value: 1 }, None, None).with_location(loc(1, 1)).with_span(Span::new(loc(1, 1), loc(1, 2)));
    assert_eq!(n.get_id(), 4);
    assert!(n.get_kind().is_expression());
    assert_eq!(n.get_location().unwrap().column, 1);
    assert_eq!(n.get_span().unwrap().end.column, 2);
    assert_eq!(AstNodeKind::Null.to_string(), "Null");
    assert!(!AstNodeKind::Statement.is_expression());
    let ws = AstNodeKind::Workspace { name: "w".to_string(), body: Box::new(n) };
    assert_eq!(ws.container_body().unwrap().get_id(), 4);
    assert!(AstNodeKind::Null.container_body().is_none());
}

#[test]
fn qualified_names() {
    assert_eq!(fq(&ScopeKind::Workspace("w"), "k"), "workspace:w.k");
    assert_eq!(fq(&ScopeKind::Project("p"), "k"), "project:p.k");
    assert_eq!(fq(&ScopeKind::Stage("s"), "k"), "stage:s.k");
    assert_eq!(fq(&ScopeKind::Task("t"), "k"), "task:t.k");
    assert_eq!(fq(&ScopeKind::Global, "k"), "global:k");
    assert_eq!(fq(&ScopeKind::Local, "k"), "local:k");
}
