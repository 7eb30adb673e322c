use mainstage_core::analyzers::semantic::analyze_semantic_rules;
use mainstage_core::analyzers::semantic::analyzer::Analyzer;
use mainstage_core::analyzers::semantic::kind::{InferredKind, Kind, Origin};
use mainstage_core::analyzers::semantic::symbol::{Symbol, SymbolKind, SymbolScope};
use mainstage_core::analyzers::semantic::table::SymbolTable;
use mainstage_core::analyzers::semantic::stmt::analyze_script_statements;
use mainstage_core::ast::kind::AstNodeKind;
use mainstage_core::ast::node::AstNode;
use mainstage_core::error::{Level, MainstageErrorExt};
use mainstage_core::location::{Location, Span};

fn node(id: usize, kind: AstNodeKind) -> AstNode {
    AstNode::new(id, kind, None, None)
}

fn block(stmts: Vec<AstNode>) -> Box<AstNode> {
    Box::new(node(99, AstNodeKind::Block { statements: stmts }))
}

fn script(body: Vec<AstNode>) -> AstNode {
    node(1, AstNodeKind::Script { body })
}

fn ident(name: &str) -> AstNode {
    node(50, AstNodeKind::Identifier { name: name.to_string() })
}

#[test]
fn empty_script_has_no_entrypoint() {
    let ast = script(vec![]);
    let errs = analyze_semantic_rules(&ast).unwrap_err();
    assert_eq!(errs.len(), 1);
    assert_eq!(errs[0].message(), "No entrypoint workspace found in script.");
    assert_eq!(errs[0].issuer(), "mainstage.analyzers.semantic.analyze_semantic_rules");
    assert_eq!(errs[0].level(), Level::Error);
}

#[test]
fn null_statements_are_skipped() {
    let ast = script(vec![node(2, AstNodeKind::Null), node(3, AstNodeKind::Null)]);
    let errs = analyze_semantic_rules(&ast).unwrap_err();
    assert_eq!(errs[0].message(), "No entrypoint workspace found in script.");
}

#[test]
fn non_script_root_is_refused() {
    let ast = node(7, AstNodeKind::Null).with_location(Location::new("a.ms".to_string(), 3, 4));
    let errs = analyze_semantic_rules(&ast).unwrap_err();
    assert_eq!(errs.len(), 1);
    assert_eq!(errs[0].message(), "Expected a Script node.");
    assert_eq!(errs[0].issuer(), "mainstage.analyzers.semantic.stmt.analyze_script_statements");
    assert_eq!(errs[0].location().unwrap().to_string(), "a.ms:3:4");
}

#[test]
fn empty_workspace_body_is_refused() {
    let ws = node(2, AstNodeKind::Workspace { name: "main".to_string(), body: block(vec![]) });
    let errs = analyze_semantic_rules(&script(vec![ws])).unwrap_err();
    assert_eq!(errs[0].message(), "Block cannot be empty.");
    assert_eq!(errs[0].issuer(), "mainstage.analyzers.semantic.stmt.check_for_empty_block");
}

#[test]
fn workspace_body_is_not_analyzed_yet() {
    let ws = node(2, AstNodeKind::Workspace { name: "main".to_string(), body: block(vec![node(3, AstNodeKind::Null)]) });
    let errs = analyze_semantic_rules(&script(vec![ws])).unwrap_err();
    assert_eq!(errs[0].message(), "Unsupported node kind for analyze_node: Block");
    assert_eq!(errs[0].issuer(), "mainstage.analyzers.semantic.node.analyze_node");
}

#[test]
fn stage_with_bad_parameter_is_refused() {
    let args = node(4, AstNodeKind::Arguments { args: vec![ident("a"), node(5, AstNodeKind::Integer { value: 3 })] });
    let st = node(2, AstNodeKind::Stage { name: "build".to_string(), args: Some(Box::new(args)), body: block(vec![ident("x")]) });
    let errs = analyze_semantic_rules(&script(vec![st])).unwrap_err();
    assert_eq!(errs[0].message(), "Expected Parameter node.");
    assert_eq!(errs[0].issuer(), "mainstage.analyzers.semantic.stmt.analyze_parameters");
}

#[test]
fn stage_with_non_argument_list_is_refused() {
    let st = node(2, AstNodeKind::Stage { name: "build".to_string(), args: Some(Box::new(ident("a"))), body: block(vec![ident("x")]) });
    let errs = analyze_semantic_rules(&script(vec![st])).unwrap_err();
    assert_eq!(errs[0].message(), "Expected Parameters node.");
}

#[test]
fn unsupported_statement_is_refused() {
    let ast = script(vec![node(2, AstNodeKind::Null), ident("x")]);
    let errs = analyze_semantic_rules(&ast).unwrap_err();
    assert_eq!(
        errs[0].message(),
        "Unsupported statement type in script body: Identifier\nSupport types are objects such as Workspace, Project, and Stage."
    );
    assert_eq!(errs[0].issuer(), "mainstage.analyzers.semantic.stmt.analyze_statement");
}

#[test]
fn stage_declares_itself_and_opens_a_scope_with_its_parameters() {
    let args = node(4, AstNodeKind::Arguments { args: vec![ident("a"), ident("b")] });
    let st = node(2, AstNodeKind::Stage { name: "build".to_string(), args: Some(Box::new(args)), body: block(vec![ident("x")]) });
    let ast = script(vec![st]);
    let mut tbl = SymbolTable::new();
    let r = analyze_script_statements(&ast, &mut tbl);
    assert!(r.is_err());
    assert_eq!(tbl.symbols.len(), 2);
    let decl = tbl.symbols[0].iter().find(|(n, _)| n == "build").unwrap();
    assert_eq!(*decl.1.last().unwrap().kind(), SymbolKind::Function);
    assert_eq!(decl.1.last().unwrap().parameters().unwrap().len(), 2);
    assert!(tbl.symbol_exists_in_current_scope("a"));
    assert!(tbl.symbol_exists_in_current_scope("b"));
    assert!(!tbl.symbol_exists_in_global_scope("a"));
}

#[test]
fn project_declares_an_object() {
    let pr = node(2, AstNodeKind::Project { name: "core".to_string(), body: block(vec![ident("x")]) });
    let mut analyzer = Analyzer::new();
    assert!(analyzer.analyze(&script(vec![pr])).is_err());
    let tbl = analyzer.get_symbol_table();
    assert!(tbl.symbol_exists_in_global_scope("core"));
    assert_eq!(tbl.symbols.len(), 2);
    assert!(tbl.symbols[1].is_empty());
    assert!(analyzer.take_diagnostics().is_empty());
}

#[test]
fn table_lookup_finds_innermost_declaration() {
    let mut t = SymbolTable::new();
    t.insert_symbol(Symbol::new_variable("x".to_string(), Some(InferredKind::integer()), SymbolScope::Global, None, None));
    t.enter_scope();
    t.insert_symbol(Symbol::new_variable("x".to_string(), Some(InferredKind::string()), SymbolScope::Local, None, None));
    let found = t.lookup_symbol("x").unwrap();
    assert_eq!(found.len(), 1);
    assert_eq!(found[0].inferred_type().unwrap().kind, Kind::String);
    t.exit_scope();
    assert_eq!(t.lookup_symbol("x").unwrap()[0].inferred_type().unwrap().kind, Kind::Integer);
    assert!(t.is_global_scope());
}

#[test]
fn table_overloads_accumulate_latest_last() {
    let mut t = SymbolTable::new();
    t.insert_symbol(Symbol::new_variable("f".to_string(), None, SymbolScope::Global, None, None));
    t.insert_symbol(Symbol::new_object("f".to_string(), SymbolScope::Global, None, None, None, None));
    let set = t.lookup_symbol("f").unwrap();
    assert_eq!(set.len(), 2);
    assert_eq!(*set[1].kind(), SymbolKind::Object);
    assert!(t.symbol_exists("f"));
    let removed = t.remove_symbol("f").unwrap();
    assert_eq!(removed.len(), 2);
    assert!(!t.symbol_exists("f"));
    assert!(t.remove_symbol("f").is_none());
}

#[test]
fn table_collects_symbols_by_kind_and_clears() {
    let mut t = SymbolTable::new();
    t.insert_symbol(Symbol::new_variable("a".to_string(), Some(InferredKind::integer()), SymbolScope::Global, None, None));
    t.insert_symbol(Symbol::new_variable("b".to_string(), Some(InferredKind::boolean()), SymbolScope::Global, None, None));
    t.enter_scope();
    t.insert_symbol(Symbol::new_variable("c".to_string(), Some(InferredKind::integer()), SymbolScope::Local, None, None));
    let ints = t.collect_symbols_with_kind(Kind::Integer);
    let names: Vec<String> = ints.iter().map(|s| s.name_clone()).collect();
    assert_eq!(names, vec!["a".to_string(), "c".to_string()]);
    assert!(t.current_scope().unwrap().len() == 1);
    assert_eq!(t.global_scope().len(), 2);
    t.clear();
    assert_eq!(t.symbols.len(), 1);
    assert!(t.symbols[0].is_empty());
}

#[test]
fn table_without_scopes_ignores_inserts() {
    let mut t = SymbolTable::new();
    t.exit_scope();
    t.insert_symbol(Symbol::new_variable("a".to_string(), None, SymbolScope::Global, None, None));
    assert!(t.symbols.is_empty());
    assert!(!t.symbol_exists_in_current_scope("a"));
    assert!(t.current_scope().is_none());
}

#[test]
fn unify_laws_on_examples() {
    let i = InferredKind::integer();
    let f = InferredKind::float();
    let s = InferredKind::string();
    let d = InferredKind::dynamic();
    assert_eq!(i.unify(&f).kind, f.unify(&i).kind);
    assert_eq!(i.unify(&i).kind, Kind::Integer);
    assert_eq!(i.unify(&d).kind, Kind::Dynamic);
    assert!(f.is_compatible_with(&i));
    assert!(!i.is_compatible_with(&f));
    assert!(!s.is_compatible_with(&i));
    assert!(d.is_dynamic());
    assert!(i.is_numeric());
    assert!(!s.is_numeric());
}

#[test]
fn inferred_kind_builders() {
    let k = InferredKind::new(Kind::Array, Origin::Expression, None, None)
        .with_origin(Origin::Coerced)
        .with_location(Location::new("f".to_string(), 1, 2))
        .with_span(Span::new(Location::new("f".to_string(), 1, 2), Location::new("f".to_string(), 1, 5)));
    assert_eq!(k.kind, Kind::Array);
    assert_eq!(k.origin, Origin::Coerced);
    assert!(!k.is_null());
    let c = k.duplicate();
    assert_eq!(c.kind, Kind::Array);
    assert_eq!(Kind::Boolean.as_str(), "Boolean");
}

#[test]
fn symbol_usage_tracking() {
    let mut s = Symbol::new("v".to_string(), SymbolKind::Variable, None, SymbolScope::Local, None, None, None, None);
    assert!(!s.is_referenced());
    s.increment_ref_count();
    assert!(s.is_referenced());
    assert!(s.last_usage().is_none());
    s.record_usage(Some(Location::new("m.ms".to_string(), 4, 1)), None);
    assert_eq!(s.usages().len(), 1);
    assert_eq!(s.last_usage().unwrap().0.line, 4);
    s.set_inferred_type(InferredKind::float());
    assert_eq!(s.inferred_type().unwrap().kind, Kind::Float);
    s.set_returns(InferredKind::string());
    assert_eq!(s.returns_kind().unwrap().kind, Kind::String);
    assert_eq!(*s.scope(), SymbolScope::Local);
}

#[test]
fn object_properties() {
    let mut o = Symbol::new_object("ws".to_string(), SymbolScope::Global, None, None, None, None);
    assert!(o.get_property("p").is_none());
    o.insert_property("p".to_string(), Symbol::new_variable("p".to_string(), None, SymbolScope::Local, None, None));
    assert_eq!(o.get_property("p").unwrap().name_clone(), "p");
    assert_eq!(o.inferred_type().unwrap().kind, Kind::Object);
}

fn var(name: &str) -> Symbol {
    Symbol::new_variable(name.to_string(), None, SymbolScope::Local, None, None)
}

#[test]
fn mutable_lookups_change_the_table_in_place() {
    let mut t = SymbolTable::new();
    t.insert_symbol(var("g"));
    t.enter_scope();
    t.insert_symbol(var("x"));
    {
        let set = t.lookup_symbol_mut("x").unwrap();
        assert_eq!(set.len(), 1);
        set[0].increment_ref_count();
    }
    assert!(t.lookup_symbol("x").unwrap()[0].is_referenced());
    assert!(t.lookup_symbol_mut("missing").is_none());
    t.current_scope_mut().unwrap().clear();
    assert!(!t.symbol_exists("x"));
    assert!(t.symbol_exists("g"));
    t.global_scope_mut().clear();
    assert!(!t.symbol_exists("g"));
}

#[test]
fn mutable_property_access_changes_the_symbol() {
    let mut obj = Symbol::new_object("o".to_string(), SymbolScope::Global, None, None, None, None);
    assert!(obj.get_property_mut("p").is_none());
    obj.insert_property("p".to_string(), var("p"));
    obj.get_property_mut("p").unwrap().increment_ref_count();
    assert!(obj.get_property("p").unwrap().is_referenced());
    assert!(obj.get_property_mut("q").is_none());
}

#[test]
fn entering_and_leaving_a_scope_changes_no_lookup() {
    let mut t = SymbolTable::new();
    t.insert_symbol(Symbol::new_variable("x".to_string(), Some(InferredKind::integer()), SymbolScope::Global, None, None));
    t.enter_scope();
    assert_eq!(t.lookup_symbol("x").unwrap()[0].inferred_type().unwrap().kind, Kind::Integer);
    assert!(t.lookup_symbol("y").is_none());
    t.exit_scope();
    assert_eq!(t.lookup_symbol("x").unwrap().len(), 1);
    assert!(t.lookup_symbol("y").is_none());
    assert!(t.is_global_scope());
}

#[test]
fn scope_changes_are_undone_on_exit() {
    let mut t = SymbolTable::new();
    t.insert_symbol(Symbol::new_variable("x".to_string(), Some(InferredKind::integer()), SymbolScope::Global, None, None));
    t.enter_scope();
    t.insert_symbol(Symbol::new_variable("x".to_string(), Some(InferredKind::string()), SymbolScope::Local, None, None));
    t.insert_symbol(Symbol::new_variable("y".to_string(), None, SymbolScope::Local, None, None));
    assert_eq!(t.lookup_symbol("x").unwrap().len(), 1);
    assert_eq!(t.lookup_symbol("x").unwrap()[0].inferred_type().unwrap().kind, Kind::String);
    assert!(t.remove_symbol("y").is_some());
    t.exit_scope();
    assert_eq!(t.lookup_symbol("x").unwrap().len(), 1);
    assert_eq!(t.lookup_symbol("x").unwrap()[0].inferred_type().unwrap().kind, Kind::Integer);
    assert!(t.lookup_symbol("y").is_none());
}
