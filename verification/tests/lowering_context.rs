use mainstage_core::codegen::context::LowerCtx;
use mainstage_core::ast::kind::AstNodeKind;
use mainstage_core::ast::node::AstNode;
use mainstage_core::ir::op::Op;
use mainstage_core::ir::slot::Slot;

fn node(kind: AstNodeKind) -> AstNode {
    AstNode::new(0, kind, None, None)
}

#[test]
fn locals_are_found_in_the_innermost_frame() {
    let mut c = LowerCtx::new();
    assert_eq!(c.ensure_local("x"), Slot::Local(0));
    assert_eq!(c.ensure_local("x"), Slot::Local(0));
    c.push_frame(false);
    assert_eq!(c.lookup_local("x"), Some(Slot::Local(0)));
    assert_eq!(c.ensure_local("y"), Slot::Local(1));
    c.pop_frame();
    assert_eq!(c.lookup_local("y"), None);
    assert_eq!(c.temp(), Slot::Temp(0));
    assert_eq!(c.temp(), Slot::Temp(1));
}

#[test]
fn resetting_frames_restore_the_local_counter() {
    let mut c = LowerCtx::new();
    c.ensure_local("a");
    c.ensure_local("b");
    c.push_frame(true);
    assert_eq!(c.ensure_local("c"), Slot::Local(0));
    c.pop_frame();
    assert_eq!(c.ensure_local("d"), Slot::Local(2));
}

#[test]
fn members_and_calls_are_noted() {
    let mut c = LowerCtx::new();
    assert!(!c.is_member_initialized("s", "out"));
    c.note_member_init("s", "out");
    c.note_member_init("s", "x");
    assert!(c.is_member_initialized("s", "out"));
    assert!(c.is_member_initialized("s", "x"));
    assert!(!c.is_member_initialized("t", "out"));
    assert!(!c.has_called_scope("s"));
    c.note_scope_call("s");
    assert!(c.has_called_scope("s"));
}

#[test]
fn scope_regions_give_parameters_slots_and_return_out() {
    let mut c = LowerCtx::new();
    let args = node(AstNodeKind::Arguments { args: vec![
        node(AstNodeKind::Identifier { name: "p".to_string() }),
        node(AstNodeKind::Integer { value: 1 }),
        node(AstNodeKind::Identifier { name: "q".to_string() }),
    ] });
    let stage = node(AstNodeKind::Stage { name: "build".to_string(), args: Some(Box::new(args)), body: Box::new(node(AstNodeKind::Null)) });
    c.record_scope(&stage);
    c.ensure_local("outer");
    c.begin_scope_region("build");
    assert_eq!(c.lookup_local("p"), Some(Slot::Local(0)));
    assert_eq!(c.lookup_local("q"), Some(Slot::Local(1)));
    let out = c.ensure_local("out");
    c.note_member_init("build", "out");
    c.end_scope_region("build");
    assert_eq!(out, Slot::Local(2));
    assert_eq!(c.lookup_local("p"), None);
    assert_eq!(c.ensure_local("next"), Slot::Local(1));
    c.begin_scope_region("other");
    c.end_scope_region("other");
    c.emit(Op::Halt);
}

#[test]
fn recording_a_scope_twice_keeps_the_first_parameters() {
    let mut c = LowerCtx::new();
    c.insert_scope("w", Some(vec!["a".to_string()]));
    c.insert_scope("w", Some(vec!["b".to_string(), "c".to_string()]));
    c.begin_scope_region("w");
    assert_eq!(c.lookup_local("a"), Some(Slot::Local(0)));
    assert_eq!(c.lookup_local("b"), None);
    let ws = node(AstNodeKind::Workspace { name: "main".to_string(), body: Box::new(node(AstNodeKind::Null)) });
    c.record_scope(&ws);
    c.allocate_param_slots("main");
    assert_eq!(c.lookup_local("main"), None);
}
