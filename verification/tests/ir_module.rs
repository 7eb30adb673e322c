use mainstage_core::ast::kind::{AstNodeKind, BinaryOperator};
use mainstage_core::ast::node::AstNode;
use mainstage_core::ir::irmod::IrModule;
use mainstage_core::ir::irop::{IROp, Value};
use mainstage_core::ir::opt::{compute_binop, constant_fold, remove_noop_jumps_and_reindex, optimize};
use mainstage_core::ir::scope::{Scope, Scopes};
use mainstage_core::ir::slot::Slot;

fn node(kind: AstNodeKind) -> AstNode {
    AstNode::new(0, kind, None, None)
}

fn ops_text(m: &IrModule) -> Vec<String> {
    m.get_ops().iter().map(|o| format!("{:?}", o)).collect()
}

fn branches_land_on_labels(ops: &[IROp]) -> bool {
    ops.iter().all(|o| match o {
        IROp::Jump { target } | IROp::BrTrue { target, .. } | IROp::BrFalse { target, .. } =>
            *target < ops.len() && matches!(ops[*target], IROp::Label { .. }),
        _ => true,
    })
}

#[test]
fn lowering_a_workspace_ends_with_halt_and_lands_branches_on_labels() {
    let cond = node(AstNodeKind::Bool { value: true });
    let body = node(AstNodeKind::Block { statements: vec![node(AstNodeKind::Integer { value: 1 })] });
    let iff = node(AstNodeKind::If { condition: Box::new(cond), body: Box::new(body) });
    let loop_cond = node(AstNodeKind::Bool { value: false });
    let wh = node(AstNodeKind::While { condition: Box::new(loop_cond), body: Box::new(node(AstNodeKind::Block { statements: vec![] })) });
    let ws = node(AstNodeKind::Workspace { name: "main".to_string(), body: Box::new(node(AstNodeKind::Block { statements: vec![iff, wh] })) });
    let script = node(AstNodeKind::Script { body: vec![ws] });
    let mut m = IrModule::new();
    m.lower_from_ast(&script, "main");
    assert!(branches_land_on_labels(m.get_ops()));
    assert!(!m.is_empty());
    assert!(m.len() > 3);
}

#[test]
fn lowering_arithmetic_uses_registers() {
    let e = node(AstNodeKind::BinaryOp {
        op: BinaryOperator::Add,
        left: Box::new(node(AstNodeKind::Integer { value: 2 })),
        right: Box::new(node(AstNodeKind::Integer { value: 3 })),
    });
    let ws = node(AstNodeKind::Workspace { name: "main".to_string(), body: Box::new(node(AstNodeKind::Block { statements: vec![e] })) });
    let script = node(AstNodeKind::Script { body: vec![ws] });
    let mut m = IrModule::new();
    m.lower_from_ast(&script, "main");
    let text = ops_text(&m);
    assert!(text.iter().any(|t| t.starts_with("Add {")), "{:?}", text);
    assert!(text.iter().any(|t| t == "LConst { dest: 0, value: Int(2) }" || t.starts_with("LConst")), "{:?}", text);
}

#[test]
fn module_api_basics() {
    let mut m = IrModule::new();
    assert_eq!(m.alloc_reg(), 0);
    assert_eq!(m.alloc_reg(), 1);
    m.emit_op(IROp::Label { name: "start".to_string() });
    m.emit_op(IROp::Halt);
    assert_eq!(m.len(), 2);
    assert!(matches!(m.peek_op(), Some(IROp::Halt)));
    assert!(matches!(m.pop_op(), Some(IROp::Halt)));
    assert_eq!(m.len(), 1);
    let f = m.declare_function("build");
    let o = m.declare_object("proj");
    assert_eq!(m.find_function_id_by_name("build"), Some(f));
    assert_eq!(m.find_object_id_by_name("proj"), Some(o));
    assert_eq!(m.find_function_id_by_name("nope"), None);
    assert_ne!(f, o);
}

#[test]
fn unresolved_branches_are_patched_to_their_labels() {
    let mut m = IrModule::new();
    m.emit_op(IROp::Jump { target: 0 });
    m.record_unresolved_branch(0, "end".to_string());
    m.emit_op(IROp::Halt);
    m.emit_op(IROp::Label { name: "end".to_string() });
    let fallback = m.patch_unresolved_branches();
    assert_eq!(fallback, 0);
    assert!(matches!(m.get_ops()[0], IROp::Jump { target: 2 }));
}

#[test]
fn compute_binop_folds_integers_strings_and_logic() {
    let add = IROp::Add { dest: 0, src1: 1, src2: 2 };
    assert!(matches!(compute_binop(&add, &Value::Int(2), &Value::Int(40)), Some(Value::Int(42))));
    assert!(compute_binop(&add, &Value::Int(i64::MAX), &Value::Int(1)).is_none());
    match compute_binop(&add, &Value::Str("ab".to_string()), &Value::Str("cd".to_string())) {
        Some(Value::Str(s)) => assert_eq!(s, "abcd"),
        other => panic!("{:?}", other),
    }
    let md = IROp::Mod { dest: 0, src1: 1, src2: 2 };
    assert!(matches!(compute_binop(&md, &Value::Int(7), &Value::Int(3)), Some(Value::Int(1))));
    assert!(compute_binop(&md, &Value::Int(7), &Value::Int(0)).is_none());
    let div = IROp::Div { dest: 0, src1: 1, src2: 2 };
    assert!(matches!(compute_binop(&div, &Value::Int(-7), &Value::Int(2)), Some(Value::Int(-3))));
    let eq = IROp::Eq { dest: 0, src1: 1, src2: 2 };
    let arr1 = Value::Array(vec![Value::Int(1), Value::Str("x".to_string())]);
    let arr2 = Value::Array(vec![Value::Int(1), Value::Str("x".to_string())]);
    assert!(matches!(compute_binop(&eq, &arr1, &arr2), Some(Value::Bool(true))));
    assert!(matches!(compute_binop(&eq, &Value::Int(1), &Value::Bool(true)), Some(Value::Bool(false))));
    let nan = f64::NAN.to_bits();
    assert!(matches!(compute_binop(&eq, &Value::Float(nan), &Value::Float(nan)), Some(Value::Bool(false))));
    assert!(matches!(compute_binop(&eq, &Value::Float(0.0f64.to_bits()), &Value::Float((-0.0f64).to_bits())), Some(Value::Bool(true))));
    let lt = IROp::Lt { dest: 0, src1: 1, src2: 2 };
    assert!(matches!(compute_binop(&lt, &Value::Str("a".to_string()), &Value::Str("b".to_string())), Some(Value::Bool(true))));
    assert!(compute_binop(&lt, &Value::Float(1), &Value::Float(2)).is_none());
    let and = IROp::And { dest: 0, src1: 1, src2: 2 };
    assert!(matches!(compute_binop(&and, &Value::Bool(true), &Value::Bool(false)), Some(Value::Bool(false))));
    assert!(compute_binop(&IROp::Halt, &Value::Int(1), &Value::Int(2)).is_none());
}

#[test]
fn constant_fold_folds_through_locals() {
    let mut m = IrModule::new();
    m.emit_op(IROp::LConst { dest: 0, value: Value::Int(5) });
    m.emit_op(IROp::SLocal { src: 0, local_index: 3 });
    m.emit_op(IROp::LLocal { dest: 1, local_index: 3 });
    m.emit_op(IROp::LConst { dest: 2, value: Value::Int(6) });
    m.emit_op(IROp::Mul { dest: 3, src1: 1, src2: 2 });
    m.emit_op(IROp::Not { dest: 4, src: 3 });
    constant_fold(&mut m);
    let text = ops_text(&m);
    assert_eq!(text[2], "LConst { dest: 1, value: Int(5) }");
    assert_eq!(text[4], "LConst { dest: 3, value: Int(30) }");
    assert_eq!(text[5], "Not { dest: 4, src: 3 }");
}

#[test]
fn constant_fold_forgets_overwritten_registers() {
    let mut m = IrModule::new();
    m.emit_op(IROp::LConst { dest: 0, value: Value::Bool(true) });
    m.emit_op(IROp::Inc { dest: 0 });
    m.emit_op(IROp::Not { dest: 1, src: 0 });
    m.emit_op(IROp::LConst { dest: 2, value: Value::Bool(true) });
    m.emit_op(IROp::Not { dest: 3, src: 2 });
    constant_fold(&mut m);
    let text = ops_text(&m);
    assert_eq!(text[2], "Not { dest: 1, src: 0 }");
    assert_eq!(text[4], "LConst { dest: 3, value: Bool(false) }");
}

#[test]
fn noop_jumps_are_removed_and_targets_moved() {
    let mut m = IrModule::new();
    m.emit_op(IROp::Jump { target: 1 });
    m.emit_op(IROp::Label { name: "a".to_string() });
    m.emit_op(IROp::BrTrue { cond: 0, target: 3 });
    m.emit_op(IROp::Label { name: "b".to_string() });
    m.emit_op(IROp::Jump { target: 3 });
    m.emit_op(IROp::CallLabel { dest: 1, label_index: 1, args: vec![2] });
    remove_noop_jumps_and_reindex(&mut m);
    let text = ops_text(&m);
    assert_eq!(text, vec![
        "Label { name: \"a\" }".to_string(),
        "Label { name: \"b\" }".to_string(),
        "Jump { target: 1 }".to_string(),
        "CallLabel { dest: 1, label_index: 0, args: [2] }".to_string(),
    ]);
}

#[test]
fn optimize_folds_then_drops_noop_jumps() {
    let mut m = IrModule::new();
    m.emit_op(IROp::LConst { dest: 0, value: Value::Int(1) });
    m.emit_op(IROp::LConst { dest: 1, value: Value::Int(2) });
    m.emit_op(IROp::Add { dest: 2, src1: 0, src2: 1 });
    m.emit_op(IROp::Jump { target: 4 });
    m.emit_op(IROp::Ret { src: 2 });
    optimize(&mut m);
    let text = ops_text(&m);
    assert_eq!(text.len(), 4);
    assert_eq!(text[2], "LConst { dest: 2, value: Int(3) }");
    assert_eq!(text[3], "Ret { src: 2 }");
}

#[test]
fn value_copies_and_equality() {
    let v = Value::Array(vec![Value::Symbol("s".to_string()), Value::Null, Value::Array(vec![Value::Bool(true)])]);
    let c = v.duplicate();
    assert!(v.equals(&c));
    assert_eq!(format!("{:?}", c), format!("{:?}", v));
    assert!(!Value::Array(vec![]).equals(&Value::Array(vec![Value::Null])));
    assert!(!Value::Str("a".to_string()).equals(&Value::Symbol("a".to_string())));
}

#[test]
fn scopes_define_and_resolve_through_parents() {
    let mut sc = Scopes::new();
    let root = Scope::new_root(&mut sc, "root".to_string());
    let child = Scope::child(&mut sc, root, "child".to_string());
    let grand = Scope::child(&mut sc, child, "grand".to_string());
    assert_eq!(Scope::define_local(&mut sc, root, "x".to_string()), Slot::Local(0));
    assert_eq!(Scope::define_local(&mut sc, root, "y".to_string()), Slot::Local(1));
    assert_eq!(Scope::allocate_temp(&mut sc, child), Slot::Temp(0));
    assert_eq!(Scope::allocate_temp(&mut sc, child), Slot::Temp(1));
    assert_eq!(Scope::resolve(&mut sc, root, "y"), Some(Slot::Local(1)));
    assert_eq!(Scope::resolve(&mut sc, grand, "x"), Some(Slot::Captured(0)));
    assert_eq!(sc.get(child).captured.len(), 1);
    assert_eq!(Scope::resolve(&mut sc, grand, "x"), Some(Slot::Captured(0)));
    assert_eq!(sc.get(grand).captured.len(), 1);
    assert_eq!(Scope::resolve(&mut sc, grand, "y"), Some(Slot::Captured(1)));
    assert_eq!(Scope::resolve(&mut sc, grand, "zzz"), None);
    assert_eq!(sc.get(grand).captured.len(), 2);
    assert_eq!(sc.get(grand).name, "grand");
    assert_eq!(sc.get(grand).parent, Some(child));
}

#[test]
fn redefining_a_local_hides_the_old_one() {
    let mut sc = Scopes::new();
    let root = Scope::new_root(&mut sc, "r".to_string());
    Scope::define_local(&mut sc, root, "x".to_string());
    Scope::define_local(&mut sc, root, "x".to_string());
    assert_eq!(Scope::resolve(&mut sc, root, "x"), Some(Slot::Local(1)));
}

#[test]
fn lowering_an_if_gives_the_exact_instructions() {
    let cond = node(AstNodeKind::Bool { value: true });
    let body = node(AstNodeKind::Block { statements: vec![node(AstNodeKind::Integer { value: 1 })] });
    let iff = node(AstNodeKind::If { condition: Box::new(cond), body: Box::new(body) });
    let ws = node(AstNodeKind::Workspace { name: "main".to_string(), body: Box::new(node(AstNodeKind::Block { statements: vec![iff] })) });
    let script = node(AstNodeKind::Script { body: vec![ws] });
    let mut m = IrModule::new();
    m.lower_from_ast(&script, "main");
    assert_eq!(
        ops_text(&m),
        vec![
            "LConst { dest: 0, value: Bool(true) }".to_string(),
            "BrFalse { cond: 0, target: 3 }".to_string(),
            "LConst { dest: 1, value: Int(1) }".to_string(),
            "Label { name: \"L_internal_0\" }".to_string(),
        ]
    );
}

#[test]
fn walking_an_assignment_binds_a_local() {
    let assign = node(AstNodeKind::Assignment {
        target: Box::new(node(AstNodeKind::Identifier { name: "x".to_string() })),
        value: Box::new(node(AstNodeKind::Integer { value: 4 })),
    });
    let read = node(AstNodeKind::Identifier { name: "x".to_string() });
    let mut m = IrModule::new();
    assert_eq!(m.walk_node(&assign), Some(0));
    assert_eq!(m.walk_node(&read), Some(1));
    assert_eq!(
        ops_text(&m),
        vec![
            "LConst { dest: 0, value: Int(4) }".to_string(),
            "SLocal { src: 0, local_index: 0 }".to_string(),
            "LLocal { dest: 1, local_index: 0 }".to_string(),
        ]
    );
}

#[test]
fn unpatched_branches_fall_back_to_the_next_label() {
    let mut m = IrModule::new();
    m.emit_op(IROp::Jump { target: 0 });
    m.emit_op(IROp::Halt);
    m.emit_op(IROp::Label { name: "after".to_string() });
    m.record_unresolved_branch(0, "missing".to_string());
    m.record_unresolved_branch(7, "missing".to_string());
    assert_eq!(m.patch_unresolved_branches(), 1);
    assert!(matches!(m.get_ops()[0], IROp::Jump { target: 2 }));
    assert_eq!(m.patch_unresolved_branches(), 0);
}

#[test]
fn branches_not_recorded_or_resolved_to_zero_keep_their_target() {
    let mut m = IrModule::new();
    m.emit_op(IROp::Label { name: "top".to_string() });
    m.emit_op(IROp::Jump { target: 0 });
    m.emit_op(IROp::Jump { target: 0 });
    m.emit_op(IROp::Label { name: "next".to_string() });
    m.record_unresolved_branch(1, "top".to_string());
    assert_eq!(m.patch_unresolved_branches(), 0);
    assert!(matches!(m.get_ops()[1], IROp::Jump { target: 0 }));
    assert!(matches!(m.get_ops()[2], IROp::Jump { target: 0 }));
}
