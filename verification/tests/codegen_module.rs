use mainstage_core::codegen::ir::{IRConst, IRFunction, ModuleIR, BasicBlock, IROp, IROpKind};

fn func(name: &str) -> IRFunction {
    IRFunction {
        name: name.to_string(),
        params: vec![],
        blocks: vec![BasicBlock { label: 0, ops: vec![IROp { kind: IROpKind::Return, span: None }], next: vec![] }],
    }
}

#[test]
fn constants_are_interned_once() {
    let mut m = ModuleIR::new();
    assert_eq!(m.intern_const(IRConst::Int(3)), 0);
    assert_eq!(m.intern_const(IRConst::Str("a".to_string())), 1);
    assert_eq!(m.intern_const(IRConst::Int(3)), 0);
    assert_eq!(m.intern_const(IRConst::Array(vec![IRConst::Null, IRConst::Bool(true)])), 2);
    assert_eq!(m.intern_const(IRConst::Array(vec![IRConst::Null, IRConst::Bool(true)])), 2);
    assert_eq!(m.intern_const(IRConst::Ident("a".to_string())), 3);
    assert_eq!(m.intern_const(IRConst::Command("a".to_string())), 4);
    assert_eq!(m.const_pool.len(), 5);
}

#[test]
fn globals_are_interned_once() {
    let mut m = ModuleIR::new();
    assert_eq!(m.intern_global("x".to_string()), 0);
    assert_eq!(m.intern_global("y".to_string()), 1);
    assert_eq!(m.intern_global("x".to_string()), 0);
    assert_eq!(m.globals, vec!["x".to_string(), "y".to_string()]);
}

#[test]
fn functions_are_indexed_by_plain_name() {
    let mut m = ModuleIR::new();
    assert_eq!(m.add_function(func("stage:init:build")), 0);
    assert_eq!(m.add_function(func("task:init:lint")), 1);
    assert_eq!(m.add_function(func("helper")), 2);
    assert_eq!(m.get_plain_func("build"), Some(0));
    assert_eq!(m.get_plain_func("lint"), Some(1));
    assert_eq!(m.get_plain_func("helper"), None);
    assert_eq!(m.add_function(func("stage:init:build")), 3);
    assert_eq!(m.get_plain_func("build"), Some(3));
    assert_eq!(m.functions.len(), 4);
}

#[test]
fn constant_equality_is_structural() {
    assert!(IRConst::Array(vec![IRConst::Int(1)]).equals(&IRConst::Array(vec![IRConst::Int(1)])));
    assert!(!IRConst::Array(vec![IRConst::Int(1)]).equals(&IRConst::Array(vec![IRConst::Int(2)])));
    assert!(!IRConst::Str("a".to_string()).equals(&IRConst::Ident("a".to_string())));
    assert!(IRConst::Null.equals(&IRConst::Null));
}
