use mainstage_core::ir::op::Op;
use mainstage_core::ir::slot::Slot;
use mainstage_core::ir::value::OpValue;
use mainstage_core::ir::optimization::pass::Pass;
use mainstage_core::ir::optimization::passes::constant_folding::ConstantFolding;
use mainstage_core::ir::optimization::passes::sccp::SparseConditionalConstantProp;
use mainstage_core::ir::optimization::passes::const_prop::ConstantPropagation;
use mainstage_core::ir::optimization::passes::copy_prop::CopyPropagation;
use mainstage_core::ir::optimization::passes::cse::CommonSubexpressionElimination;
use mainstage_core::ir::optimization::passes::dce::DeadCodeElim;
use mainstage_core::ir::optimization::pipeline::{Pipeline, optimize_ops_default};
use mainstage_core::ir::meta::{analyze_meta, generate_program_from_ops, indices_fit};

fn t(i: usize) -> Slot { Slot::Temp(i) }
fn l(i: usize) -> Slot { Slot::Local(i) }

fn konst(target: Slot, v: i64) -> Op { Op::LoadConst { target, value: OpValue::Int(v) } }

#[test]
fn constant_folding_folds_addition() {
    let mut ops = vec![konst(t(0), 2), konst(t(1), 3), Op::Add { lhs: t(0), rhs: t(1), target: t(2) }, Op::Say { message: t(2) }];
    let changed = ConstantFolding::new().fold(&mut ops);
    assert!(changed);
    assert_eq!(ops.len(), 4);
    assert!(matches!(&ops[2], Op::LoadConst { target: Slot::Temp(2), value: OpValue::Int(5) }));
    assert!(matches!(&ops[3], Op::Say { message: Slot::Temp(2) }));
}

#[test]
fn constant_folding_leaves_overflow_and_division_by_zero() {
    let mut ops = vec![konst(t(0), i64::MAX), konst(t(1), 1), Op::Add { lhs: t(0), rhs: t(1), target: t(2) },
        konst(t(3), 0), Op::Div { lhs: t(1), rhs: t(3), target: t(4) }];
    ConstantFolding::new().fold(&mut ops);
    assert!(matches!(&ops[2], Op::Add { .. }));
    assert!(matches!(&ops[4], Op::Div { .. }));
}

#[test]
fn constant_folding_compares_strings() {
    let mut ops = vec![
        Op::LoadConst { target: t(0), value: OpValue::Str("abc".to_string()) },
        Op::LoadConst { target: t(1), value: OpValue::Str("abd".to_string()) },
        Op::Lt { lhs: t(0), rhs: t(1), target: t(2) },
        Op::Eq { lhs: t(0), rhs: t(1), target: t(3) },
    ];
    ConstantFolding::new().fold(&mut ops);
    assert!(matches!(&ops[2], Op::LoadConst { target: Slot::Temp(2), value: OpValue::Bool(true) }));
    assert!(matches!(&ops[3], Op::LoadConst { target: Slot::Temp(3), value: OpValue::Bool(false) }));
}

#[test]
fn constant_folding_without_constants_changes_nothing() {
    let mut ops = vec![Op::Add { lhs: t(0), rhs: t(1), target: t(2) }];
    assert!(!ConstantFolding::new().fold(&mut ops));
}

#[test]
fn sccp_folds_through_known_values() {
    let mut ops = vec![konst(t(0), 4), konst(t(1), 6), Op::Mul { lhs: t(0), rhs: t(1), target: t(2) }, Op::Say { message: t(2) }];
    let mut p = SparseConditionalConstantProp::new();
    assert!(p.propagate(&mut ops));
    assert!(matches!(&ops[2], Op::LoadConst { target: Slot::Temp(2), value: OpValue::Int(24) }));
}

#[test]
fn constant_propagation_propagates_a_local_stored_once() {
    let mut ops = vec![konst(t(0), 7), Op::StoreLocal { source: t(0), target: l(0) }, Op::LoadLocal { target: t(1), source: l(0) }];
    let mut p = ConstantPropagation::new();
    assert!(p.run(&mut ops));
    assert_eq!(ops.len(), 3);
    assert!(matches!(&ops[2], Op::LoadConst { target: Slot::Temp(1), value: OpValue::Int(7) }));
}

#[test]
fn constant_propagation_leaves_a_local_stored_twice() {
    let mut ops = vec![konst(t(0), 1), Op::StoreLocal { source: t(0), target: l(0) },
        konst(t(1), 2), Op::StoreLocal { source: t(1), target: l(0) },
        Op::LoadLocal { target: t(2), source: l(0) }];
    let mut p = ConstantPropagation::new();
    assert!(!p.run(&mut ops));
    assert!(matches!(&ops[4], Op::LoadLocal { .. }));
}

#[test]
fn constant_propagation_forgets_at_labels() {
    let mut ops = vec![konst(t(0), 1), Op::StoreLocal { source: t(0), target: l(0) },
        Op::Label { name: "x".to_string() }, Op::LoadLocal { target: t(1), source: l(0) }];
    let mut p = ConstantPropagation::new();
    assert!(!p.run(&mut ops));
}

#[test]
fn sccp_run_keeps_a_loop_carried_local() {
    let mut ops = vec![konst(t(0), 0), Op::StoreLocal { source: t(0), target: l(0) },
        Op::Label { name: "loop".to_string() }, Op::LoadLocal { target: t(1), source: l(0) },
        konst(t(2), 1), Op::Add { lhs: t(1), rhs: t(2), target: t(3) },
        Op::StoreLocal { source: t(3), target: l(0) }, Op::Jump { target: "loop".to_string() }];
    let mut p = SparseConditionalConstantProp::new();
    assert!(!p.run(&mut ops));
    assert!(matches!(&ops[3], Op::LoadLocal { .. }));
    assert!(matches!(&ops[5], Op::Add { .. }));
}

#[test]
fn sccp_run_folds_a_product_and_leaves_division_by_zero() {
    let mut ops = vec![konst(t(0), 2), konst(t(1), 3), Op::Mul { lhs: t(0), rhs: t(1), target: t(2) }];
    let mut p = SparseConditionalConstantProp::new();
    assert!(p.run(&mut ops));
    assert!(matches!(&ops[2], Op::LoadConst { target: Slot::Temp(2), value: OpValue::Int(6) }));
    let mut ops = vec![konst(t(0), 1), konst(t(1), 0), Op::Div { lhs: t(0), rhs: t(1), target: t(2) }];
    assert!(!p.run(&mut ops));
    assert!(matches!(&ops[2], Op::Div { .. }));
}

#[test]
fn constant_folding_run_folds_and_leaves_reassigned_locals() {
    let mut ops = vec![konst(t(0), 2), konst(t(1), 3), Op::Add { lhs: t(0), rhs: t(1), target: t(2) }];
    let mut p = ConstantFolding::new();
    assert!(p.run(&mut ops));
    assert!(matches!(&ops[2], Op::LoadConst { target: Slot::Temp(2), value: OpValue::Int(5) }));
    let mut ops = vec![konst(t(0), 1), Op::StoreLocal { source: t(0), target: l(0) },
        konst(t(1), 2), Op::StoreLocal { source: t(1), target: l(0) }, Op::LoadLocal { target: t(2), source: l(0) }];
    assert!(!p.run(&mut ops));
}

#[test]
fn copy_propagation_run_replaces_uses_by_the_source() {
    let mut ops = vec![Op::LoadLocal { target: t(1), source: l(0) }, Op::Add { lhs: t(1), rhs: t(1), target: t(2) }];
    let mut p = CopyPropagation::new();
    assert!(p.run(&mut ops));
    assert!(matches!(&ops[1], Op::Add { lhs: Slot::Local(0), rhs: Slot::Local(0), target: Slot::Temp(2) }));
}

#[test]
fn dce_drops_unread_pure_instructions() {
    let mut ops = vec![konst(t(0), 1), konst(t(1), 2), Op::Say { message: t(1) }];
    let mut p = DeadCodeElim::new();
    assert!(p.eliminate(&mut ops));
    assert_eq!(ops.len(), 2);
    assert!(matches!(&ops[0], Op::LoadConst { target: Slot::Temp(1), .. }));
    assert_eq!(p.name(), "dce");
}

#[test]
fn dce_keeps_effects() {
    let mut ops = vec![Op::Say { message: t(0) }, Op::Halt];
    assert!(!DeadCodeElim::new().eliminate(&mut ops));
    assert_eq!(ops.len(), 2);
}

#[test]
fn cse_reuses_an_earlier_computation() {
    let mut ops = vec![
        Op::Add { lhs: l(0), rhs: l(1), target: t(0) },
        Op::Add { lhs: l(0), rhs: l(1), target: t(1) },
        Op::Say { message: t(1) },
    ];
    let mut p = CommonSubexpressionElimination::new();
    assert!(p.eliminate(&mut ops));
    assert_eq!(ops.len(), 2);
    assert!(matches!(&ops[1], Op::Say { message: Slot::Temp(0) }));
}

#[test]
fn copy_propagation_reads_the_source() {
    let mut ops = vec![
        konst(t(0), 7),
        Op::LoadLocal { target: t(1), source: t(0) },
        Op::Say { message: t(1) },
    ];
    let mut p = CopyPropagation::new();
    p.propagate(&mut ops);
    assert!(matches!(&ops[2], Op::Say { message: Slot::Temp(0) }));
}

#[test]
fn pipeline_never_grows_the_program() {
    let mut ops = vec![konst(t(0), 2), konst(t(1), 3), Op::Add { lhs: t(0), rhs: t(1), target: t(2) }, Op::Say { message: t(2) }];
    let before = ops.len();
    let mut p = Pipeline::with_default_passes();
    let rounds = p.run(&mut ops);
    assert!(rounds <= 5);
    assert!(ops.len() <= before);
    // the first round folds and removes the dead loads, the second changes nothing
    assert_eq!(rounds, 2);
    assert_eq!(ops.len(), 2);
    assert!(matches!(&ops[0], Op::LoadConst { target: Slot::Temp(2), value: OpValue::Int(5) }));
    let mut stopped = Pipeline::with_default_passes();
    stopped.max_iterations = 0;
    let mut kept = vec![konst(t(0), 2), konst(t(1), 3), Op::Add { lhs: t(0), rhs: t(1), target: t(2) }];
    assert_eq!(stopped.run(&mut kept), 0);
    assert_eq!(kept.len(), 3);
    let mut empty = Pipeline::new();
    let mut same = vec![Op::Halt];
    empty.run(&mut same);
    assert_eq!(same.len(), 1);
}

#[test]
fn default_optimization_keeps_effects() {
    let mut ops = vec![konst(t(0), 2), konst(t(1), 3), Op::Add { lhs: t(0), rhs: t(1), target: t(2) }, Op::Say { message: t(2) }];
    optimize_ops_default(&mut ops);
    assert!(ops.iter().any(|o| matches!(o, Op::Say { .. })));
    assert_eq!(ops.len(), 2);
    assert!(matches!(&ops[0], Op::LoadConst { target: Slot::Temp(2), value: OpValue::Int(5) }));
    assert!(matches!(&ops[1], Op::Say { message: Slot::Temp(2) }));
}

#[test]
fn meta_counts_highest_indices() {
    let ops = vec![konst(t(3), 1), Op::StoreLocal { source: t(3), target: l(5) }, Op::Say { message: Slot::Captured(9) }];
    let m = analyze_meta(&ops);
    assert_eq!(m.max_temp, 4);
    assert_eq!(m.max_local, 6);
    let e = analyze_meta(&[]);
    assert_eq!((e.max_temp, e.max_local), (1, 1));
}

#[test]
fn indices_fit_refuses_the_largest_index() {
    assert!(indices_fit(&[konst(t(1), 1)]));
    assert!(!indices_fit(&[konst(t(usize::MAX), 1)]));
}

#[test]
fn program_from_ops_measures_the_optimized_code() {
    let ops = vec![konst(t(0), 2), Op::Say { message: t(0) }, Op::Halt];
    let p = generate_program_from_ops(ops).unwrap();
    assert!(p.ops.len() <= 3);
    assert!(p.meta.max_temp >= 1);
    assert!(generate_program_from_ops(vec![Op::Say { message: t(usize::MAX) }]).is_none());
}

#[test]
fn op_queries() {
    assert!(Op::Halt.is_terminator());
    assert!(Op::Return { value: None }.is_terminator());
    assert!(!Op::Say { message: t(0) }.is_terminator());
    assert_eq!(konst(t(2), 1).defines_slot(), Some(t(2)));
    assert!(konst(t(2), 1).is_pure());
    assert_eq!(Op::Call { target: t(0), func: t(1), args: vec![t(2), t(3)] }.used_slots(), vec![t(1), t(2), t(3)]);
    assert_eq!(Slot::Local(7).index(), 7);
    assert_eq!(Slot::Temp(3).to_string(), "temp[3]");
}

#[test]
fn not_equal_folds_to_the_negation_of_equal() {
    let mut eq = vec![konst(t(0), 4), konst(t(1), 4), Op::Eq { lhs: t(0), rhs: t(1), target: t(2) }];
    let mut ne = vec![konst(t(0), 4), konst(t(1), 4), Op::Ne { lhs: t(0), rhs: t(1), target: t(2) }];
    assert!(ConstantFolding::new().fold(&mut eq));
    assert!(ConstantFolding::new().fold(&mut ne));
    assert!(matches!(&eq[2], Op::LoadConst { target: Slot::Temp(2), value: OpValue::Bool(true) }));
    assert!(matches!(&ne[2], Op::LoadConst { target: Slot::Temp(2), value: OpValue::Bool(false) }));
    let mut sne = vec![konst(t(0), 4), konst(t(1), 5), Op::Ne { lhs: t(0), rhs: t(1), target: t(2) }];
    assert!(SparseConditionalConstantProp::new().run(&mut sne));
    assert!(matches!(&sne[2], Op::LoadConst { target: Slot::Temp(2), value: OpValue::Bool(true) }));
}

#[test]
fn constant_arrays_fold_their_length_and_elements() {
    let arr = OpValue::Array(vec![OpValue::Int(10), OpValue::Str("x".to_string()), OpValue::Int(30)]);
    let mut ops = vec![
        Op::LoadConst { target: t(0), value: arr.clone() },
        Op::Length { target: t(1), array: t(0) },
        konst(t(2), 1),
        Op::IGet { target: t(3), source: t(0), index: t(2) },
        konst(t(4), 3),
        Op::IGet { target: t(5), source: t(0), index: t(4) },
    ];
    assert!(ConstantFolding::new().fold(&mut ops));
    assert!(matches!(&ops[1], Op::LoadConst { target: Slot::Temp(1), value: OpValue::Int(3) }));
    match &ops[3] {
        Op::LoadConst { target: Slot::Temp(3), value: OpValue::Str(s) } => assert_eq!(s, "x"),
        other => panic!("{:?}", other),
    }
    // out of range: left as it is
    assert!(matches!(&ops[5], Op::IGet { target: Slot::Temp(5), .. }));
    let mut sops = vec![Op::LoadConst { target: t(0), value: arr }, Op::Length { target: t(1), array: t(0) }];
    assert!(SparseConditionalConstantProp::new().run(&mut sops));
    assert!(matches!(&sops[1], Op::LoadConst { target: Slot::Temp(1), value: OpValue::Int(3) }));
}
