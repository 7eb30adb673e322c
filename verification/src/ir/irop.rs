//! Instructions of the register-based IR produced from the syntax tree, and their
//! constant values.
use vstd::prelude::*;

verus! {

/// A constant of the register-based IR. Floats are carried by their IEEE-754 bits.
#[derive(Debug)]
pub enum Value {
    Int(i64),
    Float(u64),
    Bool(bool),
    Str(String),
    Symbol(String),
    Array(Vec<Value>),
    Null,
}

/// An instruction of the register-based IR; jump targets and label references are
/// instruction indices.
#[derive(Debug)]
pub enum IROp {
    LConst { dest: usize, value: Value },
    LLocal { dest: usize, local_index: usize },
    SLocal { src: usize, local_index: usize },
    Add { dest: usize, src1: usize, src2: usize },
    Sub { dest: usize, src1: usize, src2: usize },
    Mul { dest: usize, src1: usize, src2: usize },
    Div { dest: usize, src1: usize, src2: usize },
    Mod { dest: usize, src1: usize, src2: usize },
    Eq { dest: usize, src1: usize, src2: usize },
    Neq { dest: usize, src1: usize, src2: usize },
    Lt { dest: usize, src1: usize, src2: usize },
    Lte { dest: usize, src1: usize, src2: usize },
    Gt { dest: usize, src1: usize, src2: usize },
    Gte { dest: usize, src1: usize, src2: usize },
    And { dest: usize, src1: usize, src2: usize },
    Or { dest: usize, src1: usize, src2: usize },
    Not { dest: usize, src: usize },
    Inc { dest: usize },
    Dec { dest: usize },
    Label { name: String },
    Jump { target: usize },
    BrTrue { cond: usize, target: usize },
    BrFalse { cond: usize, target: usize },
    Halt,
    Call { dest: usize, func: usize, args: Vec<usize> },
    CallLabel { dest: usize, label_index: usize, args: Vec<usize> },
    Ret { src: usize },
}

/// The registers an instruction names.
pub open spec fn irop_regs(op: IROp) -> Seq<usize> {
    match op {
        IROp::LConst { dest, .. } => seq![dest],
        IROp::LLocal { dest, .. } => seq![dest],
        IROp::SLocal { src, .. } => seq![src],
        IROp::Add { dest, src1, src2 } => seq![dest, src1, src2],
        IROp::Sub { dest, src1, src2 } => seq![dest, src1, src2],
        IROp::Mul { dest, src1, src2 } => seq![dest, src1, src2],
        IROp::Div { dest, src1, src2 } => seq![dest, src1, src2],
        IROp::Mod { dest, src1, src2 } => seq![dest, src1, src2],
        IROp::Eq { dest, src1, src2 } => seq![dest, src1, src2],
        IROp::Neq { dest, src1, src2 } => seq![dest, src1, src2],
        IROp::Lt { dest, src1, src2 } => seq![dest, src1, src2],
        IROp::Lte { dest, src1, src2 } => seq![dest, src1, src2],
        IROp::Gt { dest, src1, src2 } => seq![dest, src1, src2],
        IROp::Gte { dest, src1, src2 } => seq![dest, src1, src2],
        IROp::And { dest, src1, src2 } => seq![dest, src1, src2],
        IROp::Or { dest, src1, src2 } => seq![dest, src1, src2],
        IROp::Not { dest, src } => seq![dest, src],
        IROp::Inc { dest } => seq![dest],
        IROp::Dec { dest } => seq![dest],
        IROp::BrTrue { cond, .. } => seq![cond],
        IROp::BrFalse { cond, .. } => seq![cond],
        IROp::Call { dest, func, args } => seq![dest, func] + args@,
        IROp::CallLabel { dest, args, .. } => seq![dest] + args@,
        IROp::Ret { src } => seq![src],
        _ => Seq::empty(),
    }
}

/// Whether the instruction is a jump or a conditional branch.
pub open spec fn is_branch(op: IROp) -> bool {
    match op {
        IROp::Jump { .. } | IROp::BrTrue { .. } | IROp::BrFalse { .. } => true,
        _ => false,
    }
}

/// The target of a jump or branch.
pub open spec fn branch_target(op: IROp) -> usize {
    match op {
        IROp::Jump { target } => target,
        IROp::BrTrue { target, .. } => target,
        IROp::BrFalse { target, .. } => target,
        _ => 0,
    }
}

/// Whether the instruction is a label named `name`.
pub open spec fn is_label_named(op: IROp, name: Seq<char>) -> bool {
    match op {
        IROp::Label { name: n } => n@ == name,
        _ => false,
    }
}

/// Whether the instruction is a label.
pub open spec fn is_label(op: IROp) -> bool {
    op is Label
}

/// Every jump and branch targets a label of the list.
pub open spec fn branches_land_on_labels(ops: Seq<IROp>) -> bool {
    forall|i: int| 0 <= i < ops.len() && is_branch(#[trigger] ops[i])
        ==> branch_target(ops[i]) < ops.len() && is_label(ops[branch_target(ops[i]) as int])
}

/// Every direct call targets a label of the list.
pub open spec fn calls_land_on_labels(ops: Seq<IROp>) -> bool {
    forall|i: int| 0 <= i < ops.len() && (#[trigger] ops[i] is CallLabel)
        ==> ops[i]->CallLabel_label_index < ops.len() && is_label(ops[ops[i]->CallLabel_label_index as int])
}

} // verus!
