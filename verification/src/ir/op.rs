//! Instructions of the slot-based IR and the slots each one reads and writes.
use vstd::prelude::*;
use crate::ir::slot::Slot;
use crate::ir::value::OpValue;

verus! {

/// An instruction of the slot-based IR.
#[derive(Debug, Clone)]
pub enum Op {
    /// Load a constant into a slot.
    LoadConst { target: Slot, value: OpValue },
    /// Copy a local variable into a slot.
    LoadLocal { target: Slot, source: Slot },
    /// Store a slot into a local variable.
    StoreLocal { source: Slot, target: Slot },
    /// Load a global variable into a slot.
    LoadGlobal { target: Slot, name: String },
    /// Store a slot into a global variable.
    StoreGlobal { source: Slot, name: String },
    /// Create a new array.
    NewArray { target: Slot, size: usize },
    /// The length of an array or collection.
    Length { target: Slot, array: Slot },
    /// Read an indexed element.
    IGet { target: Slot, source: Slot, index: Slot },
    /// Write an indexed element.
    ISet { target: Slot, index: Slot, value: Slot },
    /// Read a member.
    MGet { target: Slot, source: Slot, member: String },
    /// Write a member.
    MSet { target: Slot, member: String, value: Slot },
    Add { lhs: Slot, rhs: Slot, target: Slot },
    Sub { lhs: Slot, rhs: Slot, target: Slot },
    Mul { lhs: Slot, rhs: Slot, target: Slot },
    Div { lhs: Slot, rhs: Slot, target: Slot },
    Eq { lhs: Slot, rhs: Slot, target: Slot },
    Ne { lhs: Slot, rhs: Slot, target: Slot },
    Lt { lhs: Slot, rhs: Slot, target: Slot },
    Le { lhs: Slot, rhs: Slot, target: Slot },
    Gt { lhs: Slot, rhs: Slot, target: Slot },
    Ge { lhs: Slot, rhs: Slot, target: Slot },
    /// Logical negation.
    Not { source: Slot, target: Slot },
    Label { name: String },
    Jump { target: String },
    BrTrue { condition: Slot, target: String },
    BrFalse { condition: Slot, target: String },
    Halt,
    Call { target: Slot, func: Slot, args: Vec<Slot> },
    Return { value: Option<Slot> },
    Say { message: Slot },
    Write { location: Slot, target: Slot },
    Read { location: Slot, target: Slot },
    Ask { question: Slot, target: Slot },
    /// `target = target + 1`
    Inc { target: Slot },
    /// `target = target - 1`
    Dec { target: Slot },
}

/// Whether the instruction ends a basic block.
pub open spec fn op_is_terminator(op: Op) -> bool {
    match op {
        Op::Jump { .. } | Op::BrTrue { .. } | Op::BrFalse { .. } | Op::Halt | Op::Return { .. } => true,
        _ => false,
    }
}

/// The slot an instruction writes, if any.
pub open spec fn op_defines(op: Op) -> Option<Slot> {
    match op {
        Op::LoadConst { target, .. } => Some(target),
        Op::LoadLocal { target, .. } => Some(target),
        Op::StoreLocal { target, .. } => Some(target),
        Op::LoadGlobal { target, .. } => Some(target),
        Op::NewArray { target, .. } => Some(target),
        Op::Length { target, .. } => Some(target),
        Op::IGet { target, .. } => Some(target),
        Op::MGet { target, .. } => Some(target),
        Op::Add { target, .. } => Some(target),
        Op::Sub { target, .. } => Some(target),
        Op::Mul { target, .. } => Some(target),
        Op::Div { target, .. } => Some(target),
        Op::Eq { target, .. } => Some(target),
        Op::Ne { target, .. } => Some(target),
        Op::Lt { target, .. } => Some(target),
        Op::Le { target, .. } => Some(target),
        Op::Gt { target, .. } => Some(target),
        Op::Ge { target, .. } => Some(target),
        Op::Not { target, .. } => Some(target),
        Op::Call { target, .. } => Some(target),
        Op::Read { target, .. } => Some(target),
        Op::Ask { target, .. } => Some(target),
        Op::Inc { target } => Some(target),
        Op::Dec { target } => Some(target),
        _ => None,
    }
}

/// The slots an instruction reads, in operand order.
pub open spec fn op_uses(op: Op) -> Seq<Slot> {
    match op {
        Op::LoadLocal { source, .. } => seq![source],
        Op::StoreLocal { source, .. } => seq![source],
        Op::StoreGlobal { source, .. } => seq![source],
        Op::Length { array, .. } => seq![array],
        Op::IGet { source, index, .. } => seq![source, index],
        Op::ISet { target, index, value } => seq![target, index, value],
        Op::MGet { source, .. } => seq![source],
        Op::MSet { target, value, .. } => seq![target, value],
        Op::Add { lhs, rhs, .. } => seq![lhs, rhs],
        Op::Sub { lhs, rhs, .. } => seq![lhs, rhs],
        Op::Mul { lhs, rhs, .. } => seq![lhs, rhs],
        Op::Div { lhs, rhs, .. } => seq![lhs, rhs],
        Op::Eq { lhs, rhs, .. } => seq![lhs, rhs],
        Op::Ne { lhs, rhs, .. } => seq![lhs, rhs],
        Op::Lt { lhs, rhs, .. } => seq![lhs, rhs],
        Op::Le { lhs, rhs, .. } => seq![lhs, rhs],
        Op::Gt { lhs, rhs, .. } => seq![lhs, rhs],
        Op::Ge { lhs, rhs, .. } => seq![lhs, rhs],
        Op::Not { source, .. } => seq![source],
        Op::BrTrue { condition, .. } => seq![condition],
        Op::BrFalse { condition, .. } => seq![condition],
        Op::Call { func, args, .. } => seq![func] + args@,
        Op::Return { value } => match value { Some(v) => seq![v], None => Seq::empty() },
        Op::Say { message } => seq![message],
        Op::Write { location, target } => seq![location, target],
        Op::Read { location, .. } => seq![location],
        Op::Ask { question, .. } => seq![question],
        Op::Inc { target } => seq![target],
        Op::Dec { target } => seq![target],
        _ => Seq::empty(),
    }
}

/// Whether the instruction only computes its target from its operands, with no
/// other effect, so that it may be dropped when its target is never read.
pub open spec fn op_is_pure(op: Op) -> bool {
    match op {
        Op::LoadConst { .. } | Op::LoadLocal { .. } | Op::LoadGlobal { .. } | Op::Length { .. }
        | Op::Add { .. } | Op::Sub { .. } | Op::Mul { .. } | Op::Div { .. }
        | Op::Eq { .. } | Op::Ne { .. } | Op::Lt { .. } | Op::Le { .. } | Op::Gt { .. } | Op::Ge { .. }
        | Op::Not { .. } => true,
        _ => false,
    }
}

impl Op {
    /// Whether the instruction ends a basic block.
    pub fn is_terminator(&self) -> (r: bool)
        ensures
            r == op_is_terminator(*self),
    {
        match self {
            Op::Jump { .. } | Op::BrTrue { .. } | Op::BrFalse { .. } | Op::Halt | Op::Return { .. } => true,
            _ => false,
        }
    }

    /// The slot the instruction writes, if any.
    pub fn defines_slot(&self) -> (r: Option<Slot>)
        ensures
            r == op_defines(*self),
    {
        match self {
            Op::LoadConst { target, .. } => Some(*target),
            Op::LoadLocal { target, .. } => Some(*target),
            Op::StoreLocal { target, .. } => Some(*target),
            Op::LoadGlobal { target, .. } => Some(*target),
            Op::NewArray { target, .. } => Some(*target),
            Op::Length { target, .. } => Some(*target),
            Op::IGet { target, .. } => Some(*target),
            Op::MGet { target, .. } => Some(*target),
            Op::Add { target, .. } => Some(*target),
            Op::Sub { target, .. } => Some(*target),
            Op::Mul { target, .. } => Some(*target),
            Op::Div { target, .. } => Some(*target),
            Op::Eq { target, .. } => Some(*target),
            Op::Ne { target, .. } => Some(*target),
            Op::Lt { target, .. } => Some(*target),
            Op::Le { target, .. } => Some(*target),
            Op::Gt { target, .. } => Some(*target),
            Op::Ge { target, .. } => Some(*target),
            Op::Not { target, .. } => Some(*target),
            Op::Call { target, .. } => Some(*target),
            Op::Read { target, .. } => Some(*target),
            Op::Ask { target, .. } => Some(*target),
            Op::Inc { target } => Some(*target),
            Op::Dec { target } => Some(*target),
            _ => None,
        }
    }

    /// Whether the instruction is free of effects besides writing its target.
    pub fn is_pure(&self) -> (r: bool)
        ensures
            r == op_is_pure(*self),
    {
        match self {
            Op::LoadConst { .. } | Op::LoadLocal { .. } | Op::LoadGlobal { .. } | Op::Length { .. }
            | Op::Add { .. } | Op::Sub { .. } | Op::Mul { .. } | Op::Div { .. }
            | Op::Eq { .. } | Op::Ne { .. } | Op::Lt { .. } | Op::Le { .. } | Op::Gt { .. } | Op::Ge { .. }
            | Op::Not { .. } => true,
            _ => false,
        }
    }

    /// The slots the instruction reads, in operand order.
    pub fn used_slots(&self) -> (r: Vec<Slot>)
        ensures
            r@ == op_uses(*self),
    {
        let mut r: Vec<Slot> = Vec::new();
        match self {
            Op::LoadLocal { source, .. } => { r.push(*source); },
            Op::StoreLocal { source, .. } => { r.push(*source); },
            Op::StoreGlobal { source, .. } => { r.push(*source); },
            Op::Length { array, .. } => { r.push(*array); },
            Op::IGet { source, index, .. } => { r.push(*source); r.push(*index); },
            Op::ISet { target, index, value } => { r.push(*target); r.push(*index); r.push(*value); },
            Op::MGet { source, .. } => { r.push(*source); },
            Op::MSet { target, value, .. } => { r.push(*target); r.push(*value); },
            Op::Add { lhs, rhs, .. } | Op::Sub { lhs, rhs, .. } | Op::Mul { lhs, rhs, .. }
            | Op::Div { lhs, rhs, .. } | Op::Eq { lhs, rhs, .. } | Op::Ne { lhs, rhs, .. }
            | Op::Lt { lhs, rhs, .. } | Op::Le { lhs, rhs, .. } | Op::Gt { lhs, rhs, .. }
            | Op::Ge { lhs, rhs, .. } => { r.push(*lhs); r.push(*rhs); },
            Op::Not { source, .. } => { r.push(*source); },
            Op::BrTrue { condition, .. } => { r.push(*condition); },
            Op::BrFalse { condition, .. } => { r.push(*condition); },
            Op::Call { func, args, .. } => {
                r.push(*func);
                let mut k: usize = 0;
                while k < args.len()
                    invariant
                        k <= args@.len(),
                        r@ == seq![*func] + args@.subrange(0, k as int),
                    decreases args@.len() - k,
                {
                    r.push(args[k]);
                    k += 1;
                    assert(r@ =~= seq![*func] + args@.subrange(0, k as int));
                }
                assert(args@.subrange(0, k as int) =~= args@);
            },
            Op::Return { value } => {
                match value {
                    Some(v) => { r.push(*v); },
                    None => {},
                }
            },
            Op::Say { message } => { r.push(*message); },
            Op::Write { location, target } => { r.push(*location); r.push(*target); },
            Op::Read { location, .. } => { r.push(*location); },
            Op::Ask { question, .. } => { r.push(*question); },
            Op::Inc { target } => { r.push(*target); },
            Op::Dec { target } => { r.push(*target); },
            _ => {},
        }
        assert(r@ =~= op_uses(*self));
        r
    }
}

} // verus!

verus! {

/// `new` is `old` with the operands that the optimizer renames mapped through
/// `f1` and then `f2`: the operands of arithmetic, comparison, `Not`, `Length`,
/// `IGet`, `ISet`, the arguments of `Call` and the source of `StoreLocal` go
/// through both; the message of `Say` and the value of `Return` through `f2`
/// only; every other field is unchanged.
pub open spec fn renamed(new: Op, old: Op, f1: spec_fn(Slot) -> Slot, f2: spec_fn(Slot) -> Slot) -> bool {
    match old {
        Op::Add { lhs, rhs, target } => new == Op::Add { lhs: f2(f1(lhs)), rhs: f2(f1(rhs)), target },
        Op::Sub { lhs, rhs, target } => new == Op::Sub { lhs: f2(f1(lhs)), rhs: f2(f1(rhs)), target },
        Op::Mul { lhs, rhs, target } => new == Op::Mul { lhs: f2(f1(lhs)), rhs: f2(f1(rhs)), target },
        Op::Div { lhs, rhs, target } => new == Op::Div { lhs: f2(f1(lhs)), rhs: f2(f1(rhs)), target },
        Op::Eq { lhs, rhs, target } => new == Op::Eq { lhs: f2(f1(lhs)), rhs: f2(f1(rhs)), target },
        Op::Ne { lhs, rhs, target } => new == Op::Ne { lhs: f2(f1(lhs)), rhs: f2(f1(rhs)), target },
        Op::Lt { lhs, rhs, target } => new == Op::Lt { lhs: f2(f1(lhs)), rhs: f2(f1(rhs)), target },
        Op::Le { lhs, rhs, target } => new == Op::Le { lhs: f2(f1(lhs)), rhs: f2(f1(rhs)), target },
        Op::Gt { lhs, rhs, target } => new == Op::Gt { lhs: f2(f1(lhs)), rhs: f2(f1(rhs)), target },
        Op::Ge { lhs, rhs, target } => new == Op::Ge { lhs: f2(f1(lhs)), rhs: f2(f1(rhs)), target },
        Op::Not { source, target } => new == Op::Not { source: f2(f1(source)), target },
        Op::Length { target, array } => new == Op::Length { target, array: f2(f1(array)) },
        Op::IGet { target, source, index } => new == Op::IGet { target, source: f2(f1(source)), index: f2(f1(index)) },
        Op::ISet { target, index, value } => new == Op::ISet { target: f2(f1(target)), index: f2(f1(index)), value: f2(f1(value)) },
        Op::StoreLocal { source, target } => new == Op::StoreLocal { source: f2(f1(source)), target },
        Op::Call { target, func, args } => match new {
            Op::Call { target: t2, func: fn2, args: a2 } =>
                t2 == target && fn2 == func && a2@ == args@.map_values(|a: Slot| f2(f1(a))),
            _ => false,
        },
        Op::Say { message } => new == Op::Say { message: f2(message) },
        Op::Return { value } => new == Op::Return { value: match value { Some(v) => Some(f2(v)), None => None } },
        _ => new == old,
    }
}

/// Takes instruction `i` out of the list, leaving `Halt` in its place.
pub fn take_op(ops: &mut Vec<Op>, i: usize) -> (r: Op)
    requires
        i < old(ops)@.len(),
    ensures
        r == old(ops)@[i as int],
        final(ops)@ == old(ops)@.update(i as int, Op::Halt),
{
    ops.push(Op::Halt);
    let r = ops.swap_remove(i);
    assert(ops@ =~= old(ops)@.update(i as int, Op::Halt));
    r
}

} // verus!
