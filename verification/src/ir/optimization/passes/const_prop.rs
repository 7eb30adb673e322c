//! Constant propagation through locals: a forward scan that records the constant
//! stored in a local and replaces a later load of that local by the constant.
//! Locals stored more than once, incremented or decremented are left alone, and
//! nothing known survives a label, jump, return or halt.
use vstd::prelude::*;
use crate::ir::slot::Slot;
use crate::ir::op::{Op, op_defines, op_uses};
use crate::ir::value::{OpValue, ConstVal};
use crate::ir::slotmap::{SlotMap, SlotSet};
use crate::ir::optimization::pass::{Pass, slots_within, lemma_slots_within, lemma_slots_of_member};
use crate::ir::optimization::passes::constant_folding::{
    FoldMaps, cf_mutated, mutated_locals, no_consts, cf_boundary, rewritten_as,
};
use crate::ir::meta::{mentions, op_slots};

verus! {

/// One instruction's effect on the constants known in registers and locals, and
/// the constant that replaces the instruction, if it is replaced: a load of a
/// local that is not mutated and whose constant is known.
pub open spec fn cp_step(st0: FoldMaps, op: Op, mu: Set<Slot>) -> (FoldMaps, Option<(Slot, ConstVal)>) {
    let st = if cf_boundary(op) { no_consts() } else { st0 };
    match op {
        Op::LoadConst { target, value } => (FoldMaps { regs: st.regs.insert(target, value@), locals: st.locals }, None),
        Op::LoadLocal { target, source } => {
            if !mu.contains(source) && st.locals.contains_key(source) {
                let v = st.locals[source];
                (FoldMaps { regs: st.regs.insert(target, v), locals: st.locals }, Some((target, v)))
            } else {
                (FoldMaps { regs: st.regs.remove(target), locals: st.locals }, None)
            }
        },
        Op::StoreLocal { source, target } => {
            if !mu.contains(target) && st.regs.contains_key(source) {
                (FoldMaps { regs: st.regs, locals: st.locals.insert(target, st.regs[source]) }, None)
            } else {
                (FoldMaps { regs: st.regs, locals: st.locals.remove(target) }, None)
            }
        },
        Op::Inc { target } | Op::Dec { target } =>
            (FoldMaps { regs: st.regs.remove(target), locals: st.locals.remove(target) }, None),
        Op::LoadGlobal { target, .. } | Op::Call { target, .. } | Op::NewArray { target, .. }
        | Op::ISet { target, .. } | Op::MGet { target, .. } | Op::Add { target, .. }
        | Op::Sub { target, .. } | Op::Mul { target, .. } | Op::Div { target, .. }
        | Op::Eq { target, .. } | Op::Ne { target, .. } | Op::Lt { target, .. }
        | Op::Le { target, .. } | Op::Gt { target, .. } | Op::Ge { target, .. }
        | Op::Length { target, .. } | Op::IGet { target, .. } =>
            (FoldMaps { regs: st.regs.remove(target), locals: st.locals }, None),
        _ => (st, None),
    }
}

/// What is known after the first `n` instructions.
pub open spec fn cp_state(ops: Seq<Op>, mu: Set<Slot>, n: int) -> FoldMaps
    decreases n,
{
    if n <= 0 {
        no_consts()
    } else {
        cp_step(cp_state(ops, mu, n - 1), ops[n - 1], mu).0
    }
}

/// The constant that replaces instruction `i`, if it is replaced.
pub open spec fn cp_rewrite(ops: Seq<Op>, i: int) -> Option<(Slot, ConstVal)> {
    let mu = cf_mutated(ops);
    cp_step(cp_state(ops, mu, i), ops[i], mu).1
}

pub struct ConstantPropagation;

impl ConstantPropagation {
    pub fn new() -> (r: Self) {
        ConstantPropagation
    }

    /// Runs the pass: every load of a local that is stored once, never incremented
    /// or decremented, and whose stored constant is known at that point becomes a
    /// `LoadConst` of that constant (`cp_rewrite`); the rest stay as they are.
    pub fn propagate(&mut self, ops: &mut Vec<Op>) -> (changed: bool)
        ensures
            final(ops)@.len() == old(ops)@.len(),
            forall|i: int| 0 <= i < old(ops)@.len()
                ==> rewritten_as(#[trigger] final(ops)@[i], old(ops)@[i], cp_rewrite(old(ops)@, i)),
            changed == exists|i: int| 0 <= i < old(ops)@.len() && (#[trigger] cp_rewrite(old(ops)@, i)) is Some,
            !changed ==> final(ops)@ == old(ops)@,
    {
        let ghost orig = ops@;
        let mutated = mutated_locals(ops);
        let ghost mu = mutated.view();
        let mut regs: SlotMap<OpValue> = SlotMap::new();
        let mut locals: SlotMap<OpValue> = SlotMap::new();
        let mut changed = false;
        let n = ops.len();
        let mut i: usize = 0;
        while i < n
            invariant
                i <= n,
                n == orig.len(),
                ops@.len() == n,
                mu == cf_mutated(orig),
                mutated.view() == mu,
                (FoldMaps { regs: regs.view(), locals: locals.view() }) == cp_state(orig, mu, i as int),
                forall|j: int| i <= j < n ==> ops@[j] == orig[j],
                forall|j: int| 0 <= j < i ==> rewritten_as(#[trigger] ops@[j], orig[j], cp_rewrite(orig, j)),
                changed == exists|j: int| 0 <= j < i && (#[trigger] cp_rewrite(orig, j)) is Some,
            decreases n - i,
        {
            assert(ops@[i as int] == orig[i as int]);
            let boundary = match &ops[i] {
                Op::Label { .. } | Op::Jump { .. } | Op::Return { .. } | Op::Halt => true,
                _ => false,
            };
            if boundary {
                regs.clear();
                locals.clear();
            }
            let ghost prev_changed = changed;
            let ghost st = FoldMaps { regs: regs.view(), locals: locals.view() };
            assert(st == (if cf_boundary(orig[i as int]) { no_consts() } else { cp_state(orig, mu, i as int) }));
            match &ops[i] {
                Op::LoadConst { target, value } => {
                    let t = *target;
                    let v = value.duplicate();
                    regs.insert(t, v);
                },
                Op::LoadLocal { target, source } => {
                    let target = *target;
                    let source = *source;
                    let known = if !mutated.contains(source) {
                        match locals.get(source) {
                            Some(v) => Some(v.duplicate()),
                            None => None,
                        }
                    } else {
                        None
                    };
                    match known {
                        Some(v) => {
                            ops.set(i, Op::LoadConst { target, value: v.duplicate() });
                            changed = true;
                            regs.insert(target, v);
                        },
                        None => {
                            regs.remove(target);
                        },
                    }
                },
                Op::StoreLocal { source, target } => {
                    let target = *target;
                    let source = *source;
                    let known = if !mutated.contains(target) {
                        match regs.get(source) {
                            Some(v) => Some(v.duplicate()),
                            None => None,
                        }
                    } else {
                        None
                    };
                    match known {
                        Some(v) => { locals.insert(target, v); },
                        None => { locals.remove(target); },
                    }
                },
                Op::Inc { target } | Op::Dec { target } => {
                    let t = *target;
                    regs.remove(t);
                    locals.remove(t);
                },
                Op::LoadGlobal { target, .. } | Op::Call { target, .. } | Op::NewArray { target, .. }
                | Op::ISet { target, .. } | Op::MGet { target, .. } | Op::Add { target, .. }
                | Op::Sub { target, .. } | Op::Mul { target, .. } | Op::Div { target, .. }
                | Op::Eq { target, .. } | Op::Ne { target, .. } | Op::Lt { target, .. }
                | Op::Le { target, .. } | Op::Gt { target, .. } | Op::Ge { target, .. }
                | Op::Length { target, .. } | Op::IGet { target, .. } => {
                    let t = *target;
                    regs.remove(t);
                },
                _ => {},
            }
            proof {
                assert((FoldMaps { regs: regs.view(), locals: locals.view() }) =~= cp_state(orig, mu, i as int + 1));
                assert(changed == (prev_changed || cp_rewrite(orig, i as int) is Some));
                assert forall|j: int| 0 <= j < i + 1 implies rewritten_as(#[trigger] ops@[j], orig[j], cp_rewrite(orig, j)) by {
                }
                if changed {
                    if !prev_changed {
                        assert(cp_rewrite(orig, i as int) is Some);
                    }
                } else {
                    assert forall|j: int| 0 <= j < i + 1 implies !(#[trigger] cp_rewrite(orig, j) is Some) by {
                    }
                }
            }
            i += 1;
        }
        proof {
            if !changed {
                assert forall|j: int| 0 <= j < orig.len() implies ops@[j] == orig[j] by {
                    assert(rewritten_as(ops@[j], orig[j], cp_rewrite(orig, j)));
                    assert(!(cp_rewrite(orig, j) is Some));
                }
                assert(ops@ =~= orig);
            }
        }
        changed
    }
}

/// A replaced instruction is a load into the slot it defines.
proof fn lemma_cp_rewrite_target(ops: Seq<Op>, i: int)
    requires
        0 <= i < ops.len(),
        cp_rewrite(ops, i) is Some,
    ensures
        op_defines(ops[i]) == Some((cp_rewrite(ops, i)->0).0),
{
}

/// The pass names no slot that the list did not name.
proof fn lemma_cp_slots(old: Seq<Op>, new: Seq<Op>)
    requires
        new.len() == old.len(),
        forall|i: int| 0 <= i < old.len() ==> rewritten_as(#[trigger] new[i], old[i], cp_rewrite(old, i)),
    ensures
        slots_within(new, old),
{
    assert forall|i: int, j: int| 0 <= i < new.len() && 0 <= j < op_slots(new[i]).len()
        implies mentions(old, #[trigger] op_slots(new[i])[j]) by {
        assert(rewritten_as(new[i], old[i], cp_rewrite(old, i)));
        match cp_rewrite(old, i) {
            None => {
                lemma_slots_of_member(old, i, j);
            },
            Some((s, v)) => {
                lemma_cp_rewrite_target(old, i);
                let k = op_uses(old[i]).len() as int;
                assert(op_slots(new[i]) =~= seq![s]);
                assert(op_slots(old[i])[k] == s);
                lemma_slots_of_member(old, i, k);
            },
        }
    }
    lemma_slots_within(new, old);
}

/// What constant propagation makes of `a`.
pub open spec fn propagated(a: Seq<Op>, b: Seq<Op>, changed: bool) -> bool {
    &&& b.len() == a.len()
    &&& forall|i: int| 0 <= i < a.len() ==> rewritten_as(#[trigger] b[i], a[i], cp_rewrite(a, i))
    &&& changed == exists|i: int| 0 <= i < a.len() && (#[trigger] cp_rewrite(a, i)) is Some
    &&& !changed ==> b == a
}

impl Pass for ConstantPropagation {
    open spec fn effect(&self, before: Seq<Op>, after: Seq<Op>, changed: bool) -> bool {
        propagated(before, after, changed)
    }

    fn name(&self) -> &'static str {
        "const_prop"
    }

    fn run(&mut self, ops: &mut Vec<Op>) -> (changed: bool)
        ensures
            final(ops)@.len() == old(ops)@.len(),
            forall|i: int| 0 <= i < old(ops)@.len()
                ==> rewritten_as(#[trigger] final(ops)@[i], old(ops)@[i], cp_rewrite(old(ops)@, i)),
            changed == exists|i: int| 0 <= i < old(ops)@.len() && (#[trigger] cp_rewrite(old(ops)@, i)) is Some,
            !changed ==> final(ops)@ == old(ops)@,
    {
        let ghost o = ops@;
        let c = self.propagate(ops);
        proof { lemma_cp_slots(o, ops@); }
        c
    }
}

} // verus!
