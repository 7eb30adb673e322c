//! The interface of an optimization pass.
use vstd::prelude::*;
use crate::ir::op::Op;
use crate::ir::slot::Slot;
use crate::ir::meta::{mentions, op_slots};

verus! {

/// Every slot that `new` names is named in `old`.
pub open spec fn slots_within(new: Seq<Op>, old: Seq<Op>) -> bool {
    forall|s: Slot| #[trigger] mentions(new, s) ==> mentions(old, s)
}

/// A renaming that maps slots named in `ops` to slots named in `ops`.
pub open spec fn renames_within(f: spec_fn(Slot) -> Slot, ops: Seq<Op>) -> bool {
    forall|s: Slot| mentions(ops, s) ==> mentions(ops, #[trigger] f(s))
}

/// Every slot of instruction `i` of `ops` is named in `ops`.
pub proof fn lemma_slots_of_member(ops: Seq<Op>, i: int, j: int)
    requires
        0 <= i < ops.len(),
        0 <= j < op_slots(ops[i]).len(),
    ensures
        mentions(ops, op_slots(ops[i])[j]),
{
}

/// `slots_within` holds when each slot of each instruction of `new` is named in `old`.
pub proof fn lemma_slots_within(new: Seq<Op>, old: Seq<Op>)
    requires
        forall|i: int, j: int| 0 <= i < new.len() && 0 <= j < op_slots(new[i]).len()
            ==> mentions(old, #[trigger] op_slots(new[i])[j]),
    ensures
        slots_within(new, old),
{
    assert forall|s: Slot| #[trigger] mentions(new, s) implies mentions(old, s) by {
        let (i, j) = choose|i: int, j: int| 0 <= i < new.len() && 0 <= j < op_slots(new[i]).len() && op_slots(new[i])[j] == s;
        assert(mentions(old, op_slots(new[i])[j]));
    }
}

/// `slots_within` is transitive.
pub proof fn lemma_slots_within_trans(a: Seq<Op>, b: Seq<Op>, c: Seq<Op>)
    requires
        slots_within(a, b),
        slots_within(b, c),
    ensures
        slots_within(a, c),
{
}

/// An optimization pass: rewrites a list of instructions in place.
pub trait Pass {
    /// The name of the pass.
    fn name(&self) -> &'static str;

    /// What the pass makes of `before`: `after`, reporting `changed`.
    spec fn effect(&self, before: Seq<Op>, after: Seq<Op>, changed: bool) -> bool;

    /// Runs the pass; returns whether it changed anything. The result is what the
    /// pass's `effect` describes, and running it leaves that description as it was.
    /// No pass adds instructions, and every slot the result names was named before.
    fn run(&mut self, ops: &mut Vec<Op>) -> (changed: bool)
        ensures
            old(self).effect(old(ops)@, final(ops)@, changed),
            forall|a: Seq<Op>, b: Seq<Op>, c: bool| #[trigger] final(self).effect(a, b, c) == old(self).effect(a, b, c),
            final(ops)@.len() <= old(ops)@.len(),
            slots_within(final(ops)@, old(ops)@);
}

} // verus!
