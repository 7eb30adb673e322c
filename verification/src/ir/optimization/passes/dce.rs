//! Dead code elimination: drops pure instructions whose target no instruction reads.
use vstd::prelude::*;
use crate::ir::slot::Slot;
use crate::ir::op::{Op, op_defines, op_is_pure, op_uses, take_op};
use crate::ir::optimization::pass::{Pass, slots_within, lemma_slots_within, lemma_slots_of_member};
use crate::ir::meta::{mentions, op_slots};

verus! {

/// Filtering by a predicate that every element meets keeps the sequence.
proof fn lemma_filter_keeps_all(s: Seq<Op>, p: spec_fn(Op) -> bool)
    requires
        forall|i: int| 0 <= i < s.len() ==> p(#[trigger] s[i]),
    ensures
        s.filter(p) == s,
    decreases s.len(),
{
    reveal(Seq::filter);
    if s.len() > 0 {
        lemma_filter_keeps_all(s.drop_last(), p);
        assert(p(s[s.len() - 1]));
        assert(s.drop_last().push(s.last()) =~= s);
    }
}

/// Dropping instructions names no new slot.
proof fn lemma_filter_slots(old: Seq<Op>, p: spec_fn(Op) -> bool)
    ensures
        slots_within(old.filter(p), old),
{
    let new = old.filter(p);
    assert forall|i: int, j: int| 0 <= i < new.len() && 0 <= j < op_slots(new[i]).len()
        implies mentions(old, #[trigger] op_slots(new[i])[j]) by {
        assert(new.contains(new[i]));
        old.lemma_filter_contains_rev(p, new[i]);
        let k = choose|k: int| 0 <= k < old.len() && old[k] == new[i];
        lemma_slots_of_member(old, k, j);
    }
    lemma_slots_within(new, old);
}

/// Whether some instruction reads `s`.
pub open spec fn slot_read(ops: Seq<Op>, s: Slot) -> bool {
    exists|i: int, j: int| 0 <= i < ops.len() && 0 <= j < op_uses(ops[i]).len() && #[trigger] op_uses(ops[i])[j] == s
}

/// Whether `op` is a pure instruction whose target no instruction of `ops` reads.
pub open spec fn is_dead(ops: Seq<Op>, op: Op) -> bool {
    op_is_pure(op) && match op_defines(op) {
        Some(s) => !slot_read(ops, s),
        None => false,
    }
}

fn slot_read_exec(ops: &Vec<Op>, s: Slot) -> (r: bool)
    ensures
        r == slot_read(ops@, s),
{
    let mut i: usize = 0;
    while i < ops.len()
        invariant
            i <= ops@.len(),
            forall|a: int, b: int| 0 <= a < i && 0 <= b < op_uses(ops@[a]).len() ==> #[trigger] op_uses(ops@[a])[b] != s,
        decreases ops@.len() - i,
    {
        let uses = ops[i].used_slots();
        let mut j: usize = 0;
        while j < uses.len()
            invariant
                j <= uses@.len(),
                uses@ == op_uses(ops@[i as int]),
                i < ops@.len(),
                forall|a: int, b: int| 0 <= a < i && 0 <= b < op_uses(ops@[a]).len() ==> #[trigger] op_uses(ops@[a])[b] != s,
                forall|b: int| 0 <= b < j ==> uses@[b] != s,
            decreases uses@.len() - j,
        {
            if uses[j] == s {
                assert(op_uses(ops@[i as int])[j as int] == s);
                return true;
            }
            j += 1;
        }
        i += 1;
    }
    false
}

pub struct DeadCodeElim;

impl DeadCodeElim {
    pub fn new() -> (r: Self) {
        DeadCodeElim
    }

    /// Runs the pass: keeps exactly the instructions that are not dead, in order.
    pub fn eliminate(&mut self, ops: &mut Vec<Op>) -> (changed: bool)
        ensures
            final(ops)@ == old(ops)@.filter(|op: Op| !is_dead(old(ops)@, op)),
            changed == exists|i: int| 0 <= i < old(ops)@.len() && is_dead(old(ops)@, #[trigger] old(ops)@[i]),
            !changed ==> final(ops)@ == old(ops)@,
    {
        let ghost orig = ops@;
        let ghost keep = |op: Op| !is_dead(orig, op);
        let n = ops.len();
        let mut dead: Vec<bool> = Vec::new();
        let mut i: usize = 0;
        while i < n
            invariant
                i <= n,
                n == orig.len(),
                ops@ == orig,
                dead@.len() == i,
                forall|j: int| 0 <= j < i ==> #[trigger] dead@[j] == is_dead(orig, orig[j]),
            decreases n - i,
        {
            let d = if ops[i].is_pure() {
                match ops[i].defines_slot() {
                    Some(s) => !slot_read_exec(ops, s),
                    None => false,
                }
            } else {
                false
            };
            dead.push(d);
            i += 1;
        }
        let mut out: Vec<Op> = Vec::new();
        let mut changed = false;
        let mut k: usize = 0;
        assert(orig.subrange(0, 0).filter(keep) =~= Seq::<Op>::empty()) by {
            reveal(Seq::filter);
        }
        while k < n
            invariant
                k <= n,
                n == orig.len(),
                ops@.len() == n,
                dead@.len() == n,
                forall|j: int| 0 <= j < n ==> #[trigger] dead@[j] == is_dead(orig, orig[j]),
                forall|j: int| k <= j < n ==> ops@[j] == orig[j],
                keep == (|op: Op| !is_dead(orig, op)),
                out@ == orig.subrange(0, k as int).filter(keep),
                changed == exists|j: int| 0 <= j < k && is_dead(orig, #[trigger] orig[j]),
            decreases n - k,
        {
            let op = take_op(ops, k);
            assert(orig.subrange(0, k as int + 1).drop_last() =~= orig.subrange(0, k as int));
            assert(orig.subrange(0, k as int + 1).last() == orig[k as int]);
            proof { reveal(Seq::filter); }
            let ghost prev = changed;
            if dead[k] {
                changed = true;
            } else {
                out.push(op);
            }
            proof {
                if changed && !prev {
                    assert(is_dead(orig, orig[k as int]));
                }
                if !changed {
                    assert forall|j: int| 0 <= j < k + 1 implies !is_dead(orig, #[trigger] orig[j]) by {}
                }
            }
            k += 1;
        }
        assert(orig.subrange(0, n as int) =~= orig);
        *ops = out;
        proof {
            if !changed {
                lemma_filter_keeps_all(orig, |op: Op| !is_dead(orig, op));
            }
        }
        changed
    }
}

/// What dead code elimination makes of `a`.
pub open spec fn dce_done(a: Seq<Op>, b: Seq<Op>, changed: bool) -> bool {
    &&& b == a.filter(|op: Op| !is_dead(a, op))
    &&& changed == exists|i: int| 0 <= i < a.len() && is_dead(a, #[trigger] a[i])
}

impl Pass for DeadCodeElim {
    open spec fn effect(&self, before: Seq<Op>, after: Seq<Op>, changed: bool) -> bool {
        dce_done(before, after, changed)
    }

    fn name(&self) -> &'static str {
        "dce"
    }

    fn run(&mut self, ops: &mut Vec<Op>) -> (changed: bool)
        ensures
            final(ops)@ == old(ops)@.filter(|op: Op| !is_dead(old(ops)@, op)),
            changed == exists|i: int| 0 <= i < old(ops)@.len() && is_dead(old(ops)@, #[trigger] old(ops)@[i]),
            !changed ==> final(ops)@ == old(ops)@,
    {
        proof { old(ops)@.lemma_filter_len(|op: Op| !is_dead(old(ops)@, op)); }
        let ghost o = ops@;
        let c = self.eliminate(ops);
        proof { lemma_filter_slots(o, |op: Op| !is_dead(o, op)); }
        c
    }
}

} // verus!
