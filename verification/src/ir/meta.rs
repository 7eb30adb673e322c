//! Frame sizes of a lowered program and the program that carries them.
use vstd::prelude::*;
use crate::ir::slot::Slot;
use crate::ir::op::{Op, op_uses, op_defines};
use crate::ir::optimization::pipeline::optimize_ops_default;
use crate::ir::optimization::pass::slots_within;

verus! {

/// The frame a program needs: one more than its highest temporary and local index.
#[derive(Debug, Clone, Copy, PartialEq, Eq, Hash, Structural)]
pub struct IRMeta {
    pub max_temp: usize,
    pub max_local: usize,
}

/// Every slot an instruction names: those it reads, then the one it writes.
pub open spec fn op_slots(op: Op) -> Seq<Slot> {
    op_uses(op) + match op_defines(op) {
        Some(s) => seq![s],
        None => Seq::empty(),
    }
}

/// Whether some instruction of `ops` names the slot `s`.
pub open spec fn mentions(ops: Seq<Op>, s: Slot) -> bool {
    exists|i: int, j: int| 0 <= i < ops.len() && 0 <= j < op_slots(ops[i]).len() && op_slots(ops[i])[j] == s
}

/// Every temporary and local index named in `ops` is below `t` and `l`.
pub open spec fn indices_below(ops: Seq<Op>, t: int, l: int) -> bool {
    forall|i: int, j: int| 0 <= i < ops.len() && 0 <= j < op_slots(ops[i]).len() ==> match #[trigger] op_slots(ops[i])[j] {
        Slot::Temp(k) => k < t,
        Slot::Local(k) => k < l,
        Slot::Captured(_) => true,
    }
}

fn op_slot_list(op: &Op) -> (r: Vec<Slot>)
    ensures
        r@ == op_slots(*op),
{
    let mut v = op.used_slots();
    match op.defines_slot() {
        Some(s) => { v.push(s); },
        None => {},
    }
    proof {
        match op_defines(*op) {
            Some(s) => { assert(v@ =~= op_uses(*op) + seq![s]); },
            None => { assert(v@ =~= op_uses(*op) + Seq::<Slot>::empty()); },
        }
    }
    v
}

/// The frame sizes of a program: `max_temp` is one more than the highest temporary
/// index it names (1 when it names none), and `max_local` the same for locals.
pub fn analyze_meta(ops: &[Op]) -> (r: IRMeta)
    requires
        indices_below(ops@, usize::MAX as int, usize::MAX as int),
    ensures
        indices_below(ops@, r.max_temp as int, r.max_local as int),
        r.max_temp >= 1,
        r.max_local >= 1,
        r.max_temp == 1 || mentions(ops@, Slot::Temp((r.max_temp - 1) as usize)),
        r.max_local == 1 || mentions(ops@, Slot::Local((r.max_local - 1) as usize)),
{
    let mut max_temp: usize = 0;
    let mut max_local: usize = 0;
    let mut i: usize = 0;
    while i < ops.len()
        invariant
            i <= ops@.len(),
            indices_below(ops@, usize::MAX as int, usize::MAX as int),
            indices_below(ops@.subrange(0, i as int), max_temp + 1, max_local + 1),
            max_temp == 0 || mentions(ops@, Slot::Temp(max_temp)),
            max_local == 0 || mentions(ops@, Slot::Local(max_local)),
        decreases ops@.len() - i,
    {
        let slots = op_slot_list(&ops[i]);
        let mut j: usize = 0;
        while j < slots.len()
            invariant
                i < ops@.len(),
                j <= slots@.len(),
                slots@ == op_slots(ops@[i as int]),
                indices_below(ops@, usize::MAX as int, usize::MAX as int),
                indices_below(ops@.subrange(0, i as int), max_temp + 1, max_local + 1),
                forall|k: int| 0 <= k < j ==> match #[trigger] slots@[k] {
                    Slot::Temp(t) => t <= max_temp,
                    Slot::Local(l) => l <= max_local,
                    Slot::Captured(_) => true,
                },
                max_temp == 0 || mentions(ops@, Slot::Temp(max_temp)),
                max_local == 0 || mentions(ops@, Slot::Local(max_local)),
            decreases slots@.len() - j,
        {
            let s = slots[j];
            let ghost pi = i as int;
            let ghost pj = j as int;
            match s {
                Slot::Temp(t) => {
                    if t > max_temp {
                        max_temp = t;
                        assert(op_slots(ops@[pi])[pj] == Slot::Temp(t));
                    }
                },
                Slot::Local(l) => {
                    if l > max_local {
                        max_local = l;
                        assert(op_slots(ops@[pi])[pj] == Slot::Local(l));
                    }
                },
                Slot::Captured(_) => {},
            }
            j += 1;
        }
        proof {
            let pre = ops@.subrange(0, i as int);
            let next = ops@.subrange(0, i as int + 1);
            assert forall|a: int, b: int| 0 <= a < next.len() && 0 <= b < op_slots(next[a]).len() implies match #[trigger] op_slots(next[a])[b] {
                Slot::Temp(k) => k < max_temp + 1,
                Slot::Local(k) => k < max_local + 1,
                Slot::Captured(_) => true,
            } by {
                if a < i {
                    assert(next[a] == pre[a]);
                } else {
                    assert(next[a] == ops@[i as int]);
                    assert(op_slots(next[a])[b] == slots@[b]);
                }
            }
        }
        i += 1;
    }
    proof {
        assert(ops@.subrange(0, i as int) =~= ops@);
        assert forall|a: int, b: int| 0 <= a < ops@.len() && 0 <= b < op_slots(ops@[a]).len() implies match #[trigger] op_slots(ops@[a])[b] {
            Slot::Temp(k) => k < usize::MAX,
            Slot::Local(k) => k < usize::MAX,
            Slot::Captured(_) => true,
        } by {}
        if max_temp > 0 {
            let (a, b) = choose|a: int, b: int| 0 <= a < ops@.len() && 0 <= b < op_slots(ops@[a]).len()
                && op_slots(ops@[a])[b] == Slot::Temp(max_temp);
            assert(op_slots(ops@[a])[b] == Slot::Temp(max_temp));
        }
        if max_local > 0 {
            let (a, b) = choose|a: int, b: int| 0 <= a < ops@.len() && 0 <= b < op_slots(ops@[a]).len()
                && op_slots(ops@[a])[b] == Slot::Local(max_local);
            assert(op_slots(ops@[a])[b] == Slot::Local(max_local));
        }
    }
    IRMeta { max_temp: max_temp + 1, max_local: max_local + 1 }
}

/// A lowered program with its frame sizes.
#[derive(Debug, Clone)]
pub struct IRProgram {
    pub ops: Vec<Op>,
    pub meta: IRMeta,
}

/// Whether every temporary and local index named in `ops` is below `usize::MAX`,
/// so that the frame sizes can be counted.
pub fn indices_fit(ops: &[Op]) -> (r: bool)
    ensures
        r == indices_below(ops@, usize::MAX as int, usize::MAX as int),
{
    let mut i: usize = 0;
    while i < ops.len()
        invariant
            i <= ops@.len(),
            indices_below(ops@.subrange(0, i as int), usize::MAX as int, usize::MAX as int),
        decreases ops@.len() - i,
    {
        let slots = op_slot_list(&ops[i]);
        let mut j: usize = 0;
        while j < slots.len()
            invariant
                i < ops@.len(),
                j <= slots@.len(),
                slots@ == op_slots(ops@[i as int]),
                forall|k: int| 0 <= k < j ==> match #[trigger] slots@[k] {
                    Slot::Temp(t) => t < usize::MAX,
                    Slot::Local(l) => l < usize::MAX,
                    Slot::Captured(_) => true,
                },
            decreases slots@.len() - j,
        {
            let bad = match slots[j] {
                Slot::Temp(t) => t == usize::MAX,
                Slot::Local(l) => l == usize::MAX,
                Slot::Captured(_) => false,
            };
            if bad {
                proof {
                    let (a, b) = (i as int, j as int);
                    assert(op_slots(ops@[a])[b] == slots@[b]);
                }
                return false;
            }
            j += 1;
        }
        proof {
            let pre = ops@.subrange(0, i as int);
            let next = ops@.subrange(0, i as int + 1);
            assert forall|a: int, b: int| 0 <= a < next.len() && 0 <= b < op_slots(next[a]).len() implies match #[trigger] op_slots(next[a])[b] {
                Slot::Temp(k) => k < usize::MAX,
                Slot::Local(k) => k < usize::MAX,
                Slot::Captured(_) => true,
            } by {
                if a < i {
                    assert(next[a] == pre[a]);
                } else {
                    assert(next[a] == ops@[i as int]);
                    assert(op_slots(next[a])[b] == slots@[b]);
                }
            }
        }
        i += 1;
    }
    assert(ops@.subrange(0, i as int) =~= ops@);
    true
}

/// Bounds on the indices a list names hold of any list that names no other slot.
proof fn lemma_indices_below_within(new: Seq<Op>, old: Seq<Op>, t: int, l: int)
    requires
        slots_within(new, old),
        indices_below(old, t, l),
    ensures
        indices_below(new, t, l),
{
    assert forall|i: int, j: int| 0 <= i < new.len() && 0 <= j < op_slots(new[i]).len() implies match #[trigger] op_slots(new[i])[j] {
        Slot::Temp(k) => k < t,
        Slot::Local(k) => k < l,
        Slot::Captured(_) => true,
    } by {
        let x = op_slots(new[i])[j];
        assert(mentions(new, x));
        assert(mentions(old, x));
        let (a, b) = choose|a: int, b: int| 0 <= a < old.len() && 0 <= b < op_slots(old[a]).len() && op_slots(old[a])[b] == x;
        assert(op_slots(old[a])[b] == x);
    }
}

/// Turns the lowered instructions of a script into a program: the default
/// optimization pipeline runs on them, then the frame sizes are measured. There
/// is no program when the optimized code names the index `usize::MAX`, whose frame
/// size cannot be counted; as optimization names no new slot, there is one whenever
/// the input names no such index.
pub fn generate_program_from_ops(ops: Vec<Op>) -> (r: Option<IRProgram>)
    ensures
        indices_below(ops@, usize::MAX as int, usize::MAX as int) ==> r is Some,
        match r {
            Some(p) => {
                &&& p.ops@.len() <= ops@.len()
                &&& slots_within(p.ops@, ops@)
                &&& indices_below(p.ops@, p.meta.max_temp as int, p.meta.max_local as int)
                &&& p.meta.max_temp >= 1
                &&& p.meta.max_local >= 1
                &&& (p.meta.max_temp == 1 || mentions(p.ops@, Slot::Temp((p.meta.max_temp - 1) as usize)))
                &&& (p.meta.max_local == 1 || mentions(p.ops@, Slot::Local((p.meta.max_local - 1) as usize)))
            },
            None => true,
        },
{
    let ghost o = ops@;
    let mut ops = ops;
    optimize_ops_default(&mut ops);
    proof {
        if indices_below(o, usize::MAX as int, usize::MAX as int) {
            lemma_indices_below_within(ops@, o, usize::MAX as int, usize::MAX as int);
        }
    }
    if !indices_fit(ops.as_slice()) {
        return None;
    }
    let meta = analyze_meta(ops.as_slice());
    Some(IRProgram { ops, meta })
}

} // verus!
