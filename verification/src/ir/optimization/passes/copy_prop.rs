//! Copy propagation: a slot loaded from a local (or a global) that is never
//! written is a copy of it; every read of such a slot is renamed to the original.
use vstd::prelude::*;
use crate::ir::slot::Slot;
use crate::ir::op::{Op, op_defines, take_op};
use crate::ir::slotmap::{SlotMap, SlotSet};
use crate::ir::optimization::pass::{Pass, slots_within, renames_within, lemma_slots_within, lemma_slots_of_member};
use crate::ir::op::op_uses;
use crate::ir::meta::{mentions, op_slots};

verus! {

/// The slots the pass treats as written: targets of `StoreLocal`, `Inc`, `Dec` and
/// `ISet`, and sources of `StoreGlobal`.
pub open spec fn copy_mutated(ops: Seq<Op>) -> Set<Slot> {
    Set::new(|s: Slot| exists|i: int| 0 <= i < ops.len() && (match #[trigger] ops[i] {
        Op::StoreLocal { target, .. } => target == s,
        Op::StoreGlobal { source, .. } => source == s,
        Op::Inc { target } => target == s,
        Op::Dec { target } => target == s,
        Op::ISet { target, .. } => target == s,
        _ => false,
    }))
}

/// One instruction's effect on the known copies.
pub open spec fn copy_step(m: Map<Slot, Slot>, op: Op, mu: Set<Slot>) -> Map<Slot, Slot> {
    match op {
        Op::LoadLocal { target, source } => if !mu.contains(source) { m.insert(target, source) } else { m },
        Op::LoadGlobal { target, .. } => if !mu.contains(target) { m.insert(target, target) } else { m },
        Op::LoadConst { target, .. } => m.remove(target),
        _ => match op_defines(op) {
            Some(d) => m.remove(d),
            None => m,
        },
    }
}

/// The copies known after the first `n` instructions.
pub open spec fn copies_after(ops: Seq<Op>, mu: Set<Slot>, n: int) -> Map<Slot, Slot>
    decreases n,
{
    if n <= 0 { Map::empty() } else { copy_step(copies_after(ops, mu, n - 1), ops[n - 1], mu) }
}

/// The copies of the whole list.
pub open spec fn copies_of(ops: Seq<Op>) -> Map<Slot, Slot> {
    copies_after(ops, copy_mutated(ops), ops.len() as int)
}

/// Follows copies from `s`, at most `fuel` steps, stopping at a slot that is no
/// copy or a copy of itself.
pub open spec fn follow(m: Map<Slot, Slot>, s: Slot, fuel: nat) -> Slot
    decreases fuel,
{
    if fuel == 0 || !m.contains_key(s) || m[s] == s { s } else { follow(m, m[s], (fuel - 1) as nat) }
}

/// The slots an instruction reads that the pass renames (all but the slot of `Inc`
/// and `Dec`, which is also written).
pub open spec fn read_slots(op: Op) -> Seq<Slot> {
    match op {
        Op::LoadLocal { source, .. } => seq![source],
        Op::StoreLocal { source, .. } => seq![source],
        Op::StoreGlobal { source, .. } => seq![source],
        Op::Length { array, .. } => seq![array],
        Op::IGet { source, index, .. } => seq![source, index],
        Op::ISet { target, index, value } => seq![target, index, value],
        Op::MGet { source, .. } => seq![source],
        Op::MSet { target, value, .. } => seq![target, value],
        Op::Add { lhs, rhs, .. } => seq![lhs, rhs],
        Op::Sub { lhs, rhs, .. } => seq![lhs, rhs],
        Op::Mul { lhs, rhs, .. } => seq![lhs, rhs],
        Op::Div { lhs, rhs, .. } => seq![lhs, rhs],
        Op::Eq { lhs, rhs, .. } => seq![lhs, rhs],
        Op::Ne { lhs, rhs, .. } => seq![lhs, rhs],
        Op::Lt { lhs, rhs, .. } => seq![lhs, rhs],
        Op::Le { lhs, rhs, .. } => seq![lhs, rhs],
        Op::Gt { lhs, rhs, .. } => seq![lhs, rhs],
        Op::Ge { lhs, rhs, .. } => seq![lhs, rhs],
        Op::Not { source, .. } => seq![source],
        Op::BrTrue { condition, .. } => seq![condition],
        Op::BrFalse { condition, .. } => seq![condition],
        Op::Call { func, args, .. } => seq![func] + args@,
        Op::Return { value } => match value { Some(v) => seq![v], None => Seq::empty() },
        Op::Say { message } => seq![message],
        Op::Write { location, target } => seq![location, target],
        Op::Read { location, .. } => seq![location],
        Op::Ask { question, .. } => seq![question],
        _ => Seq::empty(),
    }
}

/// `new` is `old` with every slot of `read_slots` mapped through `f`.
pub open spec fn reads_renamed(new: Op, old: Op, f: spec_fn(Slot) -> Slot) -> bool {
    match old {
        Op::LoadLocal { target, source } => new == Op::LoadLocal { target, source: f(source) },
        Op::StoreLocal { source, target } => new == Op::StoreLocal { source: f(source), target },
        Op::StoreGlobal { source, name } => match new {
            Op::StoreGlobal { source: s2, name: n2 } => s2 == f(source) && n2 == name,
            _ => false,
        },
        Op::Length { target, array } => new == Op::Length { target, array: f(array) },
        Op::IGet { target, source, index } => new == Op::IGet { target, source: f(source), index: f(index) },
        Op::ISet { target, index, value } => new == Op::ISet { target: f(target), index: f(index), value: f(value) },
        Op::MGet { target, source, member } => match new {
            Op::MGet { target: t2, source: s2, member: m2 } => t2 == target && s2 == f(source) && m2 == member,
            _ => false,
        },
        Op::MSet { target, member, value } => match new {
            Op::MSet { target: t2, member: m2, value: v2 } => t2 == f(target) && m2 == member && v2 == f(value),
            _ => false,
        },
        Op::Add { lhs, rhs, target } => new == Op::Add { lhs: f(lhs), rhs: f(rhs), target },
        Op::Sub { lhs, rhs, target } => new == Op::Sub { lhs: f(lhs), rhs: f(rhs), target },
        Op::Mul { lhs, rhs, target } => new == Op::Mul { lhs: f(lhs), rhs: f(rhs), target },
        Op::Div { lhs, rhs, target } => new == Op::Div { lhs: f(lhs), rhs: f(rhs), target },
        Op::Eq { lhs, rhs, target } => new == Op::Eq { lhs: f(lhs), rhs: f(rhs), target },
        Op::Ne { lhs, rhs, target } => new == Op::Ne { lhs: f(lhs), rhs: f(rhs), target },
        Op::Lt { lhs, rhs, target } => new == Op::Lt { lhs: f(lhs), rhs: f(rhs), target },
        Op::Le { lhs, rhs, target } => new == Op::Le { lhs: f(lhs), rhs: f(rhs), target },
        Op::Gt { lhs, rhs, target } => new == Op::Gt { lhs: f(lhs), rhs: f(rhs), target },
        Op::Ge { lhs, rhs, target } => new == Op::Ge { lhs: f(lhs), rhs: f(rhs), target },
        Op::Not { source, target } => new == Op::Not { source: f(source), target },
        Op::BrTrue { condition, target } => match new {
            Op::BrTrue { condition: c2, target: t2 } => c2 == f(condition) && t2 == target,
            _ => false,
        },
        Op::BrFalse { condition, target } => match new {
            Op::BrFalse { condition: c2, target: t2 } => c2 == f(condition) && t2 == target,
            _ => false,
        },
        Op::Call { target, func, args } => match new {
            Op::Call { target: t2, func: f2, args: a2 } => t2 == target && f2 == f(func) && a2@ == args@.map_values(f),
            _ => false,
        },
        Op::Return { value } => new == Op::Return { value: match value { Some(v) => Some(f(v)), None => None } },
        Op::Say { message } => new == Op::Say { message: f(message) },
        Op::Write { location, target } => new == Op::Write { location: f(location), target: f(target) },
        Op::Read { location, target } => new == Op::Read { location: f(location), target },
        Op::Ask { question, target } => new == Op::Ask { question: f(question), target },
        _ => new == old,
    }
}

/// Whether `f` changes some slot that instruction `op` reads.
pub open spec fn renames_some(op: Op, f: spec_fn(Slot) -> Slot) -> bool {
    exists|j: int| 0 <= j < read_slots(op).len() && f(#[trigger] read_slots(op)[j]) != read_slots(op)[j]
}

/// The renaming the pass applies.
pub open spec fn copy_renaming(ops: Seq<Op>) -> spec_fn(Slot) -> Slot {
    |s: Slot| follow(copies_of(ops), s, ops.len() as nat)
}

/// Every slot a copy is mapped to is named in the list.
proof fn lemma_copies_mentioned(ops: Seq<Op>, mu: Set<Slot>, n: int)
    requires
        0 <= n <= ops.len(),
    ensures
        forall|s: Slot| #[trigger] copies_after(ops, mu, n).contains_key(s) ==> mentions(ops, copies_after(ops, mu, n)[s]),
    decreases n,
{
    if n > 0 {
        lemma_copies_mentioned(ops, mu, n - 1);
        let op = ops[n - 1];
        let m0 = copies_after(ops, mu, n - 1);
        let m1 = copies_after(ops, mu, n);
        assert(m1 == copy_step(m0, op, mu));
        assert forall|s: Slot| #[trigger] m1.contains_key(s) implies mentions(ops, m1[s]) by {
            match op {
                Op::LoadLocal { target, source } => {
                    assert(op_slots(op)[0] == source);
                    lemma_slots_of_member(ops, n - 1, 0);
                    if s != target || mu.contains(source) {
                        assert(m0.contains_key(s) && m1[s] == m0[s]);
                    }
                },
                Op::LoadGlobal { target, .. } => {
                    assert(op_slots(op)[0] == target);
                    lemma_slots_of_member(ops, n - 1, 0);
                    if s != target || mu.contains(target) {
                        assert(m0.contains_key(s) && m1[s] == m0[s]);
                    }
                },
                _ => {
                    assert(m0.contains_key(s) && m1[s] == m0[s]);
                },
            }
        }
    }
}

/// Following copies from a named slot ends at a named slot.
proof fn lemma_follow_mentioned(ops: Seq<Op>, m: Map<Slot, Slot>, s: Slot, fuel: nat)
    requires
        mentions(ops, s),
        forall|t: Slot| #[trigger] m.contains_key(t) ==> mentions(ops, m[t]),
    ensures
        mentions(ops, follow(m, s, fuel)),
    decreases fuel,
{
    if !(fuel == 0 || !m.contains_key(s) || m[s] == s) {
        lemma_follow_mentioned(ops, m, m[s], (fuel - 1) as nat);
    }
}

/// The renaming maps named slots to named slots.
proof fn lemma_copy_renaming_within(ops: Seq<Op>)
    ensures
        renames_within(copy_renaming(ops), ops),
{
    lemma_copies_mentioned(ops, copy_mutated(ops), ops.len() as int);
    assert forall|s: Slot| #[trigger] mentions(ops, s) implies mentions(ops, copy_renaming(ops)(s)) by {
        lemma_follow_mentioned(ops, copies_of(ops), s, ops.len() as nat);
    }
}

/// Renaming the read slots of an instruction keeps each slot in place or renames it.
proof fn lemma_reads_renamed_positions(new: Op, old: Op, f: spec_fn(Slot) -> Slot)
    requires
        reads_renamed(new, old, f),
    ensures
        op_slots(new).len() == op_slots(old).len(),
        forall|j: int| 0 <= j < op_slots(new).len() ==>
            #[trigger] op_slots(new)[j] == op_slots(old)[j] || op_slots(new)[j] == f(op_slots(old)[j]),
{
    match old {
        Op::Call { target, func, args } => {
            match new {
                Op::Call { target: t2, func: f2, args: a2 } => {
                    assert forall|j: int| 0 <= j < op_slots(new).len() implies
                        #[trigger] op_slots(new)[j] == op_slots(old)[j] || op_slots(new)[j] == f(op_slots(old)[j]) by {
                        if 1 <= j < 1 + args@.len() {
                            assert(op_slots(new)[j] == a2@[j - 1]);
                            assert(op_slots(old)[j] == args@[j - 1]);
                        }
                    }
                },
                _ => {},
            }
        },
        _ => {},
    }
}

/// The renamed list names no slot that the list did not name.
proof fn lemma_copy_slots(old: Seq<Op>, new: Seq<Op>)
    requires
        new.len() == old.len(),
        forall|i: int| 0 <= i < old.len() ==> reads_renamed(#[trigger] new[i], old[i], copy_renaming(old)),
    ensures
        slots_within(new, old),
{
    lemma_copy_renaming_within(old);
    assert forall|i: int, j: int| 0 <= i < new.len() && 0 <= j < op_slots(new[i]).len()
        implies mentions(old, #[trigger] op_slots(new[i])[j]) by {
        lemma_reads_renamed_positions(new[i], old[i], copy_renaming(old));
        lemma_slots_of_member(old, i, j);
        assert(op_slots(new[i])[j] == op_slots(old[i])[j] || op_slots(new[i])[j] == copy_renaming(old)(op_slots(old[i])[j]));
    }
    lemma_slots_within(new, old);
}

fn copy_mutated_exec(ops: &Vec<Op>) -> (m: SlotSet)
    ensures
        m.view() == copy_mutated(ops@),
{
    let mut m = SlotSet::new();
    let mut i: usize = 0;
    while i < ops.len()
        invariant
            i <= ops@.len(),
            forall|s: Slot| #[trigger] m.view().contains(s) == exists|j: int| 0 <= j < i && (match #[trigger] ops@[j] {
                Op::StoreLocal { target, .. } => target == s,
                Op::StoreGlobal { source, .. } => source == s,
                Op::Inc { target } => target == s,
                Op::Dec { target } => target == s,
                Op::ISet { target, .. } => target == s,
                _ => false,
            }),
        decreases ops@.len() - i,
    {
        match &ops[i] {
            Op::StoreLocal { target, .. } | Op::Inc { target } | Op::Dec { target } | Op::ISet { target, .. } => {
                m.insert(*target);
            },
            Op::StoreGlobal { source, .. } => {
                m.insert(*source);
            },
            _ => {},
        }
        proof {
            assert forall|s: Slot| #[trigger] m.view().contains(s) == exists|j: int| 0 <= j < i + 1 && (match #[trigger] ops@[j] {
                Op::StoreLocal { target, .. } => target == s,
                Op::StoreGlobal { source, .. } => source == s,
                Op::Inc { target } => target == s,
                Op::Dec { target } => target == s,
                Op::ISet { target, .. } => target == s,
                _ => false,
            }) by {
                if m.view().contains(s) {
                    let hit = match ops@[i as int] {
                        Op::StoreLocal { target, .. } => target == s,
                        Op::StoreGlobal { source, .. } => source == s,
                        Op::Inc { target } => target == s,
                        Op::Dec { target } => target == s,
                        Op::ISet { target, .. } => target == s,
                        _ => false,
                    };
                    if hit { assert(0 <= i < i + 1); }
                }
            }
        }
        i += 1;
    }
    assert(m.view() =~= copy_mutated(ops@));
    m
}

fn follow_exec(m: &SlotMap<Slot>, s: Slot, fuel: usize) -> (r: Slot)
    ensures
        r == follow(m.view(), s, fuel as nat),
    decreases fuel,
{
    if fuel == 0 {
        return s;
    }
    match m.get(s) {
        Some(next) => {
            if *next == s { s } else { follow_exec(m, *next, fuel - 1) }
        },
        None => s,
    }
}

/// Renames the read slots of `op` through the copies; also says whether any changed.
fn rename_reads(op: Op, m: &SlotMap<Slot>, fuel: usize) -> (r: (Op, bool))
    ensures
        reads_renamed(r.0, op, |s: Slot| follow(m.view(), s, fuel as nat)),
        r.1 == renames_some(op, |s: Slot| follow(m.view(), s, fuel as nat)),
{
    let ghost f = |s: Slot| follow(m.view(), s, fuel as nat);
    let ghost rs = read_slots(op);
    let ghost op0 = op;
    let r = match op {
        Op::LoadLocal { target, source } => {
            let a = follow_exec(m, source, fuel);
            (Op::LoadLocal { target, source: a }, a != source)
        },
        Op::StoreLocal { source, target } => {
            let a = follow_exec(m, source, fuel);
            (Op::StoreLocal { source: a, target }, a != source)
        },
        Op::StoreGlobal { source, name } => {
            let a = follow_exec(m, source, fuel);
            (Op::StoreGlobal { source: a, name }, a != source)
        },
        Op::Length { target, array } => {
            let a = follow_exec(m, array, fuel);
            (Op::Length { target, array: a }, a != array)
        },
        Op::IGet { target, source, index } => {
            let a = follow_exec(m, source, fuel);
            let b = follow_exec(m, index, fuel);
            (Op::IGet { target, source: a, index: b }, a != source || b != index)
        },
        Op::ISet { target, index, value } => {
            let a = follow_exec(m, target, fuel);
            let b = follow_exec(m, index, fuel);
            let c = follow_exec(m, value, fuel);
            (Op::ISet { target: a, index: b, value: c }, a != target || b != index || c != value)
        },
        Op::MGet { target, source, member } => {
            let a = follow_exec(m, source, fuel);
            (Op::MGet { target, source: a, member }, a != source)
        },
        Op::MSet { target, member, value } => {
            let a = follow_exec(m, target, fuel);
            let c = follow_exec(m, value, fuel);
            (Op::MSet { target: a, member, value: c }, a != target || c != value)
        },
        Op::Add { lhs, rhs, target } => {
            let a = follow_exec(m, lhs, fuel);
            let b = follow_exec(m, rhs, fuel);
            (Op::Add { lhs: a, rhs: b, target }, a != lhs || b != rhs)
        },
        Op::Sub { lhs, rhs, target } => {
            let a = follow_exec(m, lhs, fuel);
            let b = follow_exec(m, rhs, fuel);
            (Op::Sub { lhs: a, rhs: b, target }, a != lhs || b != rhs)
        },
        Op::Mul { lhs, rhs, target } => {
            let a = follow_exec(m, lhs, fuel);
            let b = follow_exec(m, rhs, fuel);
            (Op::Mul { lhs: a, rhs: b, target }, a != lhs || b != rhs)
        },
        Op::Div { lhs, rhs, target } => {
            let a = follow_exec(m, lhs, fuel);
            let b = follow_exec(m, rhs, fuel);
            (Op::Div { lhs: a, rhs: b, target }, a != lhs || b != rhs)
        },
        Op::Eq { lhs, rhs, target } => {
            let a = follow_exec(m, lhs, fuel);
            let b = follow_exec(m, rhs, fuel);
            (Op::Eq { lhs: a, rhs: b, target }, a != lhs || b != rhs)
        },
        Op::Ne { lhs, rhs, target } => {
            let a = follow_exec(m, lhs, fuel);
            let b = follow_exec(m, rhs, fuel);
            (Op::Ne { lhs: a, rhs: b, target }, a != lhs || b != rhs)
        },
        Op::Lt { lhs, rhs, target } => {
            let a = follow_exec(m, lhs, fuel);
            let b = follow_exec(m, rhs, fuel);
            (Op::Lt { lhs: a, rhs: b, target }, a != lhs || b != rhs)
        },
        Op::Le { lhs, rhs, target } => {
            let a = follow_exec(m, lhs, fuel);
            let b = follow_exec(m, rhs, fuel);
            (Op::Le { lhs: a, rhs: b, target }, a != lhs || b != rhs)
        },
        Op::Gt { lhs, rhs, target } => {
            let a = follow_exec(m, lhs, fuel);
            let b = follow_exec(m, rhs, fuel);
            (Op::Gt { lhs: a, rhs: b, target }, a != lhs || b != rhs)
        },
        Op::Ge { lhs, rhs, target } => {
            let a = follow_exec(m, lhs, fuel);
            let b = follow_exec(m, rhs, fuel);
            (Op::Ge { lhs: a, rhs: b, target }, a != lhs || b != rhs)
        },
        Op::Not { source, target } => {
            let a = follow_exec(m, source, fuel);
            (Op::Not { source: a, target }, a != source)
        },
        Op::BrTrue { condition, target } => {
            let a = follow_exec(m, condition, fuel);
            (Op::BrTrue { condition: a, target }, a != condition)
        },
        Op::BrFalse { condition, target } => {
            let a = follow_exec(m, condition, fuel);
            (Op::BrFalse { condition: a, target }, a != condition)
        },
        Op::Call { target, func, args } => {
            let fa = follow_exec(m, func, fuel);
            let mut any = fa != func;
            let mut a2: Vec<Slot> = Vec::new();
            let mut k: usize = 0;
            while k < args.len()
                invariant
                    k <= args@.len(),
                    a2@.len() == k,
                    forall|q: int| 0 <= q < k ==> #[trigger] a2@[q] == f(args@[q]),
                    any == (fa != func || exists|q: int| 0 <= q < k && f(#[trigger] args@[q]) != args@[q]),
                    fa == f(func),
                    f == (|s: Slot| follow(m.view(), s, fuel as nat)),
                decreases args@.len() - k,
            {
                let b = follow_exec(m, args[k], fuel);
                if b != args[k] {
                    any = true;
                }
                a2.push(b);
                k += 1;
            }
            proof {
                assert(a2@ =~= args@.map_values(f));
                let rs2 = seq![func] + args@;
                if any {
                    if fa != func {
                        assert(rs2[0] == func);
                    } else {
                        let q = choose|q: int| 0 <= q < args@.len() && f(#[trigger] args@[q]) != args@[q];
                        assert(rs2[q + 1] == args@[q]);
                    }
                } else {
                    assert forall|j: int| 0 <= j < rs2.len() implies f(#[trigger] rs2[j]) == rs2[j] by {
                        if j > 0 { assert(rs2[j] == args@[j - 1]); }
                    }
                }
            }
            (Op::Call { target, func: fa, args: a2 }, any)
        },
        Op::Return { value } => match value {
            Some(v) => {
                let a = follow_exec(m, v, fuel);
                (Op::Return { value: Some(a) }, a != v)
            },
            None => (Op::Return { value: None }, false),
        },
        Op::Say { message } => {
            let a = follow_exec(m, message, fuel);
            (Op::Say { message: a }, a != message)
        },
        Op::Write { location, target } => {
            let a = follow_exec(m, location, fuel);
            let b = follow_exec(m, target, fuel);
            (Op::Write { location: a, target: b }, a != location || b != target)
        },
        Op::Read { location, target } => {
            let a = follow_exec(m, location, fuel);
            (Op::Read { location: a, target }, a != location)
        },
        Op::Ask { question, target } => {
            let a = follow_exec(m, question, fuel);
            (Op::Ask { question: a, target }, a != question)
        },
        other => (other, false),
    };
    proof {
        match op0 {
            Op::Call { .. } => {},
            _ => {
                if r.1 {
                    assert(exists|j: int| 0 <= j < rs.len() && f(#[trigger] rs[j]) != rs[j]) by {
                        if rs.len() >= 1 && f(rs[0]) != rs[0] {
                        } else if rs.len() >= 2 && f(rs[1]) != rs[1] {
                        } else {
                            assert(rs.len() >= 3 && f(rs[2]) != rs[2]);
                        }
                    }
                } else {
                    assert forall|j: int| 0 <= j < rs.len() implies f(#[trigger] rs[j]) == rs[j] by {}
                }
            },
        }
    }
    r
}

pub struct CopyPropagation;

impl CopyPropagation {
    pub fn new() -> (r: Self) {
        CopyPropagation
    }

    /// Runs the pass: when some copy is known, every instruction's read slots are
    /// renamed through `copy_renaming`; returns whether a slot changed.
    pub fn propagate(&mut self, ops: &mut Vec<Op>) -> (changed: bool)
        ensures
            copies_of(old(ops)@) == Map::<Slot, Slot>::empty() ==> final(ops)@ == old(ops)@ && !changed,
            copies_of(old(ops)@) != Map::<Slot, Slot>::empty() ==> {
                &&& final(ops)@.len() == old(ops)@.len()
                &&& forall|i: int| 0 <= i < old(ops)@.len()
                    ==> reads_renamed(#[trigger] final(ops)@[i], old(ops)@[i], copy_renaming(old(ops)@))
                &&& changed == exists|i: int| 0 <= i < old(ops)@.len()
                    && renames_some(#[trigger] old(ops)@[i], copy_renaming(old(ops)@))
            },
    {
        let ghost orig = ops@;
        let mutated = copy_mutated_exec(ops);
        let mut copies: SlotMap<Slot> = SlotMap::new();
        let n = ops.len();
        let mut i: usize = 0;
        while i < n
            invariant
                i <= n,
                n == orig.len(),
                ops@ == orig,
                mutated.view() == copy_mutated(orig),
                copies.view() == copies_after(orig, copy_mutated(orig), i as int),
            decreases n - i,
        {
            match &ops[i] {
                Op::LoadLocal { target, source } => {
                    if !mutated.contains(*source) {
                        copies.insert(*target, *source);
                    }
                },
                Op::LoadGlobal { target, .. } => {
                    if !mutated.contains(*target) {
                        copies.insert(*target, *target);
                    }
                },
                Op::LoadConst { target, .. } => {
                    copies.remove(*target);
                },
                _ => {
                    match ops[i].defines_slot() {
                        Some(d) => { copies.remove(d); },
                        None => {},
                    }
                },
            }
            i += 1;
        }
        if copies.is_empty() {
            return false;
        }
        let ghost f = copy_renaming(orig);
        let mut changed = false;
        let mut k: usize = 0;
        while k < n
            invariant
                k <= n,
                n == orig.len(),
                ops@.len() == n,
                copies.view() == copies_of(orig),
                f == copy_renaming(orig),
                forall|j: int| k <= j < n ==> ops@[j] == orig[j],
                forall|j: int| 0 <= j < k ==> reads_renamed(#[trigger] ops@[j], orig[j], f),
                changed == exists|j: int| 0 <= j < k && renames_some(#[trigger] orig[j], f),
            decreases n - k,
        {
            let op = take_op(ops, k);
            let (op2, c) = rename_reads(op, &copies, n);
            proof {
                assert((|s: Slot| follow(copies.view(), s, n as nat)) == f);
            }
            ops.set(k, op2);
            let ghost prev = changed;
            if c {
                changed = true;
            }
            proof {
                if changed && !prev {
                    assert(renames_some(orig[k as int], f));
                }
                if !changed {
                    assert forall|j: int| 0 <= j < k + 1 implies !renames_some(#[trigger] orig[j], f) by {}
                }
            }
            k += 1;
        }
        changed
    }
}

/// What copy propagation makes of `a`.
pub open spec fn copies_propagated(a: Seq<Op>, b: Seq<Op>, changed: bool) -> bool {
    &&& copies_of(a) == Map::<Slot, Slot>::empty() ==> b == a && !changed
    &&& copies_of(a) != Map::<Slot, Slot>::empty() ==> {
        &&& b.len() == a.len()
        &&& forall|i: int| 0 <= i < a.len() ==> reads_renamed(#[trigger] b[i], a[i], copy_renaming(a))
        &&& changed == exists|i: int| 0 <= i < a.len() && renames_some(#[trigger] a[i], copy_renaming(a))
    }
}

impl Pass for CopyPropagation {
    open spec fn effect(&self, before: Seq<Op>, after: Seq<Op>, changed: bool) -> bool {
        copies_propagated(before, after, changed)
    }

    fn name(&self) -> &'static str {
        "copy_prop"
    }

    fn run(&mut self, ops: &mut Vec<Op>) -> (changed: bool)
        ensures
            copies_of(old(ops)@) == Map::<Slot, Slot>::empty() ==> final(ops)@ == old(ops)@ && !changed,
            copies_of(old(ops)@) != Map::<Slot, Slot>::empty() ==> {
                &&& final(ops)@.len() == old(ops)@.len()
                &&& forall|i: int| 0 <= i < old(ops)@.len()
                    ==> reads_renamed(#[trigger] final(ops)@[i], old(ops)@[i], copy_renaming(old(ops)@))
                &&& changed == exists|i: int| 0 <= i < old(ops)@.len()
                    && renames_some(#[trigger] old(ops)@[i], copy_renaming(old(ops)@))
            },
    {
        let ghost o = ops@;
        let c = self.propagate(ops);
        proof {
            if copies_of(o) != Map::<Slot, Slot>::empty() {
                lemma_copy_slots(o, ops@);
            }
        }
        c
    }
}

} // verus!
