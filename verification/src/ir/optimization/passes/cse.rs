//! Common subexpression elimination within basic blocks, and merging of equal
//! constants across the whole list: a duplicate producer is removed and its target
//! becomes an alias of the first producer's target; operands are then renamed
//! through the aliases.
use vstd::prelude::*;
use crate::ir::slot::Slot;
use crate::ir::op::{Op, renamed, take_op};
use crate::ir::value::{OpValue, ConstVal};
use crate::ir::slotmap::SlotSet;
use crate::ir::fold::{BinKind, bin_parts, bin_parts_of};
use crate::ir::optimization::pass::{Pass, slots_within, renames_within, lemma_slots_within, lemma_slots_of_member};
use crate::ir::optimization::passes::constant_folding::lemma_bin_parts_defines;
use crate::ir::op::{op_defines, op_uses};
use crate::ir::meta::{mentions, op_slots};

verus! {

/// The pure expression an instruction computes, up to its target.
#[derive(Debug, Clone, Copy, PartialEq, Eq, Structural)]
pub enum ExprKey {
    BinOp { kind: BinKind, lhs: Slot, rhs: Slot },
    Not { src: Slot },
    Len { src: Slot },
}

/// The value bound last to `k` in an association list.
pub open spec fn last_binding<K, V>(s: Seq<(K, V)>, k: K) -> Option<V>
    decreases s.len(),
{
    if s.len() == 0 {
        None
    } else if s.last().0 == k {
        Some(s.last().1)
    } else {
        last_binding(s.drop_last(), k)
    }
}

/// Follows aliases from `s`, at most `fuel` steps, stopping at a slot with no
/// alias or aliased to itself.
pub open spec fn resolve(al: Seq<(Slot, Slot)>, s: Slot, fuel: nat) -> Slot
    decreases fuel,
{
    if fuel == 0 {
        s
    } else {
        match last_binding(al, s) {
            Some(a) => if a == s { s } else { resolve(al, a, (fuel - 1) as nat) },
            None => s,
        }
    }
}

/// Renaming through the aliases.
pub open spec fn resolver(al: Seq<(Slot, Slot)>, fuel: nat) -> spec_fn(Slot) -> Slot {
    |s: Slot| resolve(al, s, fuel)
}

/// No renaming.
pub open spec fn same_slot() -> spec_fn(Slot) -> Slot {
    |s: Slot| s
}

/// The slots used as array indices; the pass never aliases them.
pub open spec fn index_slots(ops: Seq<Op>) -> Set<Slot> {
    Set::new(|s: Slot| exists|i: int| 0 <= i < ops.len() && (match #[trigger] ops[i] {
        Op::IGet { index, .. } => index == s,
        Op::ISet { index, .. } => index == s,
        _ => false,
    }))
}

/// Whether the instruction ends the region in which expressions are reused.
pub open spec fn cse_boundary(op: Op) -> bool {
    match op {
        Op::Label { .. } | Op::Jump { .. } | Op::BrFalse { .. } | Op::Return { .. } | Op::Halt
        | Op::Call { .. } | Op::ISet { .. } | Op::MGet { .. } | Op::NewArray { .. } => true,
        _ => false,
    }
}

/// The expression key and target of a pure instruction, operands renamed by `f`.
pub open spec fn pure_key(op: Op, f: spec_fn(Slot) -> Slot) -> Option<(ExprKey, Slot)> {
    match bin_parts(op) {
        Some((k, l, r, t)) => Some((ExprKey::BinOp { kind: k, lhs: f(l), rhs: f(r) }, t)),
        None => match op {
            Op::Not { source, target } => Some((ExprKey::Not { src: f(source) }, target)),
            Op::Length { target, array } => Some((ExprKey::Len { src: f(array) }, target)),
            _ => None,
        },
    }
}

/// The state of the scan: aliases, expressions of the current region, constants.
pub struct CseState {
    pub alias: Seq<(Slot, Slot)>,
    pub exprs: Seq<(ExprKey, Slot)>,
    pub consts: Seq<(ConstVal, Slot)>,
}

/// One instruction's effect on the state, and whether the instruction is removed.
pub open spec fn cse_step(st: CseState, op: Op, idx: Set<Slot>, fuel: nat) -> (CseState, bool) {
    let f = resolver(st.alias, fuel);
    match op {
        Op::LoadConst { target, value } => {
            if idx.contains(target) {
                let consts = if last_binding(st.consts, value@) is None { st.consts.push((value@, target)) } else { st.consts };
                (CseState { alias: st.alias, exprs: st.exprs, consts }, false)
            } else {
                match last_binding(st.consts, value@) {
                    Some(e) => (CseState { alias: st.alias.push((target, e)), exprs: st.exprs, consts: st.consts }, true),
                    None => (CseState { alias: st.alias, exprs: st.exprs, consts: st.consts.push((value@, target)) }, false),
                }
            }
        },
        _ => {
            let (st2, removed) = match pure_key(op, f) {
                Some((key, t)) => {
                    if idx.contains(t) {
                        (CseState { alias: st.alias, exprs: st.exprs.push((key, t)), consts: st.consts }, false)
                    } else {
                        match last_binding(st.exprs, key) {
                            Some(e) => (CseState { alias: st.alias.push((t, e)), exprs: st.exprs, consts: st.consts }, true),
                            None => (CseState { alias: st.alias, exprs: st.exprs.push((key, t)), consts: st.consts }, false),
                        }
                    }
                },
                None => (st, false),
            };
            if cse_boundary(op) {
                (CseState { alias: st2.alias, exprs: Seq::empty(), consts: st2.consts }, removed)
            } else {
                (st2, removed)
            }
        },
    }
}

/// The state before instruction `n`.
pub open spec fn cse_state(ops: Seq<Op>, n: int) -> CseState
    decreases n,
{
    if n <= 0 {
        CseState { alias: Seq::empty(), exprs: Seq::empty(), consts: Seq::empty() }
    } else {
        cse_step(cse_state(ops, n - 1), ops[n - 1], index_slots(ops), ops.len()).0
    }
}

/// Whether instruction `i` is removed as a duplicate.
pub open spec fn cse_removed(ops: Seq<Op>, i: int) -> bool {
    cse_step(cse_state(ops, i), ops[i], index_slots(ops), ops.len()).1
}

/// Whether an instruction computes an expression: a binary operation, a negation
/// or a length.
pub open spec fn computes_expr(op: Op) -> bool {
    bin_parts(op) is Some || op is Not || op is Length
}

/// Whether an instruction ends a region of code: a label, a jump, a branch on
/// false, a return, a halt, a call, an indexed write, a member read or an array
/// creation.
pub open spec fn ends_region(op: Op) -> bool {
    op is Label || op is Jump || op is BrFalse || op is Return || op is Halt || op is Call
        || op is ISet || op is MGet || op is NewArray
}

proof fn lemma_region_forgets(ops: Seq<Op>, l: int, k: int)
    requires
        0 <= l < k <= ops.len(),
        ends_region(ops[l]),
        forall|m: int| l < m < k ==> !computes_expr(#[trigger] ops[m]),
    ensures
        cse_state(ops, k).exprs.len() == 0,
    decreases k - l,
{
    if k > l + 1 {
        lemma_region_forgets(ops, l, k - 1);
        assert(!computes_expr(ops[k - 1]));
    }
}

/// Law: an expression is reused only within the region where it was computed: an
/// instruction that computes an expression is removed as a duplicate only if an
/// instruction computing an expression stands between it and the last label, jump,
/// branch, return, halt, call, indexed write, member read or array creation before
/// it. In particular an expression computed before a label is never reused after it.
pub proof fn law_cse_reuse_within_region(ops: Seq<Op>, l: int, j: int)
    requires
        0 <= l < j < ops.len(),
        ends_region(ops[l]),
        computes_expr(ops[j]),
        cse_removed(ops, j),
    ensures
        exists|m: int| l < m < j && computes_expr(#[trigger] ops[m]),
{
    if forall|m: int| l < m < j ==> !computes_expr(#[trigger] ops[m]) {
        lemma_region_forgets(ops, l, j);
    }
}

/// Whether two instructions compute the same expression, their operands renamed by
/// `f` and `g`: the same binary operator on the same operands in the same order, or
/// both negations, or both lengths, of the same operand.
pub open spec fn same_expr(op1: Op, f: spec_fn(Slot) -> Slot, op2: Op, g: spec_fn(Slot) -> Slot) -> bool {
    match (op1, op2) {
        (Op::Not { source: a, .. }, Op::Not { source: b, .. }) => f(a) == g(b),
        (Op::Length { array: a, .. }, Op::Length { array: b, .. }) => f(a) == g(b),
        _ => match (bin_parts(op1), bin_parts(op2)) {
            (Some((k1, l1, r1, _)), Some((k2, l2, r2, _))) => k1 == k2 && f(l1) == g(l2) && f(r1) == g(r2),
            _ => false,
        },
    }
}

/// The renaming in force when instruction `m` is scanned.
pub open spec fn renaming_at(ops: Seq<Op>, m: int) -> spec_fn(Slot) -> Slot {
    resolver(cse_state(ops, m).alias, ops.len() as nat)
}

proof fn lemma_last_binding_entry<K, V>(s: Seq<(K, V)>, k: K)
    requires
        last_binding(s, k) is Some,
    ensures
        exists|x: int| 0 <= x < s.len() && s[x] == (k, last_binding(s, k)->0),
    decreases s.len(),
{
    if s.last().0 != k {
        lemma_last_binding_entry(s.drop_last(), k);
        let x = choose|x: int| 0 <= x < s.drop_last().len() && s.drop_last()[x] == (k, last_binding(s.drop_last(), k)->0);
        assert(s[x] == s.drop_last()[x]);
    } else {
        assert(s[s.len() - 1] == s.last());
    }
}

/// The expression key of a pure instruction, if it has one.
spec fn key_of(op: Op, f: spec_fn(Slot) -> Slot) -> Option<ExprKey> {
    match pure_key(op, f) {
        Some((k, _)) => Some(k),
        None => None,
    }
}

proof fn lemma_pure_key_same_expr(op1: Op, f: spec_fn(Slot) -> Slot, op2: Op, g: spec_fn(Slot) -> Slot)
    requires
        pure_key(op1, f) is Some,
        pure_key(op2, g) is Some,
        key_of(op1, f) == key_of(op2, g),
    ensures
        same_expr(op1, f, op2, g),
{
}

/// Every expression recorded before instruction `k` was computed by an earlier
/// instruction under the renaming in force then.
proof fn lemma_exprs_recorded(ops: Seq<Op>, k: int)
    requires
        0 <= k <= ops.len(),
    ensures
        forall|x: int| 0 <= x < cse_state(ops, k).exprs.len() ==> exists|m: int| 0 <= m < k
            && pure_key(ops[m], renaming_at(ops, m)) == Some(#[trigger] cse_state(ops, k).exprs[x]),
    decreases k,
{
    if k > 0 {
        lemma_exprs_recorded(ops, k - 1);
        let st = cse_state(ops, k - 1);
        let nx = cse_state(ops, k).exprs;
        assert forall|x: int| 0 <= x < nx.len() implies exists|m: int| 0 <= m < k
            && pure_key(ops[m], renaming_at(ops, m)) == Some(#[trigger] nx[x]) by {
            if x < st.exprs.len() && nx[x] == st.exprs[x] {
                let m = choose|m: int| 0 <= m < k - 1 && pure_key(ops[m], renaming_at(ops, m)) == Some(st.exprs[x]);
                assert(pure_key(ops[m], renaming_at(ops, m)) == Some(nx[x]));
            } else {
                assert(pure_key(ops[k - 1], renaming_at(ops, k - 1)) == Some(nx[x]));
            }
        }
    }
}

/// Law: an instruction removed as a duplicate expression computes the same
/// expression as an earlier instruction: the same operator on the same operands,
/// each renamed as it was when that instruction was scanned.
pub proof fn law_cse_removes_only_repeats(ops: Seq<Op>, j: int)
    requires
        0 <= j < ops.len(),
        computes_expr(ops[j]),
        cse_removed(ops, j),
    ensures
        exists|m: int| 0 <= m < j && #[trigger] same_expr(ops[m], renaming_at(ops, m), ops[j], renaming_at(ops, j)),
{
    let st = cse_state(ops, j);
    let key = key_of(ops[j], renaming_at(ops, j))->0;
    assert(last_binding(st.exprs, key) is Some);
    lemma_last_binding_entry(st.exprs, key);
    let x = choose|x: int| 0 <= x < st.exprs.len() && st.exprs[x] == (key, last_binding(st.exprs, key)->0);
    lemma_exprs_recorded(ops, j);
    let m = choose|m: int| 0 <= m < j && pure_key(ops[m], renaming_at(ops, m)) == Some(st.exprs[x]);
    lemma_pure_key_same_expr(ops[m], renaming_at(ops, m), ops[j], renaming_at(ops, j));
}

/// The indices of the first `n` instructions that are kept, in order.
pub open spec fn cse_kept(ops: Seq<Op>, n: int) -> Seq<int>
    decreases n,
{
    if n <= 0 {
        Seq::empty()
    } else if cse_removed(ops, n - 1) {
        cse_kept(ops, n - 1)
    } else {
        cse_kept(ops, n - 1).push(n - 1)
    }
}

/// The result of the pass: the kept instructions, in order, each with its operands
/// renamed through the aliases known when it was scanned and then through all of them.
pub open spec fn cse_result(new: Seq<Op>, ops: Seq<Op>) -> bool {
    let kept = cse_kept(ops, ops.len() as int);
    let fin = resolver(cse_state(ops, ops.len() as int).alias, ops.len() as nat);
    &&& new.len() == kept.len()
    &&& forall|p: int| 0 <= p < kept.len() ==>
        renamed(#[trigger] new[p], ops[kept[p]], resolver(cse_state(ops, kept[p]).alias, ops.len() as nat), fin)
}

fn last_alias(al: &Vec<(Slot, Slot)>, s: Slot) -> (r: Option<Slot>)
    ensures
        r == last_binding(al@, s),
{
    let mut j = al.len();
    assert(al@.subrange(0, j as int) =~= al@);
    while j > 0
        invariant
            j <= al@.len(),
            last_binding(al@, s) == last_binding(al@.subrange(0, j as int), s),
        decreases j,
    {
        assert(al@.subrange(0, j as int).drop_last() =~= al@.subrange(0, j as int - 1));
        if al[j - 1].0 == s {
            return Some(al[j - 1].1);
        }
        j -= 1;
    }
    None
}

fn last_expr(es: &Vec<(ExprKey, Slot)>, k: ExprKey) -> (r: Option<Slot>)
    ensures
        r == last_binding(es@, k),
{
    let mut j = es.len();
    assert(es@.subrange(0, j as int) =~= es@);
    while j > 0
        invariant
            j <= es@.len(),
            last_binding(es@, k) == last_binding(es@.subrange(0, j as int), k),
        decreases j,
    {
        assert(es@.subrange(0, j as int).drop_last() =~= es@.subrange(0, j as int - 1));
        if es[j - 1].0 == k {
            return Some(es[j - 1].1);
        }
        j -= 1;
    }
    None
}

fn same_value(a: &OpValue, b: &OpValue) -> (r: bool)
    ensures
        r == (a@ == b@),
{
    a.same_as(b)
}

spec fn const_views(cs: Seq<(OpValue, Slot)>) -> Seq<(ConstVal, Slot)> {
    cs.map_values(|e: (OpValue, Slot)| (e.0@, e.1))
}

fn last_const(cs: &Vec<(OpValue, Slot)>, v: &OpValue) -> (r: Option<Slot>)
    ensures
        r == last_binding(const_views(cs@), v@),
{
    let mut j = cs.len();
    assert(const_views(cs@).subrange(0, j as int) =~= const_views(cs@));
    while j > 0
        invariant
            j <= cs@.len(),
            last_binding(const_views(cs@), v@) == last_binding(const_views(cs@).subrange(0, j as int), v@),
        decreases j,
    {
        assert(const_views(cs@).subrange(0, j as int).drop_last() =~= const_views(cs@).subrange(0, j as int - 1));
        if same_value(&cs[j - 1].0, v) {
            return Some(cs[j - 1].1);
        }
        j -= 1;
    }
    None
}

fn resolve_exec(al: &Vec<(Slot, Slot)>, s: Slot, fuel: usize) -> (r: Slot)
    ensures
        r == resolve(al@, s, fuel as nat),
    decreases fuel,
{
    if fuel == 0 {
        s
    } else {
        match last_alias(al, s) {
            Some(a) => if a == s { s } else { resolve_exec(al, a, fuel - 1) },
            None => s,
        }
    }
}

fn rename_slot(al: &Vec<(Slot, Slot)>, s: Slot, fuel: usize, on: bool) -> (r: Slot)
    ensures
        r == (if on { resolve(al@, s, fuel as nat) } else { s }),
{
    if on { resolve_exec(al, s, fuel) } else { s }
}

/// Renames the operands of `op` through the aliases: in the first phase every
/// renamed operand but the `Say` message and `Return` value; in the second all.
fn rename_op(op: Op, al: &Vec<(Slot, Slot)>, fuel: usize, second: bool) -> (r: Op)
    ensures
        second ==> renamed(r, op, same_slot(), resolver(al@, fuel as nat)),
        !second ==> renamed(r, op, resolver(al@, fuel as nat), same_slot()),
{
    let ghost f = resolver(al@, fuel as nat);
    let ghost id = same_slot();
    let r = match op {
        Op::Add { lhs, rhs, target } => Op::Add { lhs: resolve_exec(al, lhs, fuel), rhs: resolve_exec(al, rhs, fuel), target },
        Op::Sub { lhs, rhs, target } => Op::Sub { lhs: resolve_exec(al, lhs, fuel), rhs: resolve_exec(al, rhs, fuel), target },
        Op::Mul { lhs, rhs, target } => Op::Mul { lhs: resolve_exec(al, lhs, fuel), rhs: resolve_exec(al, rhs, fuel), target },
        Op::Div { lhs, rhs, target } => Op::Div { lhs: resolve_exec(al, lhs, fuel), rhs: resolve_exec(al, rhs, fuel), target },
        Op::Eq { lhs, rhs, target } => Op::Eq { lhs: resolve_exec(al, lhs, fuel), rhs: resolve_exec(al, rhs, fuel), target },
        Op::Ne { lhs, rhs, target } => Op::Ne { lhs: resolve_exec(al, lhs, fuel), rhs: resolve_exec(al, rhs, fuel), target },
        Op::Lt { lhs, rhs, target } => Op::Lt { lhs: resolve_exec(al, lhs, fuel), rhs: resolve_exec(al, rhs, fuel), target },
        Op::Le { lhs, rhs, target } => Op::Le { lhs: resolve_exec(al, lhs, fuel), rhs: resolve_exec(al, rhs, fuel), target },
        Op::Gt { lhs, rhs, target } => Op::Gt { lhs: resolve_exec(al, lhs, fuel), rhs: resolve_exec(al, rhs, fuel), target },
        Op::Ge { lhs, rhs, target } => Op::Ge { lhs: resolve_exec(al, lhs, fuel), rhs: resolve_exec(al, rhs, fuel), target },
        Op::Not { source, target } => Op::Not { source: resolve_exec(al, source, fuel), target },
        Op::Length { target, array } => Op::Length { target, array: resolve_exec(al, array, fuel) },
        Op::IGet { target, source, index } => Op::IGet { target, source: resolve_exec(al, source, fuel), index: resolve_exec(al, index, fuel) },
        Op::ISet { target, index, value } => Op::ISet {
            target: resolve_exec(al, target, fuel),
            index: resolve_exec(al, index, fuel),
            value: resolve_exec(al, value, fuel),
        },
        Op::StoreLocal { source, target } => Op::StoreLocal { source: resolve_exec(al, source, fuel), target },
        Op::Call { target, func, args } => {
            let mut a2: Vec<Slot> = Vec::new();
            let mut k: usize = 0;
            while k < args.len()
                invariant
                    k <= args@.len(),
                    a2@.len() == k,
                    forall|q: int| 0 <= q < k ==> #[trigger] a2@[q] == resolve(al@, args@[q], fuel as nat),
                decreases args@.len() - k,
            {
                a2.push(resolve_exec(al, args[k], fuel));
                k += 1;
            }
            assert(a2@ =~= args@.map_values(|a: Slot| f(id(a))));
            assert(a2@ =~= args@.map_values(|a: Slot| id(f(a))));
            Op::Call { target, func, args: a2 }
        },
        Op::Say { message } => Op::Say { message: rename_slot(al, message, fuel, second) },
        Op::Return { value } => match value {
            Some(v) => Op::Return { value: Some(rename_slot(al, v, fuel, second)) },
            None => Op::Return { value: None },
        },
        other => other,
    };
    r
}

proof fn lemma_renamed_compose(n: Op, m: Op, o: Op, f1: spec_fn(Slot) -> Slot, f2: spec_fn(Slot) -> Slot)
    requires
        renamed(m, o, f1, same_slot()),
        renamed(n, m, same_slot(), f2),
    ensures
        renamed(n, o, f1, f2),
{
    match o {
        Op::Call { target, func, args } => {
            match m {
                Op::Call { args: am, .. } => {
                    match n {
                        Op::Call { args: an, .. } => {
                            assert(an@ =~= args@.map_values(|a: Slot| f2(f1(a))));
                        },
                        _ => {},
                    }
                },
                _ => {},
            }
        },
        _ => {},
    }
}

fn index_slot_set(ops: &Vec<Op>) -> (m: SlotSet)
    ensures
        m.view() == index_slots(ops@),
{
    let mut m = SlotSet::new();
    let mut i: usize = 0;
    while i < ops.len()
        invariant
            i <= ops@.len(),
            forall|s: Slot| #[trigger] m.view().contains(s) == exists|j: int| 0 <= j < i && (match #[trigger] ops@[j] {
                Op::IGet { index, .. } => index == s,
                Op::ISet { index, .. } => index == s,
                _ => false,
            }),
        decreases ops@.len() - i,
    {
        match &ops[i] {
            Op::IGet { index, .. } | Op::ISet { index, .. } => {
                m.insert(*index);
            },
            _ => {},
        }
        proof {
            assert forall|s: Slot| #[trigger] m.view().contains(s) == exists|j: int| 0 <= j < i + 1 && (match #[trigger] ops@[j] {
                Op::IGet { index, .. } => index == s,
                Op::ISet { index, .. } => index == s,
                _ => false,
            }) by {
                if m.view().contains(s) {
                    let hit = match ops@[i as int] {
                        Op::IGet { index, .. } => index == s,
                        Op::ISet { index, .. } => index == s,
                        _ => false,
                    };
                    if hit { assert(0 <= i < i + 1); }
                }
            }
        }
        i += 1;
    }
    assert(m.view() =~= index_slots(ops@));
    m
}

fn pure_key_of(op: &Op) -> (r: Option<(ExprKey, Slot)>)
    ensures
        r == pure_key(*op, same_slot()),
{
    match bin_parts_of(op) {
        Some((k, l, r, t)) => Some((ExprKey::BinOp { kind: k, lhs: l, rhs: r }, t)),
        None => match op {
            Op::Not { source, target } => Some((ExprKey::Not { src: *source }, *target)),
            Op::Length { target, array } => Some((ExprKey::Len { src: *array }, *target)),
            _ => None,
        },
    }
}

fn is_cse_boundary(op: &Op) -> (r: bool)
    ensures
        r == cse_boundary(*op),
{
    match op {
        Op::Label { .. } | Op::Jump { .. } | Op::BrFalse { .. } | Op::Return { .. } | Op::Halt
        | Op::Call { .. } | Op::ISet { .. } | Op::MGet { .. } | Op::NewArray { .. } => true,
        _ => false,
    }
}

proof fn lemma_key_after_rename(m: Op, o: Op, f: spec_fn(Slot) -> Slot)
    requires
        renamed(m, o, f, same_slot()),
    ensures
        pure_key(m, same_slot()) == pure_key(o, f),
        cse_boundary(m) == cse_boundary(o),
        (o is LoadConst) ==> m == o,
{
}

pub struct CommonSubexpressionElimination;

impl CommonSubexpressionElimination {
    pub fn new() -> (r: Self) {
        CommonSubexpressionElimination
    }

    /// Runs the pass (`cse_result`); returns whether some instruction was removed.
    pub fn eliminate(&mut self, ops: &mut Vec<Op>) -> (changed: bool)
        ensures
            cse_result(final(ops)@, old(ops)@),
            changed == exists|i: int| 0 <= i < old(ops)@.len() && #[trigger] cse_removed(old(ops)@, i),
    {
        let ghost orig = ops@;
        let n = ops.len();
        let idx = index_slot_set(ops);
        let mut alias: Vec<(Slot, Slot)> = Vec::new();
        let mut exprs: Vec<(ExprKey, Slot)> = Vec::new();
        let mut consts: Vec<(OpValue, Slot)> = Vec::new();
        let mut removed: Vec<bool> = Vec::new();
        let mut changed = false;
        let mut i: usize = 0;
        assert(const_views(consts@) =~= Seq::<(ConstVal, Slot)>::empty());
        while i < n
            invariant
                i <= n,
                n == orig.len(),
                ops@.len() == n,
                idx.view() == index_slots(orig),
                (CseState { alias: alias@, exprs: exprs@, consts: const_views(consts@) }) == cse_state(orig, i as int),
                removed@.len() == i,
                forall|j: int| 0 <= j < i ==> #[trigger] removed@[j] == cse_removed(orig, j),
                forall|j: int| i <= j < n ==> ops@[j] == orig[j],
                forall|j: int| 0 <= j < i ==> renamed(#[trigger] ops@[j], orig[j], resolver(cse_state(orig, j).alias, n as nat), same_slot()),
                changed == exists|j: int| 0 <= j < i && #[trigger] cse_removed(orig, j),
            decreases n - i,
        {
            let ghost st = cse_state(orig, i as int);
            let op = take_op(ops, i);
            let op = rename_op(op, &alias, n, false);
            proof {
                lemma_key_after_rename(op, orig[i as int], resolver(alias@, n as nat));
            }
            let mut rem = false;
            match &op {
                Op::LoadConst { target, value } => {
                    if idx.contains(*target) {
                        if last_const(&consts, value).is_none() {
                            consts.push((value.duplicate(), *target));
                        }
                    } else {
                        match last_const(&consts, value) {
                            Some(e) => {
                                alias.push((*target, e));
                                rem = true;
                            },
                            None => {
                                consts.push((value.duplicate(), *target));
                            },
                        }
                    }
                    proof {
                        assert(const_views(consts@) =~= cse_step(st, orig[i as int], idx.view(), n as nat).0.consts);
                    }
                },
                _ => {
                    match pure_key_of(&op) {
                        Some((key, t)) => {
                            if idx.contains(t) {
                                exprs.push((key, t));
                            } else {
                                match last_expr(&exprs, key) {
                                    Some(e) => {
                                        alias.push((t, e));
                                        rem = true;
                                    },
                                    None => {
                                        exprs.push((key, t));
                                    },
                                }
                            }
                        },
                        None => {},
                    }
                    if is_cse_boundary(&op) {
                        exprs = Vec::new();
                    }
                },
            }
            if rem {
                changed = true;
            }
            removed.push(rem);
            ops.set(i, op);
            proof {
                assert((CseState { alias: alias@, exprs: exprs@, consts: const_views(consts@) }) =~= cse_state(orig, i as int + 1));
                assert(rem == cse_removed(orig, i as int));
            }
            i += 1;
        }
        let ghost mid = ops@;
        let ghost fin = resolver(alias@, n as nat);
        let mut out: Vec<Op> = Vec::new();
        let mut k: usize = 0;
        while k < n
            invariant
                k <= n,
                n == orig.len(),
                ops@.len() == n,
                removed@.len() == n,
                forall|j: int| 0 <= j < n ==> #[trigger] removed@[j] == cse_removed(orig, j),
                forall|j: int| k <= j < n ==> ops@[j] == mid[j],
                forall|j: int| 0 <= j < n ==> renamed(#[trigger] mid[j], orig[j], resolver(cse_state(orig, j).alias, n as nat), same_slot()),
                fin == resolver(cse_state(orig, n as int).alias, n as nat),
                fin == resolver(alias@, n as nat),
                out@.len() == cse_kept(orig, k as int).len(),
                forall|p: int| 0 <= p < out@.len() ==>
                    renamed(#[trigger] out@[p], orig[cse_kept(orig, k as int)[p]],
                        resolver(cse_state(orig, cse_kept(orig, k as int)[p]).alias, n as nat), fin),
            decreases n - k,
        {
            if !removed[k] {
                let op = take_op(ops, k);
                let op2 = rename_op(op, &alias, n, true);
                proof {
                    lemma_renamed_compose(op2, mid[k as int], orig[k as int],
                        resolver(cse_state(orig, k as int).alias, n as nat), fin);
                }
                out.push(op2);
            }
            k += 1;
        }
        *ops = out;
        changed
    }
}

/// What common subexpression elimination makes of `a`.
pub open spec fn cse_done(a: Seq<Op>, b: Seq<Op>, changed: bool) -> bool {
    &&& cse_result(b, a)
    &&& changed == exists|i: int| 0 <= i < a.len() && #[trigger] cse_removed(a, i)
}

impl Pass for CommonSubexpressionElimination {
    open spec fn effect(&self, before: Seq<Op>, after: Seq<Op>, changed: bool) -> bool {
        cse_done(before, after, changed)
    }

    fn name(&self) -> &'static str {
        "cse"
    }

    fn run(&mut self, ops: &mut Vec<Op>) -> (changed: bool)
        ensures
            cse_result(final(ops)@, old(ops)@),
            changed == exists|i: int| 0 <= i < old(ops)@.len() && #[trigger] cse_removed(old(ops)@, i),
    {
        proof { lemma_kept_len(old(ops)@, old(ops)@.len() as int); }
        let ghost o = ops@;
        let c = self.eliminate(ops);
        proof { lemma_cse_slots(o, ops@); }
        c
    }
}

proof fn lemma_kept_len(ops: Seq<Op>, n: int)
    requires
        0 <= n,
    ensures
        cse_kept(ops, n).len() <= n,
    decreases n,
{
    if n > 0 {
        lemma_kept_len(ops, n - 1);
    }
}

/// A binding found by `last_binding` is one of the list's entries.
proof fn lemma_last_binding_in<K, V>(s: Seq<(K, V)>, k: K)
    ensures
        last_binding(s, k) matches Some(v) ==> exists|i: int| 0 <= i < s.len() && #[trigger] s[i].1 == v,
    decreases s.len(),
{
    if s.len() > 0 && s.last().0 != k {
        lemma_last_binding_in(s.drop_last(), k);
        if last_binding(s, k) is Some {
            let v = last_binding(s, k)->0;
            let i = choose|i: int| 0 <= i < s.drop_last().len() && #[trigger] s.drop_last()[i].1 == v;
            assert(s[i].1 == v);
        }
    } else if s.len() > 0 {
        assert(s[s.len() - 1].1 == s.last().1);
    }
}

/// Every slot the scan state refers to is named in the list.
pub open spec fn cse_state_within(st: CseState, ops: Seq<Op>) -> bool {
    &&& forall|i: int| 0 <= i < st.alias.len() ==> mentions(ops, #[trigger] st.alias[i].1)
    &&& forall|i: int| 0 <= i < st.exprs.len() ==> mentions(ops, #[trigger] st.exprs[i].1)
    &&& forall|i: int| 0 <= i < st.consts.len() ==> mentions(ops, #[trigger] st.consts[i].1)
}

/// The target of a pure instruction is the slot it defines.
proof fn lemma_pure_key_defines(op: Op, f: spec_fn(Slot) -> Slot)
    ensures
        pure_key(op, f) matches Some((key, t)) ==> op_defines(op) == Some(t),
{
    lemma_bin_parts_defines(op);
}

/// The scan state refers only to slots named in the list.
proof fn lemma_cse_state_within(ops: Seq<Op>, n: int)
    requires
        0 <= n <= ops.len(),
    ensures
        cse_state_within(cse_state(ops, n), ops),
    decreases n,
{
    if n > 0 {
        lemma_cse_state_within(ops, n - 1);
        let st = cse_state(ops, n - 1);
        let op = ops[n - 1];
        let f = resolver(st.alias, ops.len() as nat);
        let st1 = cse_state(ops, n);
        assert(st1 == cse_step(st, op, index_slots(ops), ops.len() as nat).0);
        lemma_last_binding_in(st.consts, op_const_key(op));
        lemma_pure_key_defines(op, f);
        match pure_key(op, f) {
            Some((key, t)) => { lemma_last_binding_in(st.exprs, key); },
            None => {},
        }
        match op_defines(op) {
            Some(d) => {
                let k = op_uses(op).len() as int;
                assert(op_slots(op)[k] == d);
                lemma_slots_of_member(ops, n - 1, k);
            },
            None => {},
        }
        assert forall|i: int| 0 <= i < st1.alias.len() implies mentions(ops, #[trigger] st1.alias[i].1) by {
            if i < st.alias.len() {
                assert(st1.alias[i] == st.alias[i]);
            }
        }
        assert forall|i: int| 0 <= i < st1.exprs.len() implies mentions(ops, #[trigger] st1.exprs[i].1) by {
            if i < st.exprs.len() {
                assert(st1.exprs[i] == st.exprs[i]);
            }
        }
        assert forall|i: int| 0 <= i < st1.consts.len() implies mentions(ops, #[trigger] st1.consts[i].1) by {
            if i < st.consts.len() {
                assert(st1.consts[i] == st.consts[i]);
            }
        }
    }
}

/// The constant a `LoadConst` loads (anything for other instructions).
pub open spec fn op_const_key(op: Op) -> ConstVal {
    match op {
        Op::LoadConst { value, .. } => value@,
        _ => ConstVal::Null,
    }
}

/// Resolving a named slot through aliases to named slots gives a named slot.
proof fn lemma_resolve_within(ops: Seq<Op>, al: Seq<(Slot, Slot)>, s: Slot, fuel: nat)
    requires
        mentions(ops, s),
        forall|i: int| 0 <= i < al.len() ==> mentions(ops, #[trigger] al[i].1),
    ensures
        mentions(ops, resolve(al, s, fuel)),
    decreases fuel,
{
    if fuel > 0 {
        lemma_last_binding_in(al, s);
        match last_binding(al, s) {
            Some(a) => {
                if a != s {
                    let i = choose|i: int| 0 <= i < al.len() && #[trigger] al[i].1 == a;
                    lemma_resolve_within(ops, al, a, (fuel - 1) as nat);
                }
            },
            None => {},
        }
    }
}

/// The resolver of a scan state maps named slots to named slots.
proof fn lemma_resolver_within(ops: Seq<Op>, n: int)
    requires
        0 <= n <= ops.len(),
    ensures
        renames_within(resolver(cse_state(ops, n).alias, ops.len() as nat), ops),
{
    lemma_cse_state_within(ops, n);
    assert forall|s: Slot| #[trigger] mentions(ops, s) implies
        mentions(ops, resolver(cse_state(ops, n).alias, ops.len() as nat)(s)) by {
        lemma_resolve_within(ops, cse_state(ops, n).alias, s, ops.len() as nat);
    }
}

/// Renaming an instruction keeps each slot, or renames it by `f2` or by `f2` after `f1`.
proof fn lemma_renamed_positions(new: Op, old: Op, f1: spec_fn(Slot) -> Slot, f2: spec_fn(Slot) -> Slot)
    requires
        renamed(new, old, f1, f2),
    ensures
        op_slots(new).len() == op_slots(old).len(),
        forall|j: int| 0 <= j < op_slots(new).len() ==>
            #[trigger] op_slots(new)[j] == op_slots(old)[j] || op_slots(new)[j] == f2(op_slots(old)[j])
                || op_slots(new)[j] == f2(f1(op_slots(old)[j])),
{
    match old {
        Op::Call { target, func, args } => {
            match new {
                Op::Call { target: t2, func: fn2, args: a2 } => {
                    assert forall|j: int| 0 <= j < op_slots(new).len() implies
                        #[trigger] op_slots(new)[j] == op_slots(old)[j] || op_slots(new)[j] == f2(op_slots(old)[j])
                            || op_slots(new)[j] == f2(f1(op_slots(old)[j])) by {
                        if 1 <= j < 1 + args@.len() {
                            assert(op_slots(new)[j] == a2@[j - 1]);
                            assert(op_slots(old)[j] == args@[j - 1]);
                        }
                    }
                },
                _ => {},
            }
        },
        _ => {},
    }
}

/// The kept indices are positions of the list, in range.
proof fn lemma_kept_in_range(ops: Seq<Op>, n: int)
    requires
        0 <= n <= ops.len(),
    ensures
        forall|p: int| 0 <= p < cse_kept(ops, n).len() ==> 0 <= #[trigger] cse_kept(ops, n)[p] < n,
    decreases n,
{
    if n > 0 {
        lemma_kept_in_range(ops, n - 1);
        let a = cse_kept(ops, n - 1);
        assert forall|p: int| 0 <= p < cse_kept(ops, n).len() implies 0 <= #[trigger] cse_kept(ops, n)[p] < n by {
            if cse_removed(ops, n - 1) {
                assert(cse_kept(ops, n) == a);
                assert(0 <= a[p] < n - 1);
            } else {
                assert(cse_kept(ops, n) == a.push(n - 1));
                if p < a.len() {
                    assert(cse_kept(ops, n)[p] == a[p]);
                    assert(0 <= a[p] < n - 1);
                }
            }
        }
    }
}

/// The pass names no slot that the list did not name.
proof fn lemma_cse_slots(old: Seq<Op>, new: Seq<Op>)
    requires
        cse_result(new, old),
    ensures
        slots_within(new, old),
{
    lemma_kept_in_range(old, old.len() as int);
    assert forall|i: int, j: int| 0 <= i < new.len() && 0 <= j < op_slots(new[i]).len()
        implies mentions(old, #[trigger] op_slots(new[i])[j]) by {
        lemma_cse_slot_at(old, new, i, j);
    }
    lemma_slots_within(new, old);
}

/// A slot of a renamed instruction of the list is named in the list.
proof fn lemma_renamed_slot(old: Seq<Op>, op: Op, k: int, f1: spec_fn(Slot) -> Slot, f2: spec_fn(Slot) -> Slot, j: int)
    requires
        0 <= k < old.len(),
        renamed(op, old[k], f1, f2),
        renames_within(f1, old),
        renames_within(f2, old),
        0 <= j < op_slots(op).len(),
    ensures
        mentions(old, op_slots(op)[j]),
{
    lemma_renamed_positions(op, old[k], f1, f2);
    lemma_slots_of_member(old, k, j);
    let x = op_slots(old[k])[j];
    assert(mentions(old, f2(x)));
    assert(mentions(old, f1(x)));
    assert(mentions(old, f2(f1(x))));
}

/// One slot of the pass's result is named in the list.
proof fn lemma_cse_slot_at(old: Seq<Op>, new: Seq<Op>, i: int, j: int)
    requires
        cse_result(new, old),
        forall|p: int| 0 <= p < cse_kept(old, old.len() as int).len()
            ==> 0 <= #[trigger] cse_kept(old, old.len() as int)[p] < old.len(),
        0 <= i < new.len(),
        0 <= j < op_slots(new[i]).len(),
    ensures
        mentions(old, op_slots(new[i])[j]),
{
    let kept = cse_kept(old, old.len() as int);
    let fin = resolver(cse_state(old, old.len() as int).alias, old.len() as nat);
    let k = kept[i];
    let f1 = resolver(cse_state(old, k).alias, old.len() as nat);
    assert(renamed(new[i], old[k], f1, fin));
    lemma_resolver_within(old, old.len() as int);
    lemma_resolver_within(old, k);
    lemma_renamed_slot(old, new[i], k, f1, fin, j);
}

} // verus!
