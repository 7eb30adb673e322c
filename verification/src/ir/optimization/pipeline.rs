//! The optimization pipeline: runs its passes in order, round after round, until a
//! round changes nothing or the round limit is reached.
use vstd::prelude::*;
use crate::ir::op::Op;
use crate::ir::optimization::pass::{Pass, slots_within, lemma_slots_within_trans};
use crate::ir::optimization::passes::constant_folding::folded;
use crate::ir::optimization::passes::sccp::sccp_done;
use crate::ir::optimization::passes::const_prop::propagated;
use crate::ir::optimization::passes::copy_prop::copies_propagated;
use crate::ir::optimization::passes::cse::cse_done;
use crate::ir::optimization::passes::dce::dce_done;
use crate::ir::optimization::passes::{
    CommonSubexpressionElimination, ConstantFolding, ConstantPropagation, CopyPropagation,
    DeadCodeElim, SparseConditionalConstantProp,
};

verus! {

pub struct Pipeline {
    passes: Vec<Box<dyn Pass>>,
    pub max_iterations: usize,
}

impl Pipeline {
    /// The number of passes.
    pub closed spec fn pass_count(&self) -> nat {
        self.passes@.len()
    }

    /// The passes, in the order they run.
    pub closed spec fn pass_seq(&self) -> Seq<Box<dyn Pass>> {
        self.passes@
    }

    /// The round limit.
    pub closed spec fn limit(&self) -> usize {
        self.max_iterations
    }

    /// An empty pipeline running at most 5 rounds.
    pub fn new() -> (r: Self)
        ensures
            r.pass_count() == 0,
            r.pass_seq() == Seq::<Box<dyn Pass>>::empty(),
            r.limit() == 5,
    {
        Pipeline { passes: Vec::new(), max_iterations: 5 }
    }

    /// The default pipeline: constant folding, SCCP, constant propagation, copy
    /// propagation, CSE, DCE.
    pub fn with_default_passes() -> (r: Self)
        ensures
            r.pass_count() == 6,
            r.limit() == 5,
    {
        let mut p = Self::new();
        p.add_pass(Box::new(ConstantFolding::new()));
        p.add_pass(Box::new(SparseConditionalConstantProp::new()));
        p.add_pass(Box::new(ConstantPropagation::new()));
        p.add_pass(Box::new(CopyPropagation::new()));
        p.add_pass(Box::new(CommonSubexpressionElimination::new()));
        p.add_pass(Box::new(DeadCodeElim::new()));
        p
    }

    /// Appends a pass.
    pub fn add_pass(&mut self, pass: Box<dyn Pass>)
        ensures
            final(self).limit() == old(self).limit(),
            final(self).pass_count() == old(self).pass_count() + 1,
            final(self).pass_seq() == old(self).pass_seq().push(pass),
    {
        let ghost pre = self.passes@;
        self.passes.push(pass);
        proof {
            assert(self.passes@ == pre.push(pass));
            vstd::seq::axiom_seq_push_len(pre, pass);
        }
    }

    /// Runs the passes in order, round after round, until a round in which no pass
    /// reports a change, or until `max_iterations` rounds have run; returns the
    /// number of rounds run. The list never grows.
    pub fn run(&mut self, ops: &mut Vec<Op>) -> (rounds: usize)
        ensures
            pipeline_ran(old(self).pass_seq(), old(self).limit() as nat, old(ops)@, final(ops)@, rounds as nat),
            final(ops)@.len() <= old(ops)@.len(),
            slots_within(final(ops)@, old(ops)@),
            rounds <= old(self).limit(),
            old(self).limit() > 0 ==> rounds >= 1,
            final(self).limit() == old(self).limit(),
            final(self).pass_count() == old(self).pass_count(),
            same_effects(final(self).pass_seq(), old(self).pass_seq()),
    {
        let ghost a = ops@;
        let ghost p0 = self.passes@;
        let ghost mut prev: Seq<Op> = a;
        let mut iter: usize = 0;
        let mut stop = false;
        proof { lemma_pipeline_rounds_zero(p0, a); }
        while iter < self.max_iterations && !stop
            invariant
                iter <= self.max_iterations,
                self.max_iterations == old(self).max_iterations,
                p0 == old(self).passes@,
                a == old(ops)@,
                same_effects(self.passes@, p0),
                !stop ==> pipeline_changed_rounds(p0, a, ops@, iter as nat),
                !stop && iter > 0 ==> pipeline_changed_rounds(p0, a, prev, (iter - 1) as nat)
                    && pipeline_round(p0, prev, ops@, true),
                stop ==> iter >= 1 && pipeline_changed_rounds(p0, a, prev, (iter - 1) as nat)
                    && pipeline_round(p0, prev, ops@, false),
                ops@.len() <= a.len(),
                slots_within(ops@, a),
            decreases self.max_iterations - iter,
        {
            let ghost before = ops@;
            let mut any_changed = false;
            let mut k: usize = 0;
            let ghost mut xs: Seq<Seq<Op>> = seq![before];
            let ghost mut cs: Seq<bool> = Seq::empty();
            while k < self.passes.len()
                invariant
                    k <= self.passes@.len(),
                    p0 == old(self).passes@,
                    same_effects(self.passes@, p0),
                    self.max_iterations == old(self).max_iterations,
                    ops@.len() <= old(ops)@.len(),
                    slots_within(ops@, old(ops)@),
                    xs.len() == k + 1,
                    cs.len() == k,
                    xs[0] == before,
                    xs[k as int] == ops@,
                    forall|j: int| 0 <= j < k ==> #[trigger] p0[j].effect(xs[j], xs[j + 1], cs[j]),
                    any_changed == exists|j: int| 0 <= j < k && cs[j],
                decreases self.passes@.len() - k,
            {
                let ghost mid = ops@;
                let ghost ps = self.passes@;
                let ghost old_cs = cs;
                let ghost was = any_changed;
                let changed = self.passes[k].run(ops);
                proof {
                    lemma_slots_within_trans(ops@, mid, old(ops)@);
                    assert(ps[k as int].effect(mid, ops@, changed));
                    assert(p0[k as int].effect(mid, ops@, changed));
                    xs = xs.push(ops@);
                    cs = cs.push(changed);
                    assert forall|j: int| 0 <= j < k + 1 implies #[trigger] p0[j].effect(xs[j], xs[j + 1], cs[j]) by {
                        if j < k {
                            assert(xs[j] == xs.drop_last()[j] && xs[j + 1] == xs.drop_last()[j + 1]);
                        }
                    }
                    assert forall|j: int, x: Seq<Op>, y: Seq<Op>, c: bool| 0 <= j < self.passes@.len()
                        implies #[trigger] self.passes@[j].effect(x, y, c) == p0[j].effect(x, y, c) by {
                        if j != k {
                            assert(self.passes@[j] == ps[j]);
                        }
                    }
                }
                if changed {
                    any_changed = true;
                }
                proof {
                    assert(cs[k as int] == changed);
                    if was {
                        let j = choose|j: int| 0 <= j < k && old_cs[j];
                        assert(cs[j] == old_cs[j]);
                    }
                    if !any_changed {
                        assert forall|j: int| 0 <= j < k + 1 implies !cs[j] by {
                            if j < k { assert(cs[j] == old_cs[j]); }
                        }
                    }
                }
                k += 1;
            }
            proof {
                assert(pass_chain(p0, xs, cs, before, ops@));
            }
            iter += 1;
            if !any_changed {
                stop = true;
                proof {
                    prev = before;
                }
            } else {
                proof {
                    lemma_pipeline_rounds_step(p0, a, before, ops@, (iter - 1) as nat);
                    prev = before;
                }
            }
        }
        proof {
            if !stop && iter > 0 {
                assert(iter == self.max_iterations);
            }
        }
        iter
    }
}

/// Every pass of `new` is described by the same `effect` as the pass at its place
/// in `old`.
pub open spec fn same_effects(new: Seq<Box<dyn Pass>>, old: Seq<Box<dyn Pass>>) -> bool {
    &&& new.len() == old.len()
    &&& forall|j: int, x: Seq<Op>, y: Seq<Op>, c: bool| 0 <= j < new.len()
        ==> #[trigger] new[j].effect(x, y, c) == old[j].effect(x, y, c)
}

/// `xs` lists the lists that the passes go through in one round from `a` to `b`,
/// each pass taking the previous one's output, and `cs` the flags they report.
pub open spec fn pass_chain(passes: Seq<Box<dyn Pass>>, xs: Seq<Seq<Op>>, cs: Seq<bool>, a: Seq<Op>, b: Seq<Op>) -> bool {
    &&& xs.len() == passes.len() + 1
    &&& cs.len() == passes.len()
    &&& xs[0] == a
    &&& xs[passes.len() as int] == b
    &&& forall|k: int| 0 <= k < passes.len() ==> #[trigger] passes[k].effect(xs[k], xs[k + 1], cs[k])
}

/// One round of the passes, in order, takes `a` to `b`; `changed` says whether any
/// pass reported a change.
pub open spec fn pipeline_round(passes: Seq<Box<dyn Pass>>, a: Seq<Op>, b: Seq<Op>, changed: bool) -> bool {
    exists|xs: Seq<Seq<Op>>, cs: Seq<bool>| #[trigger] pass_chain(passes, xs, cs, a, b)
        && changed == exists|k: int| 0 <= k < cs.len() && cs[k]
}

/// `xs` lists the lists that `n` rounds of the passes went through from `a` to `b`,
/// each round reporting a change.
pub open spec fn pipeline_trace(passes: Seq<Box<dyn Pass>>, xs: Seq<Seq<Op>>, a: Seq<Op>, b: Seq<Op>, n: nat) -> bool {
    &&& xs.len() == n + 1
    &&& xs[0] == a
    &&& xs[n as int] == b
    &&& forall|i: int| 0 <= i < n ==> pipeline_round(passes, #[trigger] xs[i], xs[i + 1], true)
}

/// `n` rounds of the passes, each reporting a change, take `a` to `b`.
pub open spec fn pipeline_changed_rounds(passes: Seq<Box<dyn Pass>>, a: Seq<Op>, b: Seq<Op>, n: nat) -> bool {
    exists|xs: Seq<Seq<Op>>| #[trigger] pipeline_trace(passes, xs, a, b, n)
}

/// A pipeline with a round limit of `limit` takes `a` to `b` in `rounds` rounds: with
/// no rounds allowed nothing changes; otherwise every round but the last reported a
/// change, and the last one reported none or was the `limit`-th.
pub open spec fn pipeline_ran(passes: Seq<Box<dyn Pass>>, limit: nat, a: Seq<Op>, b: Seq<Op>, rounds: nat) -> bool {
    if limit == 0 {
        rounds == 0 && b == a
    } else {
        &&& 1 <= rounds <= limit
        &&& exists|x: Seq<Op>| #[trigger] pipeline_changed_rounds(passes, a, x, (rounds - 1) as nat) && {
            ||| pipeline_round(passes, x, b, false)
            ||| rounds == limit && pipeline_round(passes, x, b, true)
        }
    }
}

proof fn lemma_pipeline_rounds_zero(passes: Seq<Box<dyn Pass>>, a: Seq<Op>)
    ensures
        pipeline_changed_rounds(passes, a, a, 0),
{
    assert(pipeline_trace(passes, seq![a], a, a, 0));
}

proof fn lemma_pipeline_rounds_step(passes: Seq<Box<dyn Pass>>, a: Seq<Op>, x: Seq<Op>, b: Seq<Op>, n: nat)
    requires
        pipeline_changed_rounds(passes, a, x, n),
        pipeline_round(passes, x, b, true),
    ensures
        pipeline_changed_rounds(passes, a, b, n + 1),
{
    let xs = choose|xs: Seq<Seq<Op>>| #[trigger] pipeline_trace(passes, xs, a, x, n);
    let ys = xs.push(b);
    assert forall|i: int| 0 <= i < n + 1 implies pipeline_round(passes, #[trigger] ys[i], ys[i + 1], true) by {
        if i < n {
            assert(ys[i] == xs[i] && ys[i + 1] == xs[i + 1]);
        } else {
            assert(ys[i] == x && ys[i + 1] == b);
        }
    }
    assert(pipeline_trace(passes, ys, a, b, n + 1));
}

/// One round of the default passes through the intermediate lists `x1`..`x5`, with
/// the flag each pass reported.
pub open spec fn round_steps(
    a: Seq<Op>, x1: Seq<Op>, x2: Seq<Op>, x3: Seq<Op>, x4: Seq<Op>, x5: Seq<Op>, b: Seq<Op>,
    c: (bool, bool, bool, bool, bool, bool),
) -> bool {
    &&& folded(a, x1, c.0)
    &&& sccp_done(x1, x2, c.1)
    &&& propagated(x2, x3, c.2)
    &&& copies_propagated(x3, x4, c.3)
    &&& cse_done(x4, x5, c.4)
    &&& dce_done(x5, b, c.5)
}

/// One round of the default passes, in order, takes `a` to `b`; `changed` says
/// whether any pass reported a change.
#[verifier::opaque]
pub open spec fn default_round(a: Seq<Op>, b: Seq<Op>, changed: bool) -> bool {
    exists|x1: Seq<Op>, x2: Seq<Op>, x3: Seq<Op>, x4: Seq<Op>, x5: Seq<Op>,
        c: (bool, bool, bool, bool, bool, bool)|
        #[trigger] round_steps(a, x1, x2, x3, x4, x5, b, c)
            && changed == (c.0 || c.1 || c.2 || c.3 || c.4 || c.5)
}

/// `xs` lists the lists that `n` rounds of the default passes went through from `a`
/// to `b`, each round reporting a change.
pub open spec fn round_trace(xs: Seq<Seq<Op>>, a: Seq<Op>, b: Seq<Op>, n: nat) -> bool {
    &&& xs.len() == n + 1
    &&& xs[0] == a
    &&& xs[n as int] == b
    &&& forall|i: int| 0 <= i < n ==> default_round(#[trigger] xs[i], xs[i + 1], true)
}

/// `n` rounds of the default passes, each of which reported a change, take `a` to `b`.
pub open spec fn changed_rounds(a: Seq<Op>, b: Seq<Op>, n: nat) -> bool {
    exists|xs: Seq<Seq<Op>>| #[trigger] round_trace(xs, a, b, n)
}

/// No rounds leave the list as it is.
proof fn lemma_changed_rounds_zero(a: Seq<Op>)
    ensures
        changed_rounds(a, a, 0),
{
    assert(round_trace(seq![a], a, a, 0));
}

/// A further round that changed something extends a run of changed rounds.
proof fn lemma_changed_rounds_step(a: Seq<Op>, x: Seq<Op>, b: Seq<Op>, n: nat)
    requires
        changed_rounds(a, x, n),
        default_round(x, b, true),
    ensures
        changed_rounds(a, b, n + 1),
{
    let xs = choose|xs: Seq<Seq<Op>>| #[trigger] round_trace(xs, a, x, n);
    let ys = xs.push(b);
    assert forall|i: int| 0 <= i < n + 1 implies default_round(#[trigger] ys[i], ys[i + 1], true) by {
        if i < n {
            assert(ys[i] == xs[i] && ys[i + 1] == xs[i + 1]);
        } else {
            assert(ys[i] == x && ys[i + 1] == b);
        }
    }
    assert(round_trace(ys, a, b, n + 1));
}

/// The default pipeline takes `a` to `b`: rounds run while they change something, at
/// most five of them; the last round run is the first that changed nothing, or the
/// fifth.
pub open spec fn default_optimized(a: Seq<Op>, b: Seq<Op>) -> bool {
    ||| exists|k: nat, x: Seq<Op>| k < 5 && #[trigger] changed_rounds(a, x, k) && default_round(x, b, false)
    ||| changed_rounds(a, b, 5)
}

/// Runs one round of the default passes; returns whether any pass changed the list.
fn run_default_round(ops: &mut Vec<Op>) -> (changed: bool)
    ensures
        default_round(old(ops)@, final(ops)@, changed),
        final(ops)@.len() <= old(ops)@.len(),
        slots_within(final(ops)@, old(ops)@),
{
    let ghost a = ops@;
    let c0 = ConstantFolding::new().run(ops);
    let ghost x1 = ops@;
    let c1 = SparseConditionalConstantProp::new().run(ops);
    let ghost x2 = ops@;
    let c2 = ConstantPropagation::new().run(ops);
    let ghost x3 = ops@;
    let c3 = CopyPropagation::new().run(ops);
    let ghost x4 = ops@;
    let c4 = CommonSubexpressionElimination::new().run(ops);
    let ghost x5 = ops@;
    let c5 = DeadCodeElim::new().run(ops);
    proof {
        assert(round_steps(a, x1, x2, x3, x4, x5, ops@, (c0, c1, c2, c3, c4, c5)));
        reveal(default_round);
        lemma_slots_within_trans(x2, x1, a);
        lemma_slots_within_trans(x3, x2, a);
        lemma_slots_within_trans(x4, x3, a);
        lemma_slots_within_trans(x5, x4, a);
        lemma_slots_within_trans(ops@, x5, a);
    }
    c0 || c1 || c2 || c3 || c4 || c5
}

/// Runs the default pipeline on the list: constant folding, SCCP, constant
/// propagation, copy propagation, CSE and DCE, round after round, until a round
/// changes nothing or five rounds have run.
pub fn optimize_ops_default(ops: &mut Vec<Op>)
    ensures
        default_optimized(old(ops)@, final(ops)@),
        final(ops)@.len() <= old(ops)@.len(),
        slots_within(final(ops)@, old(ops)@),
{
    let ghost a = ops@;
    let mut iter: usize = 0;
    proof {
        lemma_changed_rounds_zero(a);
    }
    while iter < 5
        invariant
            iter <= 5,
            a == old(ops)@,
            changed_rounds(a, ops@, iter as nat),
            ops@.len() <= a.len(),
            slots_within(ops@, a),
        ensures
            default_optimized(a, ops@),
            ops@.len() <= a.len(),
            slots_within(ops@, a),
        decreases 5 - iter,
    {
        let ghost before = ops@;
        let changed = run_default_round(ops);
        proof { lemma_slots_within_trans(ops@, before, a); }
        if !changed {
            proof {
                assert(changed_rounds(a, before, iter as nat) && default_round(before, ops@, false));
            }
            return;
        }
        proof {
            lemma_changed_rounds_step(a, before, ops@, iter as nat);
        }
        iter += 1;
    }
}

} // verus!
