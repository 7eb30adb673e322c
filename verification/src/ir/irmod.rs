//! Lowering of the syntax tree to the register-based IR: stages become labelled
//! regions, control flow becomes labels and branches that are patched to label
//! indices once the whole script is lowered.
use vstd::prelude::*;
use crate::ast::kind::{AstNodeKind, BinaryOperator, UnaryOperator};
use crate::ast::node::{AstNode, node_size, list_size, lemma_list_size};
use crate::ir::irop::{
    IROp, Value, irop_regs, is_branch, branch_target, is_label_named, is_label,
    branches_land_on_labels, calls_land_on_labels,
};
use crate::text::{push_str, push_usize_decimal, nat_digits};
use crate::ir::lowered::{
    LowerState, ScopeView, OpView, op_view, ops_view, s_reg, s_reg_or, s_emit, s_label, s_branch,
    s_fresh_label, s_bind, s_local_index, with_scope, scope_get, scope_len, find_from,
    pos_from, lookup, lookup_from, last_label_from, lw, lw_each, lw_args, lw_elems, lw_list, lw_const,
    lw_params, lw_stage, lw_if, lw_if_else, lw_while, lw_for_to, lw_for_in, lw_in_list, lw_in_general,
    lw_assign, lw_return, lw_binary, lw_unary, lw_call, lw_stages, lw_script, workspace_named_from,
    workspace_from, entry_workspace, label_before, retarget, patch_code, patched,
};
use crate::ir::valview::{value_view, values_view, lemma_values_view_push};

verus! {

/// An upper bound on the registers and labels that lowering a tree allocates.
pub open spec fn lower_cost(n: AstNode) -> nat
    decreases n, 0nat,
{
    16 + match n.kind {
        AstNodeKind::Script { body } => list_cost(body@),
        AstNodeKind::Workspace { body, .. } => lower_cost(*body),
        AstNodeKind::Stage { body, .. } => lower_cost(*body),
        AstNodeKind::Block { statements } => list_cost(statements@),
        AstNodeKind::If { condition, body } => lower_cost(*condition) + lower_cost(*body),
        AstNodeKind::IfElse { condition, if_body, else_body } =>
            lower_cost(*condition) + lower_cost(*if_body) + lower_cost(*else_body),
        AstNodeKind::ForIn { iterable, body, .. } => match (*iterable).kind {
            AstNodeKind::List { elements } => list_cost(elements@) + elements@.len() * lower_cost(*body),
            _ => lower_cost(*iterable) + lower_cost(*body),
        },
        AstNodeKind::ForTo { initializer, limit, body } =>
            lower_cost(*initializer) + lower_cost(*limit) + lower_cost(*body),
        AstNodeKind::While { condition, body } => lower_cost(*condition) + lower_cost(*body),
        AstNodeKind::UnaryOp { expr, .. } => lower_cost(*expr),
        AstNodeKind::BinaryOp { left, right, .. } => lower_cost(*left) + lower_cost(*right),
        AstNodeKind::Assignment { value, .. } => lower_cost(*value),
        AstNodeKind::Call { callee, args } => lower_cost(*callee) + list_cost(args@),
        AstNodeKind::Return { value } => match value {
            Some(v) => lower_cost(*v),
            None => 0,
        },
        AstNodeKind::List { elements } => list_cost(elements@),
        _ => 0,
    }
}

/// The summed cost of a list of trees.
pub open spec fn list_cost(s: Seq<AstNode>) -> nat
    decreases s, s.len(),
{
    if s.len() == 0 { 0 } else { lower_cost(s[0]) + list_cost(s.drop_first()) }
}

proof fn lemma_list_cost(s: Seq<AstNode>, i: int)
    requires
        0 <= i < s.len(),
    ensures
        lower_cost(s[i]) <= list_cost(s),
        list_cost(s.subrange(0, i)) + lower_cost(s[i]) <= list_cost(s),
        list_cost(s.subrange(0, i + 1)) == list_cost(s.subrange(0, i)) + lower_cost(s[i]),
    decreases s.len(),
{
    if i > 0 {
        lemma_list_cost(s.drop_first(), i - 1);
        assert(s.subrange(0, i).drop_first() =~= s.drop_first().subrange(0, i - 1));
        assert(s.subrange(0, i + 1).drop_first() =~= s.drop_first().subrange(0, i));
        assert(s.subrange(0, i)[0] == s[0]);
        assert(s.subrange(0, i + 1)[0] == s[0]);
        assert(s.drop_first()[i - 1] == s[i]);
        assert(list_cost(s.subrange(0, i)) == lower_cost(s[0]) + list_cost(s.drop_first().subrange(0, i - 1)));
        assert(list_cost(s.subrange(0, i + 1)) == lower_cost(s[0]) + list_cost(s.drop_first().subrange(0, i)));
    } else {
        assert(list_cost(s.subrange(0, 0)) == 0);
        assert(s.subrange(0, 1).drop_first().len() == 0);
        assert(list_cost(s.subrange(0, 1).drop_first()) == 0);
        assert(s.subrange(0, 1)[0] == s[0]);
        assert(list_cost(s.subrange(0, 1)) == lower_cost(s[0]) + list_cost(s.subrange(0, 1).drop_first()));
    }
}

/// Whether some instruction is a label named `name`.
pub open spec fn has_label(ops: Seq<IROp>, name: Seq<char>) -> bool {
    exists|i: int| 0 <= i < ops.len() && is_label_named(#[trigger] ops[i], name)
}

/// The name of the `n`-th internal label.
pub open spec fn internal_label(n: usize) -> Seq<char> {
    "L_internal_"@ + nat_digits(n as nat)
}

/// A scope of locals by what it binds.
pub open spec fn scope_view(sc: Seq<(String, usize)>) -> ScopeView {
    sc.map_values(|e: (String, usize)| (e.0@, e.1))
}

/// The scopes of locals by what they bind.
pub open spec fn scopes_view(scopes: Seq<Vec<(String, usize)>>) -> Seq<ScopeView> {
    scopes.map_values(|sc: Vec<(String, usize)>| scope_view(sc@))
}

/// A module of lowered instructions with the state of lowering: register and
/// label counters, scopes of locals, pending branch relocations, and the
/// declared functions and objects.
#[derive(Debug)]
pub struct IrModule {
    pub ops: Vec<IROp>,
    next_reg: usize,
    locals: Vec<Vec<(String, usize)>>,
    label_counter: usize,
    relocations: Vec<(usize, String)>,
    stage_labels: Vec<(String, usize)>,
    next_id: u32,
    functions: Vec<(String, u32)>,
    objects: Vec<(String, u32)>,
    labels: Vec<(String, usize)>,
    unresolved_branches: Vec<(usize, String)>,
}

impl IrModule {
    /// The instructions.
    pub closed spec fn code(&self) -> Seq<IROp> {
        self.ops@
    }

    /// The next id to hand out.
    pub closed spec fn id_counter(&self) -> u32 {
        self.next_id
    }

    /// The declared functions by name.
    pub closed spec fn function_names(&self) -> Map<Seq<char>, u32> {
        names_of(self.functions@)
    }

    /// The declared objects by name.
    pub closed spec fn object_names(&self) -> Map<Seq<char>, u32> {
        names_of(self.objects@)
    }

    /// The next register to allocate.
    pub closed spec fn reg_count(&self) -> usize {
        self.next_reg
    }

    /// The number of internal labels made so far.
    pub closed spec fn label_count(&self) -> usize {
        self.label_counter
    }

    /// The pending relocations: branch index and label name.
    pub closed spec fn relocs(&self) -> Seq<(usize, Seq<char>)> {
        self.relocations@.map_values(|r: (usize, String)| (r.0, r.1@))
    }

    /// The label positions recorded by `emit_op`, by name, latest last.
    pub closed spec fn label_table(&self) -> Seq<(Seq<char>, usize)> {
        self.labels@.map_values(|r: (String, usize)| (r.0@, r.1))
    }

    /// The branches recorded for patching: instruction index and label name.
    pub closed spec fn pending(&self) -> Seq<(usize, Seq<char>)> {
        self.unresolved_branches@.map_values(|r: (usize, String)| (r.0, r.1@))
    }

    /// The label positions by name, latest last.
    pub closed spec fn label_positions(&self) -> Seq<(Seq<char>, usize)> {
        self.stage_labels@.map_values(|r: (String, usize)| (r.0@, r.1))
    }

    /// The state of lowering, by what it holds.
    pub closed spec fn ls(&self) -> LowerState {
        LowerState {
            code: ops_view(self.ops@),
            next_reg: self.next_reg,
            scopes: scopes_view(self.locals@),
            next_label: self.label_counter,
            relocs: self.relocs(),
            labels: self.label_positions(),
        }
    }

    /// What the lowering state holds of the module.
    pub proof fn lemma_ls(&self)
        ensures
            self.ls().code == ops_view(self.code()),
            self.ls().next_reg == self.reg_count(),
            self.ls().next_label == self.label_count(),
            self.ls().relocs == self.relocs(),
            self.ls().labels == self.label_positions(),
    {
    }

    /// The lowering state is consistent: registers are allocated, every branch has
    /// a relocation and is still unpatched, relocations point at branches, and
    /// recorded labels and direct calls point at labels.
    pub closed spec fn lowering_ok(&self) -> bool {
        let ops = self.ops@;
        &&& forall|i: int, j: int| 0 <= i < ops.len() && 0 <= j < irop_regs(ops[i]).len()
            ==> #[trigger] irop_regs(ops[i])[j] < self.next_reg
        &&& forall|k: int| 0 <= k < self.relocations@.len()
            ==> (#[trigger] self.relocations@[k]).0 < ops.len() && is_branch(ops[self.relocations@[k].0 as int])
        &&& forall|i: int| 0 <= i < ops.len() && is_branch(#[trigger] ops[i])
            ==> exists|k: int| 0 <= k < self.relocations@.len() && (#[trigger] self.relocations@[k]).0 == i
        &&& forall|i: int| 0 <= i < ops.len() && is_branch(#[trigger] ops[i]) ==> branch_target(ops[i]) == 0
        &&& forall|k: int| 0 <= k < self.stage_labels@.len()
            ==> (#[trigger] self.stage_labels@[k]).1 < ops.len()
                && is_label_named(ops[self.stage_labels@[k].1 as int], self.stage_labels@[k].0@)
        &&& calls_land_on_labels(ops)
    }

    /// Every relocation names a label that is in the list.
    pub closed spec fn relocs_have_labels(&self) -> bool {
        forall|k: int| 0 <= k < self.relocations@.len() ==> has_label(self.ops@, (#[trigger] self.relocations@[k]).1@)
    }

    /// The two modules agree on everything but their instructions.
    pub closed spec fn same_but_code(&self, other: &IrModule) -> bool {
        &&& self.next_reg == other.next_reg
        &&& self.locals == other.locals
        &&& self.label_counter == other.label_counter
        &&& self.relocations == other.relocations
        &&& self.stage_labels == other.stage_labels
        &&& self.next_id == other.next_id
        &&& self.functions == other.functions
        &&& self.objects == other.objects
        &&& self.labels == other.labels
        &&& self.unresolved_branches == other.unresolved_branches
    }

    /// The two modules agree on everything but their instructions and label positions.
    pub closed spec fn same_but_code_and_labels(&self, other: &IrModule) -> bool {
        &&& self.next_reg == other.next_reg
        &&& self.locals == other.locals
        &&& self.label_counter == other.label_counter
        &&& self.relocations == other.relocations
        &&& self.next_id == other.next_id
        &&& self.functions == other.functions
        &&& self.objects == other.objects
        &&& self.labels == other.labels
        &&& self.unresolved_branches == other.unresolved_branches
    }

    /// Agreement on everything but the instructions implies agreement on
    /// everything but the instructions and label positions.
    pub proof fn lemma_same_but_code_weaken(a: &IrModule, b: &IrModule)
        requires
            a.same_but_code(b),
        ensures
            a.same_but_code_and_labels(b),
    {
    }

    /// Agreement on everything but the instructions and label positions is transitive.
    pub proof fn lemma_same_but_code_and_labels_trans(a: &IrModule, b: &IrModule, c: &IrModule)
        requires
            a.same_but_code_and_labels(b),
            b.same_but_code_and_labels(c),
        ensures
            a.same_but_code_and_labels(c),
    {
    }

    /// Puts `v` in place of the label positions and hands back the old ones.
    pub fn replace_stage_labels(&mut self, v: Vec<(String, usize)>) -> (r: Vec<(String, usize)>)
        ensures
            r@.map_values(|e: (String, usize)| (e.0@, e.1)) == old(self).label_positions(),
            final(self).label_positions() == v@.map_values(|e: (String, usize)| (e.0@, e.1)),
            final(self).code() == old(self).code(),
            final(self).same_but_code_and_labels(old(self)),
    {
        let mut v = v;
        std::mem::swap(&mut v, &mut self.stage_labels);
        v
    }

    /// Agreement on everything but the instructions is transitive.
    pub proof fn lemma_same_but_code_trans(a: &IrModule, b: &IrModule, c: &IrModule)
        requires
            a.same_but_code(b),
            b.same_but_code(c),
        ensures
            a.same_but_code(c),
    {
    }

    /// Puts `ops` in place of the instructions and hands back the old ones.
    pub fn replace_ops(&mut self, ops: Vec<IROp>) -> (r: Vec<IROp>)
        ensures
            r@ == old(self).code(),
            final(self).code() == ops@,
            final(self).same_but_code(old(self)),
            final(self).label_positions() == old(self).label_positions(),
    {
        let mut ops = ops;
        std::mem::swap(&mut ops, &mut self.ops);
        ops
    }

    /// An empty module.
    pub fn new() -> (r: Self)
        ensures
            r.code().len() == 0,
            r.reg_count() == 0,
            r.label_count() == 0,
            r.lowering_ok(),
            r.relocs_have_labels(),
            r.ls() == (LowerState {
                code: Seq::empty(),
                next_reg: 0,
                scopes: Seq::empty(),
                next_label: 0,
                relocs: Seq::empty(),
                labels: Seq::empty(),
            }),
    {
        let r = IrModule {
            ops: Vec::new(),
            next_reg: 0,
            locals: Vec::new(),
            label_counter: 0,
            relocations: Vec::new(),
            stage_labels: Vec::new(),
            next_id: 1,
            functions: Vec::new(),
            objects: Vec::new(),
            labels: Vec::new(),
            unresolved_branches: Vec::new(),
        };
        proof {
            assert(ops_view(r.ops@) =~= Seq::empty());
            assert(scopes_view(r.locals@) =~= Seq::empty());
            assert(r.relocs() =~= Seq::empty());
            assert(r.label_positions() =~= Seq::empty());
        }
        r
    }

    fn fresh_reg(&mut self) -> (r: usize)
        requires
            old(self).next_reg < usize::MAX,
            old(self).lowering_ok(),
        ensures
            r == old(self).next_reg,
            final(self).next_reg == old(self).next_reg + 1,
            final(self).ops == old(self).ops,
            final(self).relocations == old(self).relocations,
            final(self).stage_labels == old(self).stage_labels,
            final(self).label_counter == old(self).label_counter,
            final(self).lowering_ok(),
            final(self).locals == old(self).locals,
    {
        let r = self.next_reg;
        self.next_reg = self.next_reg + 1;
        proof {
            let ops = self.ops@;
            assert(ops == old(self).ops@);
            assert(self.relocations@ == old(self).relocations@);
            assert(self.stage_labels@ == old(self).stage_labels@);
            assert forall|i: int, j: int| 0 <= i < ops.len() && 0 <= j < irop_regs(ops[i]).len()
                implies #[trigger] irop_regs(ops[i])[j] < self.next_reg by {
                assert(irop_regs(ops[i])[j] < old(self).next_reg);
            }
        }
        r
    }

    /// Appends an instruction that is neither a label nor a branch.
    fn push_plain(&mut self, op: IROp)
        requires
            old(self).lowering_ok(),
            !is_branch(op),
            !(op is Label),
            forall|j: int| 0 <= j < irop_regs(op).len() ==> #[trigger] irop_regs(op)[j] < old(self).next_reg,
            op is CallLabel ==> op->CallLabel_label_index < old(self).ops@.len()
                && is_label(old(self).ops@[op->CallLabel_label_index as int]),
        ensures
            final(self).ops@ == old(self).ops@.push(op),
            final(self).next_reg == old(self).next_reg,
            final(self).relocations == old(self).relocations,
            final(self).stage_labels == old(self).stage_labels,
            final(self).label_counter == old(self).label_counter,
            final(self).lowering_ok(),
            final(self).locals == old(self).locals,
    {
        let ghost o = self.ops@;
        self.ops.push(op);
        proof {
            let ops = self.ops@;
            assert forall|i: int| 0 <= i < ops.len() && is_branch(#[trigger] ops[i])
                implies exists|k: int| 0 <= k < self.relocations@.len() && (#[trigger] self.relocations@[k]).0 == i by {
                assert(i < o.len());
                assert(ops[i] == o[i]);
                assert(is_branch(old(self).ops@[i]));
                let k = choose|k: int| 0 <= k < old(self).relocations@.len() && (#[trigger] old(self).relocations@[k]).0 == i;
                assert(self.relocations@[k].0 == i);
            }
            assert forall|i: int| 0 <= i < ops.len() && (#[trigger] ops[i] is CallLabel)
                implies ops[i]->CallLabel_label_index < ops.len() && is_label(ops[ops[i]->CallLabel_label_index as int]) by {
                if i < o.len() {
                    assert(ops[i] == o[i]);
                }
            }
            assert forall|i: int, j: int| 0 <= i < ops.len() && 0 <= j < irop_regs(ops[i]).len()
                implies #[trigger] irop_regs(ops[i])[j] < self.next_reg by {
                if i < o.len() { assert(ops[i] == o[i]); }
            }
        }
    }

    /// Appends a label and records its position.
    fn emit_label(&mut self, name: String)
        requires
            old(self).lowering_ok(),
        ensures
            final(self).ops@ == old(self).ops@.push(IROp::Label { name }),
            final(self).next_reg == old(self).next_reg,
            final(self).relocations == old(self).relocations,
            final(self).stage_labels@ == old(self).stage_labels@.push((name, old(self).ops@.len() as usize)),
            final(self).label_counter == old(self).label_counter,
            final(self).lowering_ok(),
            has_label(final(self).ops@, name@),
            final(self).locals == old(self).locals,
    {
        let ghost o = self.ops@;
        let pos = self.ops.len();
        let n2 = name.clone();
        self.ops.push(IROp::Label { name });
        self.stage_labels.push((n2, pos));
        proof {
            let ops = self.ops@;
            assert(is_label_named(ops[pos as int], n2@));
            assert forall|i: int| 0 <= i < ops.len() && is_branch(#[trigger] ops[i])
                implies exists|k: int| 0 <= k < self.relocations@.len() && (#[trigger] self.relocations@[k]).0 == i by {
                assert(ops[i] == o[i]);
                assert(is_branch(old(self).ops@[i]));
                let k = choose|k: int| 0 <= k < old(self).relocations@.len() && (#[trigger] old(self).relocations@[k]).0 == i;
                assert(self.relocations@[k].0 == i);
            }
            assert forall|i: int| 0 <= i < ops.len() && (#[trigger] ops[i] is CallLabel)
                implies ops[i]->CallLabel_label_index < ops.len() && is_label(ops[ops[i]->CallLabel_label_index as int]) by {
                assert(ops[i] == o[i]);
            }
            assert forall|i: int, j: int| 0 <= i < ops.len() && 0 <= j < irop_regs(ops[i]).len()
                implies #[trigger] irop_regs(ops[i])[j] < self.next_reg by {
                if i < o.len() { assert(ops[i] == o[i]); }
            }
            assert forall|k: int| 0 <= k < self.stage_labels@.len()
                implies (#[trigger] self.stage_labels@[k]).1 < ops.len()
                    && is_label_named(ops[self.stage_labels@[k].1 as int], self.stage_labels@[k].0@) by {
                if k < old(self).stage_labels@.len() {
                    assert(self.stage_labels@[k] == old(self).stage_labels@[k]);
                }
            }
        }
    }

    /// Appends an unpatched jump (`kind` 0), false-branch (1) or true-branch (2) on
    /// `cond`, and records its relocation to `label`.
    fn emit_branch(&mut self, kind: u8, cond: usize, label: String)
        requires
            old(self).lowering_ok(),
            kind != 0 ==> cond < old(self).next_reg,
        ensures
            final(self).ops@ == old(self).ops@.push(
                if kind == 0 {
                    IROp::Jump { target: 0 }
                } else if kind == 1 {
                    IROp::BrFalse { cond, target: 0 }
                } else {
                    IROp::BrTrue { cond, target: 0 }
                },
            ),
            final(self).ops@.len() == old(self).ops@.len() + 1,
            final(self).ops@.subrange(0, old(self).ops@.len() as int) == old(self).ops@,
            final(self).next_reg == old(self).next_reg,
            final(self).relocations@ == old(self).relocations@.push((old(self).ops@.len() as usize, label)),
            final(self).stage_labels == old(self).stage_labels,
            final(self).label_counter == old(self).label_counter,
            final(self).lowering_ok(),
            final(self).locals == old(self).locals,
    {
        let ghost o = self.ops@;
        let pos = self.ops.len();
        let op = if kind == 0 {
            IROp::Jump { target: 0 }
        } else if kind == 1 {
            IROp::BrFalse { cond, target: 0 }
        } else {
            IROp::BrTrue { cond, target: 0 }
        };
        self.ops.push(op);
        self.relocations.push((pos, label));
        proof {
            let ops = self.ops@;
            assert(ops.subrange(0, o.len() as int) =~= o);
            assert forall|i: int| 0 <= i < ops.len() && is_branch(#[trigger] ops[i])
                implies exists|k: int| 0 <= k < self.relocations@.len() && (#[trigger] self.relocations@[k]).0 == i by {
                if i < o.len() {
                    assert(ops[i] == o[i]);
                    let k = choose|k: int| 0 <= k < old(self).relocations@.len() && (#[trigger] old(self).relocations@[k]).0 == i;
                    assert(self.relocations@[k] == old(self).relocations@[k]);
                } else {
                    assert(self.relocations@[old(self).relocations@.len() as int].0 == i);
                }
            }
            assert forall|k: int| 0 <= k < self.relocations@.len()
                implies (#[trigger] self.relocations@[k]).0 < ops.len() && is_branch(ops[self.relocations@[k].0 as int]) by {
                if k < old(self).relocations@.len() {
                    assert(self.relocations@[k] == old(self).relocations@[k]);
                    assert(ops[self.relocations@[k].0 as int] == o[self.relocations@[k].0 as int]);
                }
            }
            assert forall|i: int| 0 <= i < ops.len() && (#[trigger] ops[i] is CallLabel)
                implies ops[i]->CallLabel_label_index < ops.len() && is_label(ops[ops[i]->CallLabel_label_index as int]) by {
                assert(ops[i] == o[i]);
            }
            assert forall|i: int, j: int| 0 <= i < ops.len() && 0 <= j < irop_regs(ops[i]).len()
                implies #[trigger] irop_regs(ops[i])[j] < self.next_reg by {
                if i < o.len() { assert(ops[i] == o[i]); }
            }
            assert forall|k: int| 0 <= k < self.stage_labels@.len()
                implies (#[trigger] self.stage_labels@[k]).1 < ops.len()
                    && is_label_named(ops[self.stage_labels@[k].1 as int], self.stage_labels@[k].0@) by {
                assert(ops[self.stage_labels@[k].1 as int] == o[self.stage_labels@[k].1 as int]);
            }
        }
    }

    /// A fresh internal label name.
    fn new_label(&mut self) -> (r: String)
        requires
            old(self).label_counter < usize::MAX,
        ensures
            r@ == internal_label(old(self).label_counter),
            final(self).label_counter == old(self).label_counter + 1,
            final(self).ops == old(self).ops,
            final(self).next_reg == old(self).next_reg,
            final(self).relocations == old(self).relocations,
            final(self).stage_labels == old(self).stage_labels,
            final(self).locals == old(self).locals,
    {
        let n = self.label_counter;
        self.label_counter = self.label_counter + 1;
        let mut s = String::new();
        push_str(&mut s, "L_internal_");
        push_usize_decimal(&mut s, n);
        s
    }
}


/// Lowering step `new` came from `old` by appending: instructions, relocations and
/// label positions only grow, counters only rise.
pub open spec fn lowering_extends(new: &IrModule, old: &IrModule) -> bool {
    &&& old.code().len() <= new.code().len()
    &&& new.code().subrange(0, old.code().len() as int) == old.code()
    &&& old.reg_count() <= new.reg_count()
    &&& old.label_count() <= new.label_count()
    &&& old.relocs().len() <= new.relocs().len()
    &&& new.relocs().subrange(0, old.relocs().len() as int) == old.relocs()
    &&& old.label_positions().len() <= new.label_positions().len()
    &&& new.label_positions().subrange(0, old.label_positions().len() as int) == old.label_positions()
}

/// Every relocation added after the first `from` names a label in the list.
pub open spec fn new_relocs_labelled(m: &IrModule, from: nat) -> bool {
    forall|k: int| from <= k < m.relocs().len() ==> has_label(m.code(), (#[trigger] m.relocs()[k]).1)
}

proof fn lemma_label_persists(small: Seq<IROp>, big: Seq<IROp>, name: Seq<char>)
    requires
        small.len() <= big.len(),
        big.subrange(0, small.len() as int) == small,
        has_label(small, name),
    ensures
        has_label(big, name),
{
    let i = choose|i: int| 0 <= i < small.len() && is_label_named(#[trigger] small[i], name);
    assert(big[i] == small[i]);
}

proof fn lemma_extends_trans(a: &IrModule, b: &IrModule, c: &IrModule)
    requires
        lowering_extends(b, a),
        lowering_extends(c, b),
    ensures
        lowering_extends(c, a),
{
    assert(c.code().subrange(0, a.code().len() as int) =~= b.code().subrange(0, a.code().len() as int));
    assert(c.relocs().subrange(0, a.relocs().len() as int) =~= b.relocs().subrange(0, a.relocs().len() as int));
    assert(c.label_positions().subrange(0, a.label_positions().len() as int)
        =~= b.label_positions().subrange(0, a.label_positions().len() as int));
}

proof fn lemma_labelled_trans(a: &IrModule, b: &IrModule, c: &IrModule)
    requires
        lowering_extends(b, a),
        lowering_extends(c, b),
        new_relocs_labelled(b, a.relocs().len()),
        new_relocs_labelled(c, b.relocs().len()),
    ensures
        new_relocs_labelled(c, a.relocs().len()),
{
    assert forall|k: int| a.relocs().len() <= k < c.relocs().len() implies has_label(c.code(), (#[trigger] c.relocs()[k]).1) by {
        if k < b.relocs().len() {
            assert(c.relocs()[k] == c.relocs().subrange(0, b.relocs().len() as int)[k]);
            assert(b.relocs()[k] == c.relocs()[k]);
            lemma_label_persists(b.code(), c.code(), c.relocs()[k].1);
        }
    }
}

proof fn lemma_extends_refl(a: &IrModule)
    ensures
        lowering_extends(a, a),
        new_relocs_labelled(a, a.relocs().len()),
{
    assert(a.code().subrange(0, a.code().len() as int) =~= a.code());
    assert(a.relocs().subrange(0, a.relocs().len() as int) =~= a.relocs());
    assert(a.label_positions().subrange(0, a.label_positions().len() as int) =~= a.label_positions());
}

impl IrModule {
    /// Makes sure there is a scope of locals.
    fn ensure_scope(&mut self)
        ensures
            final(self).ls() == (LowerState { scopes: with_scope(old(self).ls().scopes), ..old(self).ls() }),
            final(self).locals@.len() >= 1,
            final(self).ops == old(self).ops,
            final(self).next_reg == old(self).next_reg,
            final(self).label_counter == old(self).label_counter,
            final(self).relocations == old(self).relocations,
            final(self).stage_labels == old(self).stage_labels,
    {
        if self.locals.len() == 0 {
            let e: Vec<(String, usize)> = Vec::new();
            self.locals.push(e);
            proof {
                assert(scope_view(self.locals@[0]@) =~= Seq::<(Seq<char>, usize)>::empty());
                assert(scopes_view(self.locals@) =~= seq![Seq::<(Seq<char>, usize)>::empty()]);
            }
        }
    }

    /// The index of `name` in the innermost scope.
    fn scope_get(&self, name: &String) -> (r: Option<usize>)
        ensures
            r == scope_get(self.ls().scopes, name@),
    {
        if self.locals.len() == 0 {
            return None;
        }
        let sc = &self.locals[self.locals.len() - 1];
        let ghost v = scope_view(sc@);
        assert(self.ls().scopes.last() == v);
        let mut j: usize = 0;
        while j < sc.len()
            invariant
                j <= sc@.len(),
                v == scope_view(sc@),
                find_from(v, name@, 0) == find_from(v, name@, j as int),
                self.ls().scopes.len() > 0,
                self.ls().scopes.last() == v,
            decreases sc@.len() - j,
        {
            proof { assert(v[j as int] == (sc@[j as int].0@, sc@[j as int].1)); }
            if sc[j].0 == *name {
                return Some(sc[j].1);
            }
            j += 1;
        }
        None
    }

    /// Binds `name` to `idx` in the innermost scope, replacing an earlier binding.
    fn scope_set(&mut self, name: String, idx: usize)
        ensures
            final(self).ls() == s_bind(old(self).ls(), name@, idx),
            final(self).ops == old(self).ops,
            final(self).next_reg == old(self).next_reg,
            final(self).label_counter == old(self).label_counter,
            final(self).relocations == old(self).relocations,
            final(self).stage_labels == old(self).stage_labels,
    {
        proof { reveal(s_bind); }
        self.ensure_scope();
        let ghost w = self.ls().scopes;
        let ghost rest = self.locals@.drop_last();
        let mut sc = match self.locals.pop() {
            Some(v) => v,
            None => Vec::new(),
        };
        let ghost v = scope_view(sc@);
        proof {
            assert(w.last() == v);
            assert(scopes_view(rest) =~= w.drop_last());
        }
        let mut j: usize = 0;
        let mut at: Option<usize> = None;
        while j < sc.len()
            invariant
                j <= sc@.len(),
                v == scope_view(sc@),
                match at {
                    Some(p) => p < sc@.len() && pos_from(v, name@, 0) == Some(p as int),
                    None => pos_from(v, name@, 0) == pos_from(v, name@, j as int),
                },
            decreases sc@.len() - j,
        {
            if at.is_none() && sc[j].0 == name {
                at = Some(j);
            }
            j += 1;
        }
        let ghost nm = name@;
        match at {
            Some(p) => {
                sc.set(p, (name, idx));
                proof { assert(scope_view(sc@) =~= v.update(p as int, (nm, idx))); }
            },
            None => {
                sc.push((name, idx));
                proof { assert(scope_view(sc@) =~= v.push((nm, idx))); }
            },
        }
        self.locals.push(sc);
        proof {
            assert(self.locals@ == rest.push(sc));
            assert(scopes_view(self.locals@) =~= w.drop_last().push(scope_view(sc@)));
            assert(with_scope(w) == w);
        }
    }

    /// The number of locals of the innermost scope.
    fn scope_len(&self) -> (r: usize)
        ensures
            r == scope_len(self.ls().scopes),
    {
        if self.locals.len() == 0 {
            0
        } else {
            self.locals[self.locals.len() - 1].len()
        }
    }

    /// The index of `name` in the innermost scope, binding it to a new index first
    /// when it has none.
    fn scope_get_or_insert(&mut self, name: &String) -> (r: usize)
        ensures
            final(self).ls() == s_local_index(old(self).ls(), name@).0,
            r == s_local_index(old(self).ls(), name@).1,
            final(self).ops == old(self).ops,
            final(self).next_reg == old(self).next_reg,
            final(self).label_counter == old(self).label_counter,
            final(self).relocations == old(self).relocations,
            final(self).stage_labels == old(self).stage_labels,
    {
        proof { reveal(s_local_index); reveal(s_bind); }
        self.ensure_scope();
        match self.scope_get(name) {
            Some(i) => i,
            None => {
                let ni = self.scope_len();
                self.scope_set(name.clone(), ni);
                ni
            },
        }
    }

    /// The index of `name` in the innermost scope that binds it.
    fn lookup_local(&self, name: &String) -> (r: Option<usize>)
        ensures
            r == lookup(self.ls().scopes, name@),
    {
        let ghost all = self.ls().scopes;
        let mut s = self.locals.len();
        while s > 0
            invariant
                s <= self.locals@.len(),
                all == self.ls().scopes,
                lookup(all, name@) == lookup_from(all, name@, s as int),
            decreases s,
        {
            let sc = &self.locals[s - 1];
            let ghost v = scope_view(sc@);
            assert(all[s - 1] == v);
            let mut j: usize = 0;
            while j < sc.len()
                invariant
                    j <= sc@.len(),
                    v == scope_view(sc@),
                    find_from(v, name@, 0) == find_from(v, name@, j as int),
                    0 < s <= all.len(),
                    all[s - 1] == v,
                    all == self.ls().scopes,
                    lookup(all, name@) == lookup_from(all, name@, s as int),
                decreases sc@.len() - j,
            {
                proof { assert(v[j as int] == (sc@[j as int].0@, sc@[j as int].1)); }
                if sc[j].0 == *name {
                    return Some(sc[j].1);
                }
                j += 1;
            }
            s -= 1;
        }
        None
    }

    /// The position recorded last for label `name`.
    fn stage_label_of(&self, name: &String) -> (r: Option<usize>)
        requires
            self.lowering_ok(),
        ensures
            r == last_label_from(self.ls().labels, name@, self.ls().labels.len() as int),
            match r {
                Some(p) => p < self.ops@.len() && is_label(self.ops@[p as int]),
                None => true,
            },
    {
        let ghost all = self.ls().labels;
        let mut j = self.stage_labels.len();
        while j > 0
            invariant
                j <= self.stage_labels@.len(),
                self.lowering_ok(),
                all == self.ls().labels,
                all.len() == self.stage_labels@.len(),
                last_label_from(all, name@, all.len() as int) == last_label_from(all, name@, j as int),
            decreases j,
        {
            if self.stage_labels[j - 1].0 == *name {
                let p = self.stage_labels[j - 1].1;
                proof {
                    let e = self.stage_labels@[j - 1];
                    assert(e.1 < self.ops@.len() && is_label_named(self.ops@[e.1 as int], e.0@));
                }
                return Some(p);
            }
            j -= 1;
        }
        None
    }
}


proof fn lemma_no_new_relocs(b: &IrModule, a: &IrModule)
    requires
        a.relocs() == b.relocs(),
    ensures
        new_relocs_labelled(b, a.relocs().len()),
{
}

/// `m` came from `s0` by lowering steps whose relocations all name labels in `m`.
pub open spec fn progress(m: &IrModule, s0: &IrModule) -> bool {
    &&& m.lowering_ok()
    &&& lowering_extends(m, s0)
    &&& new_relocs_labelled(m, s0.relocs().len())
}

proof fn lemma_chain(a: &IrModule, b: &IrModule, c: &IrModule)
    requires
        progress(b, a),
        c.lowering_ok(),
        lowering_extends(c, b),
        new_relocs_labelled(c, b.relocs().len()),
    ensures
        progress(c, a),
{
    lemma_extends_trans(a, b, c);
    lemma_labelled_trans(a, b, c);
}

proof fn lemma_start(a: &IrModule)
    requires
        a.lowering_ok(),
    ensures
        progress(a, a),
{
    lemma_extends_refl(a);
}

/// A step that adds no relocation keeps progress from `g`.
proof fn lemma_step(g: &IrModule, b: &IrModule, c: &IrModule)
    requires
        progress(b, g),
        c.lowering_ok(),
        lowering_extends(c, b),
        c.relocs() == b.relocs(),
    ensures
        progress(c, g),
{
    lemma_no_new_relocs(c, b);
    lemma_chain(g, b, c);
}

/// Labels persist along progress.
proof fn lemma_keeps_label(a: &IrModule, c: &IrModule, name: Seq<char>)
    requires
        lowering_extends(c, a),
        has_label(a.code(), name),
    ensures
        has_label(c.code(), name),
{
    lemma_label_persists(a.code(), c.code(), name);
}

/// `b` added one branch to `pre`; once `c` holds the branch's label, `c` has made
/// progress from `a`.
proof fn lemma_close(a: &IrModule, pre: &IrModule, b: &IrModule, c: &IrModule)
    requires
        progress(pre, a),
        lowering_extends(b, pre),
        b.relocs().len() == pre.relocs().len() + 1,
        progress(c, b),
        has_label(c.code(), b.relocs()[pre.relocs().len() as int].1),
    ensures
        progress(c, a),
{
    lemma_extends_trans(pre, b, c);
    lemma_extends_trans(a, pre, c);
    assert forall|j: int| a.relocs().len() <= j < c.relocs().len() implies has_label(c.code(), (#[trigger] c.relocs()[j]).1) by {
        if j < b.relocs().len() {
            assert(c.relocs()[j] == c.relocs().subrange(0, b.relocs().len() as int)[j]);
            assert(c.relocs()[j] == b.relocs()[j]);
            if j < pre.relocs().len() {
                assert(b.relocs()[j] == b.relocs().subrange(0, pre.relocs().len() as int)[j]);
                assert(b.relocs()[j] == pre.relocs()[j]);
                lemma_label_persists(pre.code(), c.code(), pre.relocs()[j].1);
            }
        }
    }
}

impl IrModule {
    proof fn lemma_scope_step(new: &IrModule, old: &IrModule, g: &IrModule)
        requires
            new.ops == old.ops,
            new.next_reg == old.next_reg,
            new.label_counter == old.label_counter,
            new.relocations == old.relocations,
            new.stage_labels == old.stage_labels,
            progress(old, g),
        ensures
            progress(new, g),
            new.reg_count() == old.reg_count(),
            new.label_count() == old.label_count(),
            new.code() == old.code(),
    {
        lemma_extends_refl(old);
        lemma_step(g, old, new);
    }

    /// The register `r`, or a fresh one.
    fn reg_or_fresh(&mut self, r: Option<usize>, Ghost(g): Ghost<IrModule>) -> (x: usize)
        requires
            progress(&*old(self), &g),
            old(self).next_reg < usize::MAX,
            match r { Some(v) => v < old(self).next_reg, None => true },
        ensures
            progress(&*final(self), &g),
            lowering_extends(&*final(self), &*old(self)),
            final(self).relocs() == old(self).relocs(),
            final(self).label_count() == old(self).label_count(),
            x < final(self).next_reg,
            final(self).next_reg <= old(self).next_reg + 1,
            final(self).ls() == s_reg_or(old(self).ls(), r).0,
            x == s_reg_or(old(self).ls(), r).1,
    {
        match r {
            Some(v) => {
                proof { lemma_extends_refl(&*self); }
                v
            },
            None => self.reg(Ghost(g)),
        }
    }

    /// Appends a plain instruction (see `push_plain`), as a lowering step.
    fn emit(&mut self, op: IROp, Ghost(g): Ghost<IrModule>)
        requires
            progress(&*old(self), &g),
            !is_branch(op),
            !(op is Label),
            forall|j: int| 0 <= j < irop_regs(op).len() ==> #[trigger] irop_regs(op)[j] < old(self).next_reg,
            op is CallLabel ==> op->CallLabel_label_index < old(self).ops@.len()
                && is_label(old(self).ops@[op->CallLabel_label_index as int]),
        ensures
            progress(&*final(self), &g),
            lowering_extends(&*final(self), &*old(self)),
            final(self).relocs() == old(self).relocs(),
            final(self).code() == old(self).code().push(op),
            final(self).reg_count() == old(self).reg_count(),
            final(self).label_count() == old(self).label_count(),
            final(self).ls() == s_emit(old(self).ls(), op_view(op)),
    {
        proof { reveal(s_emit); }
        let ghost vo = op_view(op);
        self.push_plain(op);
        proof {
            assert(ops_view(self.ops@) =~= ops_view(old(self).ops@).push(vo));
            assert(self.ops@.subrange(0, old(self).ops@.len() as int) =~= old(self).ops@);
            assert(self.relocs() =~= old(self).relocs());
            assert(self.label_positions() =~= old(self).label_positions());
            assert(self.relocs().subrange(0, old(self).relocs().len() as int) =~= old(self).relocs());
            assert(self.label_positions().subrange(0, old(self).label_positions().len() as int) =~= old(self).label_positions());
            lemma_step(&g, &*old(self), &*self);
        }
    }

    /// Appends a label, as a lowering step.
    fn label(&mut self, name: String, Ghost(g): Ghost<IrModule>)
        requires
            progress(&*old(self), &g),
        ensures
            progress(&*final(self), &g),
            lowering_extends(&*final(self), &*old(self)),
            final(self).relocs() == old(self).relocs(),
            final(self).reg_count() == old(self).reg_count(),
            final(self).label_count() == old(self).label_count(),
            has_label(final(self).code(), name@),
            final(self).ls() == s_label(old(self).ls(), name@),
    {
        proof { reveal(s_label); }
        let ghost nm = name@;
        self.emit_label(name);
        proof {
            assert(ops_view(self.ops@) =~= ops_view(old(self).ops@).push(OpView::Label { name: nm }));
            assert(self.label_positions() =~= old(self).label_positions().push((nm, old(self).ops@.len() as usize)));
            assert(self.ops@.subrange(0, old(self).ops@.len() as int) =~= old(self).ops@);
            assert(self.relocs() =~= old(self).relocs());
            assert(self.relocs().subrange(0, old(self).relocs().len() as int) =~= old(self).relocs());
            assert(self.label_positions().subrange(0, old(self).label_positions().len() as int) =~= old(self).label_positions());
            lemma_step(&g, &*old(self), &*self);
        }
    }

    /// Appends an unpatched branch to `label`, as a lowering step.
    fn branch(&mut self, kind: u8, cond: usize, label: String)
        requires
            old(self).lowering_ok(),
            kind != 0 ==> cond < old(self).next_reg,
        ensures
            final(self).lowering_ok(),
            lowering_extends(&*final(self), &*old(self)),
            final(self).relocs().len() == old(self).relocs().len() + 1,
            final(self).relocs()[old(self).relocs().len() as int].1 == label@,
            final(self).reg_count() == old(self).reg_count(),
            final(self).label_count() == old(self).label_count(),
            final(self).ls() == s_branch(old(self).ls(), kind, cond, label@),
    {
        proof { reveal(s_branch); }
        let ghost lb = label@;
        self.emit_branch(kind, cond, label);
        proof {
            let op = if kind == 0 {
                IROp::Jump { target: 0 }
            } else if kind == 1 {
                IROp::BrFalse { cond, target: 0 }
            } else {
                IROp::BrTrue { cond, target: 0 }
            };
            assert(ops_view(self.ops@) =~= ops_view(old(self).ops@).push(op_view(op)));
            assert(self.relocs() =~= old(self).relocs().push((old(self).ops@.len() as usize, lb)));
            assert(self.relocs().subrange(0, old(self).relocs().len() as int) =~= old(self).relocs());
            assert(self.label_positions() =~= old(self).label_positions());
            assert(self.label_positions().subrange(0, old(self).label_positions().len() as int) =~= old(self).label_positions());
        }
    }

    /// A fresh internal label name, as a lowering step.
    fn fresh_label(&mut self, Ghost(g): Ghost<IrModule>) -> (r: String)
        requires
            progress(&*old(self), &g),
            old(self).label_counter < usize::MAX,
        ensures
            progress(&*final(self), &g),
            lowering_extends(&*final(self), &*old(self)),
            final(self).relocs() == old(self).relocs(),
            final(self).code() == old(self).code(),
            final(self).reg_count() == old(self).reg_count(),
            final(self).label_count() == old(self).label_count() + 1,
            final(self).ls() == s_fresh_label(old(self).ls()).0,
            r@ == s_fresh_label(old(self).ls()).1,
    {
        proof { reveal(s_fresh_label); }
        let r = self.new_label();
        proof {
            lemma_extends_refl(&*old(self));
            assert(self.relocs() =~= old(self).relocs());
            assert(self.label_positions() =~= old(self).label_positions());
            lemma_step(&g, &*old(self), &*self);
        }
        r
    }

    /// A fresh register, as a lowering step.
    fn reg(&mut self, Ghost(g): Ghost<IrModule>) -> (r: usize)
        requires
            progress(&*old(self), &g),
            old(self).next_reg < usize::MAX,
        ensures
            progress(&*final(self), &g),
            lowering_extends(&*final(self), &*old(self)),
            final(self).relocs() == old(self).relocs(),
            final(self).code() == old(self).code(),
            r == old(self).next_reg,
            final(self).reg_count() == old(self).reg_count() + 1,
            final(self).label_count() == old(self).label_count(),
            final(self).ls() == s_reg(old(self).ls()).0,
            r == s_reg(old(self).ls()).1,
    {
        proof { reveal(s_reg); }
        let r = self.fresh_reg();
        proof {
            lemma_extends_refl(&*old(self));
            assert(self.relocs() =~= old(self).relocs());
            assert(self.label_positions() =~= old(self).label_positions());
            lemma_step(&g, &*old(self), &*self);
        }
        r
    }

    /// Binds `name` to `idx` in the innermost scope, as a lowering step.
    fn bind(&mut self, name: String, idx: usize, Ghost(g): Ghost<IrModule>)
        requires
            progress(&*old(self), &g),
        ensures
            final(self).ls() == s_bind(old(self).ls(), name@, idx),
            progress(&*final(self), &g),
            lowering_extends(&*final(self), &*old(self)),
            final(self).relocs() == old(self).relocs(),
            final(self).code() == old(self).code(),
            final(self).reg_count() == old(self).reg_count(),
            final(self).label_count() == old(self).label_count(),
    {
        self.scope_set(name, idx);
        proof {
            IrModule::lemma_scope_step(&*self, &*old(self), &g);
            lemma_extends_refl(&*old(self));
            assert(self.relocs() =~= old(self).relocs());
            assert(self.label_positions() =~= old(self).label_positions());
        }
    }

    /// The index of `name` in the innermost scope, bound to a new index if needed.
    fn local_index(&mut self, name: &String, Ghost(g): Ghost<IrModule>) -> (r: usize)
        requires
            progress(&*old(self), &g),
        ensures
            final(self).ls() == s_local_index(old(self).ls(), name@).0,
            r == s_local_index(old(self).ls(), name@).1,
            progress(&*final(self), &g),
            lowering_extends(&*final(self), &*old(self)),
            final(self).relocs() == old(self).relocs(),
            final(self).code() == old(self).code(),
            final(self).reg_count() == old(self).reg_count(),
            final(self).label_count() == old(self).label_count(),
    {
        let r = self.scope_get_or_insert(name);
        proof {
            IrModule::lemma_scope_step(&*self, &*old(self), &g);
            lemma_extends_refl(&*old(self));
            assert(self.relocs() =~= old(self).relocs());
            assert(self.label_positions() =~= old(self).label_positions());
        }
        r
    }
}

/// The state admits lowering a tree of the given cost without counter overflow.
pub open spec fn walk_pre(m: &IrModule, cost: nat) -> bool {
    &&& m.lowering_ok()
    &&& m.reg_count() + cost <= usize::MAX
    &&& m.label_count() + cost <= usize::MAX
}

/// What lowering a tree of the given cost guarantees.
pub open spec fn walk_post(new: &IrModule, old: &IrModule, cost: nat, r: Option<usize>) -> bool {
    &&& progress(new, old)
    &&& new.reg_count() + 1 <= old.reg_count() + cost
    &&& new.label_count() + 1 <= old.label_count() + cost
    &&& match r { Some(x) => x < new.reg_count(), None => true }
}

impl IrModule {
    /// Lowers each tree of a list in order.
    fn lower_each(&mut self, node: &AstNode, items: &Vec<AstNode>)
        requires
            list_size(items@) < node_size(*node),
            walk_pre(&*old(self), list_cost(items@)),
        ensures
            progress(&*final(self), &*old(self)),
            final(self).reg_count() <= old(self).reg_count() + list_cost(items@),
            final(self).label_count() <= old(self).label_count() + list_cost(items@),
            final(self).ls() == lw_each(old(self).ls(), items@),
        decreases node_size(*node), 0nat,
    {
        let ghost s0 = *self;
        proof { lemma_start(&*self); }
        let mut i: usize = 0;
        assert(items@.subrange(0, 0).len() == 0);
        while i < items.len()
            invariant
                i <= items@.len(),
                list_size(items@) < node_size(*node),
                s0.reg_count() + list_cost(items@) <= usize::MAX,
                s0.label_count() + list_cost(items@) <= usize::MAX,
                progress(&*self, &s0),
                self.reg_count() <= s0.reg_count() + list_cost(items@.subrange(0, i as int)),
                self.label_count() <= s0.label_count() + list_cost(items@.subrange(0, i as int)),
                self.ls() == lw_each(s0.ls(), items@.subrange(0, i as int)),
            decreases items@.len() - i,
        {
            proof {
                lemma_list_cost(items@, i as int);
                lemma_list_size(items@, i as int);
                assert(items@.subrange(0, i + 1).drop_last() =~= items@.subrange(0, i as int));
            }
            let ghost before = *self;
            self.walk_node(&items[i]);
            proof { lemma_chain(&s0, &before, &*self); }
            i += 1;
        }
        assert(items@.subrange(0, i as int) =~= items@);
    }

    /// Lowers call arguments, collecting the registers of those that yield one.
    fn lower_args(&mut self, node: &AstNode, args: &Vec<AstNode>) -> (regs: Vec<usize>)
        requires
            list_size(args@) < node_size(*node),
            walk_pre(&*old(self), list_cost(args@)),
        ensures
            progress(&*final(self), &*old(self)),
            final(self).reg_count() <= old(self).reg_count() + list_cost(args@),
            final(self).label_count() <= old(self).label_count() + list_cost(args@),
            forall|j: int| 0 <= j < regs@.len() ==> #[trigger] regs@[j] < final(self).reg_count(),
            final(self).ls() == lw_args(old(self).ls(), args@).0,
            regs@ == lw_args(old(self).ls(), args@).1,
        decreases node_size(*node), 0nat,
    {
        let ghost s0 = *self;
        proof { lemma_start(&*self); }
        let mut regs: Vec<usize> = Vec::new();
        let mut i: usize = 0;
        assert(args@.subrange(0, 0).len() == 0);
        while i < args.len()
            invariant
                i <= args@.len(),
                list_size(args@) < node_size(*node),
                s0.reg_count() + list_cost(args@) <= usize::MAX,
                s0.label_count() + list_cost(args@) <= usize::MAX,
                progress(&*self, &s0),
                self.reg_count() <= s0.reg_count() + list_cost(args@.subrange(0, i as int)),
                self.label_count() <= s0.label_count() + list_cost(args@.subrange(0, i as int)),
                forall|j: int| 0 <= j < regs@.len() ==> #[trigger] regs@[j] < self.reg_count(),
                self.ls() == lw_args(s0.ls(), args@.subrange(0, i as int)).0,
                regs@ == lw_args(s0.ls(), args@.subrange(0, i as int)).1,
            decreases args@.len() - i,
        {
            proof {
                lemma_list_cost(args@, i as int);
                lemma_list_size(args@, i as int);
                assert(args@.subrange(0, i + 1).drop_last() =~= args@.subrange(0, i as int));
            }
            let ghost before = *self;
            let ar = self.walk_node(&args[i]);
            proof { lemma_chain(&s0, &before, &*self); }
            match ar {
                Some(a) => { regs.push(a); },
                None => {},
            }
            i += 1;
        }
        assert(args@.subrange(0, i as int) =~= args@);
        regs
    }

    /// Lowers a tree, appending its instructions; returns the register holding the
    /// value of an expression. The state afterwards, and the register, are those
    /// that `lw` gives; every branch and direct call appended lands on a label.
    pub fn walk_node(&mut self, node: &AstNode) -> (r: Option<usize>)
        requires
            walk_pre(&*old(self), lower_cost(*node)),
        ensures
            walk_post(&*final(self), &*old(self), lower_cost(*node), r),
            final(self).ls() == lw(old(self).ls(), *node).0,
            r == lw(old(self).ls(), *node).1,
        decreases node_size(*node), 2nat,
    {
        match &node.kind {
            AstNodeKind::Script { body } => {
                self.lower_each(node, body);
                None
            },
            AstNodeKind::Block { statements } => {
                self.lower_each(node, statements);
                None
            },
            AstNodeKind::Stage { name, args, body } => {
                self.lower_stage(node, name, args, &**body);
                None
            },
            AstNodeKind::If { condition, body } => self.lower_if(node, &**condition, &**body),
            AstNodeKind::IfElse { condition, if_body, else_body } =>
                self.lower_if_else(node, &**condition, &**if_body, &**else_body),
            AstNodeKind::While { condition, body } => self.lower_while(node, &**condition, &**body),
            AstNodeKind::ForTo { initializer, limit, body } =>
                self.lower_for_to(node, &**initializer, &**limit, &**body),
            AstNodeKind::ForIn { iterator, iterable, body } =>
                self.lower_for_in(node, iterator, &**iterable, &**body),
            AstNodeKind::Assignment { target, value } => self.lower_assignment(node, &**target, &**value),
            AstNodeKind::Return { value } => self.lower_return(node, value),
            AstNodeKind::Identifier { name } => {
                let ghost s0 = *self;
                proof { lemma_start(&*self); }
                let found = self.lookup_local(name);
                let dest = self.reg(Ghost(s0));
                match found {
                    Some(idx) => { self.emit(IROp::LLocal { dest, local_index: idx }, Ghost(s0)); },
                    None => { self.emit(IROp::LConst { dest, value: Value::Str(name.clone()) }, Ghost(s0)); },
                }
                Some(dest)
            },
            AstNodeKind::Integer { value } => {
                let v = *value;
                self.lower_const(Value::Int(v))
            },
            AstNodeKind::Float { value } => {
                let v = *value;
                self.lower_const(Value::Float(v))
            },
            AstNodeKind::Bool { value } => {
                let v = *value;
                self.lower_const(Value::Bool(v))
            },
            AstNodeKind::String { value } => self.lower_const(Value::Str(value.clone())),
            AstNodeKind::BinaryOp { left, op, right } => self.lower_binary(node, &**left, *op, &**right),
            AstNodeKind::UnaryOp { op, expr } => self.lower_unary(node, *op, &**expr),
            AstNodeKind::Call { callee, args } => self.lower_call(node, &**callee, args),
            AstNodeKind::List { elements } => self.lower_list(node, elements),
            _ => {
                proof { lemma_start(&*self); }
                None
            },
        }
    }

    /// Loads a constant into a fresh register.
    fn lower_const(&mut self, value: Value) -> (r: Option<usize>)
        requires
            walk_pre(&*old(self), 16),
        ensures
            walk_post(&*final(self), &*old(self), 16, r),
            r == Some(old(self).reg_count()),
            final(self).code() == old(self).code().push(IROp::LConst { dest: old(self).reg_count(), value }),
            final(self).ls() == lw_const(old(self).ls(), value_view(value)).0,
            r == lw_const(old(self).ls(), value_view(value)).1,
    {
        let ghost s0 = *self;
        proof { lemma_start(&*self); }
        let dest = self.reg(Ghost(s0));
        self.emit(IROp::LConst { dest, value }, Ghost(s0));
        Some(dest)
    }

    fn lower_return(&mut self, node: &AstNode, value: &Option<Box<AstNode>>) -> (r: Option<usize>)
        requires
            match value {
                Some(v) => node_size(**v) < node_size(*node)
                    && walk_pre(&*old(self), 16 + lower_cost(**v)),
                None => walk_pre(&*old(self), 16),
            },
        ensures
            walk_post(&*final(self), &*old(self), 16 + match value { Some(v) => lower_cost(**v), None => 0 }, r),
            final(self).ls() == lw_return(old(self).ls(), *value),
            r is None,
        decreases node_size(*node), 1nat,
    {
        let ghost s0 = *self;
        proof { lemma_start(&*self); }
        match value {
            Some(v) => {
                let r0 = self.walk_node(&**v);
                let src = self.reg_or_fresh(r0, Ghost(s0));
                self.emit(IROp::Ret { src }, Ghost(s0));
            },
            None => {
                let r = self.reg(Ghost(s0));
                self.emit(IROp::LConst { dest: r, value: Value::Null }, Ghost(s0));
                self.emit(IROp::Ret { src: r }, Ghost(s0));
            },
        }
        None
    }

    fn lower_stage(&mut self, node: &AstNode, name: &String, args: &Option<Box<AstNode>>, body: &AstNode)
        requires
            node_size(*body) < node_size(*node),
            walk_pre(&*old(self), 16 + lower_cost(*body)),
        ensures
            progress(&*final(self), &*old(self)),
            final(self).reg_count() + 1 <= old(self).reg_count() + 16 + lower_cost(*body),
            final(self).label_count() + 1 <= old(self).label_count() + 16 + lower_cost(*body),
            final(self).ls() == lw_stage(old(self).ls(), name@, *args, *body),
        decreases node_size(*node), 1nat,
    {
        let ghost s0 = *self;
        proof { lemma_start(&*self); }
        self.label(name.clone(), Ghost(s0));
        let ghost s1 = *self;
        let e: Vec<(String, usize)> = Vec::new();
        self.locals.push(e);
        proof {
            IrModule::lemma_scope_step(&*self, &s1, &s0);
            assert(scope_view(e@) =~= Seq::<(Seq<char>, usize)>::empty());
            assert(scopes_view(self.locals@) =~= s1.ls().scopes.push(Seq::empty()));
        }
        let ghost s2p = *self;
        match args {
            Some(params_node) => {
                match &params_node.kind {
                    AstNodeKind::Arguments { args: params } => {
                        let mut k: usize = 0;
                        while k < params.len()
                            invariant
                                k <= params@.len(),
                                progress(&*self, &s0),
                                self.reg_count() == s0.reg_count(),
                                self.label_count() == s0.label_count(),
                                self.ls() == lw_params(s2p.ls(), params@.subrange(0, k as int)),
                            decreases params@.len() - k,
                        {
                            proof {
                                assert(params@.subrange(0, k + 1).drop_last() =~= params@.subrange(0, k as int));
                            }
                            match &params[k].kind {
                                AstNodeKind::Identifier { name: pname } => {
                                    let idx = self.scope_len();
                                    self.bind(pname.clone(), idx, Ghost(s0));
                                },
                                _ => {},
                            }
                            k += 1;
                        }
                        proof { assert(params@.subrange(0, k as int) =~= params@); }
                    },
                    _ => {},
                }
            },
            None => {},
        }
        let ghost s2 = *self;
        self.walk_node(body);
        proof { lemma_chain(&s0, &s2, &*self); }
        self.emit(IROp::Halt, Ghost(s0));
        let ghost s4 = *self;
        self.locals.pop();
        proof {
            IrModule::lemma_scope_step(&*self, &s4, &s0);
            if s4.locals@.len() > 0 {
                assert(scopes_view(self.locals@) =~= scopes_view(s4.locals@).drop_last());
            }
        }
    }

    fn lower_if(&mut self, node: &AstNode, condition: &AstNode, body: &AstNode) -> (r: Option<usize>)
        requires
            node_size(*condition) < node_size(*node),
            node_size(*body) < node_size(*node),
            walk_pre(&*old(self), 16 + lower_cost(*condition) + lower_cost(*body)),
        ensures
            walk_post(&*final(self), &*old(self), 16 + lower_cost(*condition) + lower_cost(*body), r),
            final(self).ls() == lw_if(old(self).ls(), *condition, *body),
            r is None,
        decreases node_size(*node), 1nat,
    {
        let ghost s0 = *self;
        proof { lemma_start(&*self); }
        let end_label = self.fresh_label(Ghost(s0));
        let ghost s1 = *self;
        let rc = self.walk_node(condition);
        proof { lemma_chain(&s0, &s1, &*self); }
        let c = self.reg_or_fresh(rc, Ghost(s0));
        let ghost pre = *self;
        self.branch(1, c, end_label.clone());
        let ghost b = *self;
        proof { lemma_start(&b); }
        self.walk_node(body);
        self.label(end_label, Ghost(b));
        proof { lemma_close(&s0, &pre, &b, &*self); }
        None
    }

    fn lower_if_else(&mut self, node: &AstNode, condition: &AstNode, if_body: &AstNode, else_body: &AstNode) -> (r: Option<usize>)
        requires
            node_size(*condition) < node_size(*node),
            node_size(*if_body) < node_size(*node),
            node_size(*else_body) < node_size(*node),
            walk_pre(&*old(self), 16 + lower_cost(*condition) + lower_cost(*if_body) + lower_cost(*else_body)),
        ensures
            walk_post(&*final(self), &*old(self), 16 + lower_cost(*condition) + lower_cost(*if_body) + lower_cost(*else_body), r),
            final(self).ls() == lw_if_else(old(self).ls(), *condition, *if_body, *else_body),
            r is None,
        decreases node_size(*node), 1nat,
    {
        let ghost s0 = *self;
        proof { lemma_start(&*self); }
        let else_label = self.fresh_label(Ghost(s0));
        let end_label = self.fresh_label(Ghost(s0));
        let ghost s1 = *self;
        let rc = self.walk_node(condition);
        proof { lemma_chain(&s0, &s1, &*self); }
        let c = self.reg_or_fresh(rc, Ghost(s0));
        let ghost pre1 = *self;
        self.branch(1, c, else_label.clone());
        let ghost b1 = *self;
        proof { lemma_start(&b1); }
        self.walk_node(if_body);
        let ghost pre2 = *self;
        self.branch(0, 0, end_label.clone());
        let ghost b2 = *self;
        proof { lemma_start(&b2); }
        self.label(else_label, Ghost(b2));
        let ghost s7 = *self;
        self.walk_node(else_body);
        proof { lemma_chain(&b2, &s7, &*self); }
        let ghost s8 = *self;
        self.label(end_label, Ghost(b2));
        proof {
            lemma_close(&b1, &pre2, &b2, &*self);
            lemma_extends_trans(&s7, &s8, &*self);
            lemma_keeps_label(&s7, &*self, b1.relocs()[pre1.relocs().len() as int].1);
            lemma_close(&s0, &pre1, &b1, &*self);
        }
        None
    }

    fn lower_while(&mut self, node: &AstNode, condition: &AstNode, body: &AstNode) -> (r: Option<usize>)
        requires
            node_size(*condition) < node_size(*node),
            node_size(*body) < node_size(*node),
            walk_pre(&*old(self), 16 + lower_cost(*condition) + lower_cost(*body)),
        ensures
            walk_post(&*final(self), &*old(self), 16 + lower_cost(*condition) + lower_cost(*body), r),
            final(self).ls() == lw_while(old(self).ls(), *condition, *body),
            r is None,
        decreases node_size(*node), 1nat,
    {
        let ghost s0 = *self;
        proof { lemma_start(&*self); }
        let start = self.fresh_label(Ghost(s0));
        let end = self.fresh_label(Ghost(s0));
        self.label(start.clone(), Ghost(s0));
        let ghost s2 = *self;
        proof { lemma_start(&s2); }
        let rc = self.walk_node(condition);
        let c = self.reg_or_fresh(rc, Ghost(s2));
        let ghost pre1 = *self;
        proof { lemma_chain(&s0, &s2, &pre1); }
        self.branch(1, c, end.clone());
        let ghost b1 = *self;
        proof { lemma_start(&b1); }
        self.walk_node(body);
        let ghost pre2 = *self;
        self.branch(0, 0, start);
        let ghost b2 = *self;
        proof {
            lemma_start(&b2);
            lemma_extends_trans(&s2, &pre1, &b1);
            lemma_extends_trans(&s2, &b1, &pre2);
            lemma_extends_trans(&s2, &pre2, &b2);
            lemma_keeps_label(&s2, &b2, b2.relocs()[pre2.relocs().len() as int].1);
            lemma_close(&b1, &pre2, &b2, &b2);
        }
        self.label(end, Ghost(b1));
        proof { lemma_close(&s0, &pre1, &b1, &*self); }
        None
    }

    fn lower_assignment(&mut self, node: &AstNode, target: &AstNode, value: &AstNode) -> (r: Option<usize>)
        requires
            node_size(*value) < node_size(*node),
            walk_pre(&*old(self), 16 + lower_cost(*value)),
        ensures
            walk_post(&*final(self), &*old(self), 16 + lower_cost(*value), r),
            final(self).ls() == lw_assign(old(self).ls(), *target, *value).0,
            r == lw_assign(old(self).ls(), *target, *value).1,
        decreases node_size(*node), 1nat,
    {
        let ghost s0 = *self;
        let rv = self.walk_node(value);
        let v = self.reg_or_fresh(rv, Ghost(s0));
        match &target.kind {
            AstNodeKind::Identifier { name } => {
                let idx = self.local_index(name, Ghost(s0));
                self.emit(IROp::SLocal { src: v, local_index: idx }, Ghost(s0));
            },
            _ => {},
        }
        Some(v)
    }

    fn lower_binary(&mut self, node: &AstNode, left: &AstNode, op: BinaryOperator, right: &AstNode) -> (r: Option<usize>)
        requires
            node_size(*left) < node_size(*node),
            node_size(*right) < node_size(*node),
            walk_pre(&*old(self), 16 + lower_cost(*left) + lower_cost(*right)),
        ensures
            walk_post(&*final(self), &*old(self), 16 + lower_cost(*left) + lower_cost(*right), r),
            final(self).ls() == lw_binary(old(self).ls(), *left, op, *right).0,
            r == lw_binary(old(self).ls(), *left, op, *right).1,
        decreases node_size(*node), 1nat,
    {
        let ghost s0 = *self;
        let r1o = self.walk_node(left);
        let r1 = self.reg_or_fresh(r1o, Ghost(s0));
        let ghost s2 = *self;
        let r2o = self.walk_node(right);
        proof { lemma_chain(&s0, &s2, &*self); }
        let r2 = self.reg_or_fresh(r2o, Ghost(s0));
        let dest = self.reg(Ghost(s0));
        let ir = match op {
            BinaryOperator::Add => IROp::Add { dest, src1: r1, src2: r2 },
            BinaryOperator::Sub => IROp::Sub { dest, src1: r1, src2: r2 },
            BinaryOperator::Mul => IROp::Mul { dest, src1: r1, src2: r2 },
            BinaryOperator::Div => IROp::Div { dest, src1: r1, src2: r2 },
            BinaryOperator::Mod => IROp::Mod { dest, src1: r1, src2: r2 },
            BinaryOperator::Eq => IROp::Eq { dest, src1: r1, src2: r2 },
            BinaryOperator::Ne => IROp::Neq { dest, src1: r1, src2: r2 },
            BinaryOperator::Lt => IROp::Lt { dest, src1: r1, src2: r2 },
            BinaryOperator::Le => IROp::Lte { dest, src1: r1, src2: r2 },
            BinaryOperator::Gt => IROp::Gt { dest, src1: r1, src2: r2 },
            BinaryOperator::Ge => IROp::Gte { dest, src1: r1, src2: r2 },
        };
        self.emit(ir, Ghost(s0));
        Some(dest)
    }

    fn lower_unary(&mut self, node: &AstNode, op: UnaryOperator, expr: &AstNode) -> (r: Option<usize>)
        requires
            node_size(*expr) < node_size(*node),
            walk_pre(&*old(self), 16 + lower_cost(*expr)),
        ensures
            walk_post(&*final(self), &*old(self), 16 + lower_cost(*expr), r),
            final(self).ls() == lw_unary(old(self).ls(), op, *expr).0,
            r == lw_unary(old(self).ls(), op, *expr).1,
        decreases node_size(*node), 1nat,
    {
        let ghost s0 = *self;
        let ro = self.walk_node(expr);
        let r = self.reg_or_fresh(ro, Ghost(s0));
        let dest = self.reg(Ghost(s0));
        let ir = match op {
            UnaryOperator::Plus => {
                self.emit(IROp::LConst { dest, value: Value::Int(0) }, Ghost(s0));
                IROp::Add { dest, src1: dest, src2: r }
            },
            UnaryOperator::Minus => {
                self.emit(IROp::LConst { dest, value: Value::Int(0) }, Ghost(s0));
                IROp::Sub { dest, src1: dest, src2: r }
            },
            UnaryOperator::Not => IROp::Not { dest, src: r },
            UnaryOperator::Inc => IROp::Inc { dest: r },
            UnaryOperator::Dec => IROp::Dec { dest: r },
        };
        self.emit(ir, Ghost(s0));
        Some(dest)
    }

    fn lower_call(&mut self, node: &AstNode, callee: &AstNode, args: &Vec<AstNode>) -> (r: Option<usize>)
        requires
            node_size(*callee) < node_size(*node),
            list_size(args@) < node_size(*node),
            walk_pre(&*old(self), 16 + lower_cost(*callee) + list_cost(args@)),
        ensures
            walk_post(&*final(self), &*old(self), 16 + lower_cost(*callee) + list_cost(args@), r),
            final(self).ls() == lw_call(old(self).ls(), *callee, args@).0,
            r == lw_call(old(self).ls(), *callee, args@).1,
        decreases node_size(*node), 1nat,
    {
        let ghost s0 = *self;
        proof { lemma_start(&*self); }
        let direct = match &callee.kind {
            AstNodeKind::Identifier { name } => self.stage_label_of(name),
            _ => None,
        };
        match direct {
            Some(label_idx) => {
                let arg_regs = self.lower_args(node, args);
                let dest = self.reg(Ghost(s0));
                proof {
                    assert(self.code().subrange(0, s0.code().len() as int) == s0.code());
                    assert(self.ops@[label_idx as int] == s0.ops@[label_idx as int]);
                    let op = IROp::CallLabel { dest, label_index: label_idx, args: arg_regs };
                    assert forall|j: int| 0 <= j < irop_regs(op).len() implies #[trigger] irop_regs(op)[j] < self.next_reg by {
                        if j > 0 { assert(irop_regs(op)[j] == arg_regs@[j - 1]); }
                    }
                }
                self.emit(IROp::CallLabel { dest, label_index: label_idx, args: arg_regs }, Ghost(s0));
                Some(dest)
            },
            None => {
                let func_reg = match &callee.kind {
                    AstNodeKind::Identifier { name } => {
                        let r = self.reg(Ghost(s0));
                        self.emit(IROp::LConst { dest: r, value: Value::Str(name.clone()) }, Ghost(s0));
                        r
                    },
                    _ => {
                        let ghost b = *self;
                        let fo = self.walk_node(callee);
                        proof { lemma_chain(&s0, &b, &*self); }
                        self.reg_or_fresh(fo, Ghost(s0))
                    },
                };
                let ghost s1 = *self;
                let arg_regs = self.lower_args(node, args);
                proof { lemma_chain(&s0, &s1, &*self); }
                let dest = self.reg(Ghost(s0));
                proof {
                    let op = IROp::Call { dest, func: func_reg, args: arg_regs };
                    assert forall|j: int| 0 <= j < irop_regs(op).len() implies #[trigger] irop_regs(op)[j] < self.next_reg by {
                        if j > 1 { assert(irop_regs(op)[j] == arg_regs@[j - 2]); }
                    }
                }
                self.emit(IROp::Call { dest, func: func_reg, args: arg_regs }, Ghost(s0));
                Some(dest)
            },
        }
    }

    fn lower_list(&mut self, node: &AstNode, elements: &Vec<AstNode>) -> (r: Option<usize>)
        requires
            list_size(elements@) < node_size(*node),
            walk_pre(&*old(self), 16 + list_cost(elements@)),
        ensures
            walk_post(&*final(self), &*old(self), 16 + list_cost(elements@), r),
            final(self).ls() == lw_list(old(self).ls(), elements@).0,
            r == lw_list(old(self).ls(), elements@).1,
        decreases node_size(*node), 1nat,
    {
        let ghost s0 = *self;
        proof { lemma_start(&*self); }
        let mut vals: Vec<Value> = Vec::new();
        let mut i: usize = 0;
        assert(elements@.subrange(0, 0).len() == 0);
        while i < elements.len()
            invariant
                i <= elements@.len(),
                list_size(elements@) < node_size(*node),
                s0.reg_count() + 16 + list_cost(elements@) <= usize::MAX,
                s0.label_count() + 16 + list_cost(elements@) <= usize::MAX,
                progress(&*self, &s0),
                self.reg_count() <= s0.reg_count() + list_cost(elements@.subrange(0, i as int)),
                self.label_count() <= s0.label_count() + list_cost(elements@.subrange(0, i as int)),
                self.ls() == lw_elems(s0.ls(), elements@.subrange(0, i as int)).0,
                values_view(vals@) == lw_elems(s0.ls(), elements@.subrange(0, i as int)).1,
            decreases elements@.len() - i,
        {
            proof {
                lemma_list_cost(elements@, i as int);
                lemma_list_size(elements@, i as int);
                assert(elements@.subrange(0, i + 1).drop_last() =~= elements@.subrange(0, i as int));
            }
            let ghost vb = vals@;
            let e = &elements[i];
            match &e.kind {
                AstNodeKind::Integer { value } => { vals.push(Value::Int(*value)); },
                AstNodeKind::Float { value } => { vals.push(Value::Float(*value)); },
                AstNodeKind::Bool { value } => { vals.push(Value::Bool(*value)); },
                AstNodeKind::String { value } => { vals.push(Value::Str(value.clone())); },
                AstNodeKind::Identifier { name } => { vals.push(Value::Str(name.clone())); },
                _ => {
                    let ghost before = *self;
                    self.walk_node(e);
                    proof { lemma_chain(&s0, &before, &*self); }
                    vals.push(Value::Null);
                },
            }
            proof {
                assert(vals@ =~= vb.push(vals@[vb.len() as int]));
                lemma_values_view_push(vb, vals@[vb.len() as int]);
            }
            i += 1;
        }
        assert(elements@.subrange(0, i as int) =~= elements@);
        let dest = self.reg(Ghost(s0));
        self.emit(IROp::LConst { dest, value: Value::Array(vals) }, Ghost(s0));
        Some(dest)
    }
}


impl IrModule {
    #[verifier::rlimit(80)]
    #[verifier::spinoff_prover]
    fn lower_for_to(&mut self, node: &AstNode, initializer: &AstNode, limit: &AstNode, body: &AstNode) -> (r: Option<usize>)
        requires
            node_size(*initializer) < node_size(*node),
            node_size(*limit) < node_size(*node),
            node_size(*body) < node_size(*node),
            walk_pre(&*old(self), 16 + lower_cost(*initializer) + lower_cost(*limit) + lower_cost(*body)),
        ensures
            walk_post(&*final(self), &*old(self), 16 + lower_cost(*initializer) + lower_cost(*limit) + lower_cost(*body), r),
            final(self).ls() == lw_for_to(old(self).ls(), *initializer, *limit, *body),
            r is None,
        decreases node_size(*node), 1nat,
    {
        let ghost s0 = *self;
        proof { lemma_start(&*self); }
        self.walk_node(initializer);
        let ghost s1 = *self;
        let mut loop_var_idx: Option<usize> = None;
        match &initializer.kind {
            AstNodeKind::Assignment { target, .. } => {
                match &target.kind {
                    AstNodeKind::Identifier { name } => {
                        self.ensure_scope();
                        loop_var_idx = self.scope_get(name);
                    },
                    _ => {},
                }
            },
            _ => {},
        }
        proof { IrModule::lemma_scope_step(&*self, &s1, &s0); }
        let ghost s2 = *self;
        let lo = self.walk_node(limit);
        proof { lemma_chain(&s0, &s2, &*self); }
        let limit_reg = self.reg_or_fresh(lo, Ghost(s0));
        let start_lbl = self.fresh_label(Ghost(s0));
        let end_lbl = self.fresh_label(Ghost(s0));
        self.label(start_lbl.clone(), Ghost(s0));
        let ghost s5 = *self;
        proof { lemma_start(&s5); }
        match loop_var_idx {
            Some(idx) => {
                let lv = self.reg(Ghost(s5));
                self.emit(IROp::LLocal { dest: lv, local_index: idx }, Ghost(s5));
                let cond_reg = self.reg(Ghost(s5));
                self.emit(IROp::Lt { dest: cond_reg, src1: lv, src2: limit_reg }, Ghost(s5));
                let ghost pre1 = *self;
                proof { lemma_chain(&s0, &s5, &pre1); }
                self.branch(1, cond_reg, end_lbl.clone());
                let ghost b1 = *self;
                proof { lemma_start(&b1); }
                self.walk_node(body);
                let one = self.reg(Ghost(b1));
                self.emit(IROp::LConst { dest: one, value: Value::Int(1) }, Ghost(b1));
                let newv = self.reg(Ghost(b1));
                self.emit(IROp::Add { dest: newv, src1: lv, src2: one }, Ghost(b1));
                self.emit(IROp::SLocal { src: newv, local_index: idx }, Ghost(b1));
                let ghost pre2 = *self;
                self.branch(0, 0, start_lbl);
                let ghost b2 = *self;
                proof {
                    lemma_start(&b2);
                    lemma_extends_trans(&s5, &pre1, &b1);
                    lemma_extends_trans(&s5, &b1, &pre2);
                    lemma_extends_trans(&s5, &pre2, &b2);
                    lemma_keeps_label(&s5, &b2, b2.relocs()[pre2.relocs().len() as int].1);
                    lemma_close(&b1, &pre2, &b2, &b2);
                }
                self.label(end_lbl, Ghost(b1));
                proof { lemma_close(&s0, &pre1, &b1, &*self); }
            },
            None => {
                self.label(end_lbl, Ghost(s0));
            },
        }
        None
    }

    fn lower_for_in(&mut self, node: &AstNode, iterator: &String, iterable: &AstNode, body: &AstNode) -> (r: Option<usize>)
        requires
            node_size(*iterable) < node_size(*node),
            node_size(*body) < node_size(*node),
            walk_pre(&*old(self), 16 + match iterable.kind {
                AstNodeKind::List { elements } => list_cost(elements@) + elements@.len() * lower_cost(*body),
                _ => lower_cost(*iterable) + lower_cost(*body),
            }),
        ensures
            walk_post(&*final(self), &*old(self), 16 + match iterable.kind {
                AstNodeKind::List { elements } => list_cost(elements@) + elements@.len() * lower_cost(*body),
                _ => lower_cost(*iterable) + lower_cost(*body),
            }, r),
            final(self).ls() == lw_for_in(old(self).ls(), iterator@, *iterable, *body),
            r is None,
        decreases node_size(*node), 1nat,
    {
        match &iterable.kind {
            AstNodeKind::List { elements } => {
                self.lower_for_in_list(node, iterator, iterable, elements, body);
            },
            _ => {
                self.lower_for_in_general(node, iterator, iterable, body);
            },
        }
        None
    }

    fn lower_for_in_list(&mut self, node: &AstNode, iterator: &String, iterable: &AstNode, elements: &Vec<AstNode>, body: &AstNode)
        requires
            node_size(*iterable) < node_size(*node),
            list_size(elements@) < node_size(*iterable),
            node_size(*body) < node_size(*node),
            walk_pre(&*old(self), 16 + list_cost(elements@) + elements@.len() * lower_cost(*body)),
        ensures
            progress(&*final(self), &*old(self)),
            final(self).reg_count() <= old(self).reg_count() + list_cost(elements@) + elements@.len() * lower_cost(*body),
            final(self).label_count() <= old(self).label_count() + list_cost(elements@) + elements@.len() * lower_cost(*body),
            final(self).ls() == lw_in_list(s_local_index(old(self).ls(), iterator@).0, elements@,
                s_local_index(old(self).ls(), iterator@).1, *body),
        decreases node_size(*node), 0nat,
    {
        let ghost s0 = *self;
        let ghost cb = lower_cost(*body);
        let ghost total = list_cost(elements@) + elements@.len() * cb;
        proof { lemma_start(&*self); }
        let idx_local = self.local_index(iterator, Ghost(s0));
        let ghost s1 = *self;
        let mut i: usize = 0;
        assert(elements@.subrange(0, 0).len() == 0);
        while i < elements.len()
            invariant
                i <= elements@.len(),
                node_size(*iterable) < node_size(*node),
                list_size(elements@) < node_size(*iterable),
                node_size(*body) < node_size(*node),
                cb == lower_cost(*body),
                total == list_cost(elements@) + elements@.len() * cb,
                s0.reg_count() + 16 + total <= usize::MAX,
                s0.label_count() + 16 + total <= usize::MAX,
                progress(&*self, &s0),
                self.reg_count() <= s0.reg_count() + list_cost(elements@.subrange(0, i as int)) + i * cb,
                self.label_count() <= s0.label_count() + list_cost(elements@.subrange(0, i as int)) + i * cb,
                self.ls() == lw_in_list(s1.ls(), elements@.subrange(0, i as int), idx_local, *body),
                s1.ls() == s_local_index(s0.ls(), iterator@).0,
                idx_local == s_local_index(s0.ls(), iterator@).1,
            decreases elements@.len() - i,
        {
            proof {
                assert(elements@.subrange(0, i + 1).drop_last() =~= elements@.subrange(0, i as int));
                lemma_list_cost(elements@, i as int);
                lemma_list_size(elements@, i as int);
                assert(i * cb + cb <= elements@.len() * cb) by (nonlinear_arith)
                    requires i < elements@.len();
                assert((i + 1) * cb == i * cb + cb) by (nonlinear_arith);
            }
            let e = &elements[i];
            let val_reg = match &e.kind {
                AstNodeKind::Integer { value } => {
                    let r = self.reg(Ghost(s0));
                    self.emit(IROp::LConst { dest: r, value: Value::Int(*value) }, Ghost(s0));
                    r
                },
                AstNodeKind::Float { value } => {
                    let r = self.reg(Ghost(s0));
                    self.emit(IROp::LConst { dest: r, value: Value::Float(*value) }, Ghost(s0));
                    r
                },
                AstNodeKind::Bool { value } => {
                    let r = self.reg(Ghost(s0));
                    self.emit(IROp::LConst { dest: r, value: Value::Bool(*value) }, Ghost(s0));
                    r
                },
                AstNodeKind::String { value } => {
                    let r = self.reg(Ghost(s0));
                    self.emit(IROp::LConst { dest: r, value: Value::Str(value.clone()) }, Ghost(s0));
                    r
                },
                _ => {
                    let ghost b0 = *self;
                    let ro = self.walk_node(e);
                    proof { lemma_chain(&s0, &b0, &*self); }
                    self.reg_or_fresh(ro, Ghost(s0))
                },
            };
            self.emit(IROp::SLocal { src: val_reg, local_index: idx_local }, Ghost(s0));
            let ghost b3 = *self;
            self.walk_node(body);
            proof { lemma_chain(&s0, &b3, &*self); }
            i += 1;
        }
        assert(elements@.subrange(0, i as int) =~= elements@);
    }

    #[verifier::rlimit(40)]
    fn lower_for_in_general(&mut self, node: &AstNode, iterator: &String, iterable: &AstNode, body: &AstNode)
        requires
            node_size(*iterable) < node_size(*node),
            node_size(*body) < node_size(*node),
            walk_pre(&*old(self), 16 + lower_cost(*iterable) + lower_cost(*body)),
        ensures
            progress(&*final(self), &*old(self)),
            final(self).reg_count() + 1 <= old(self).reg_count() + 16 + lower_cost(*iterable) + lower_cost(*body),
            final(self).label_count() + 1 <= old(self).label_count() + 16 + lower_cost(*iterable) + lower_cost(*body),
            final(self).ls() == lw_in_general(old(self).ls(), iterator@, *iterable, *body),
        decreases node_size(*node), 0nat,
    {
        let ghost s0 = *self;
        proof { lemma_start(&*self); }
        let io = self.walk_node(iterable);
        let iter_reg = self.reg_or_fresh(io, Ghost(s0));
        let len_func = self.reg(Ghost(s0));
        self.emit(IROp::LConst { dest: len_func, value: Value::Str(String::from_str("len")) }, Ghost(s0));
        let len_dest = self.reg(Ghost(s0));
        let mut a1: Vec<usize> = Vec::new();
        a1.push(iter_reg);
        proof {
            assert(a1@ =~= seq![iter_reg]);
            let op = IROp::Call { dest: len_dest, func: len_func, args: a1 };
            assert forall|j: int| 0 <= j < irop_regs(op).len() implies #[trigger] irop_regs(op)[j] < self.next_reg by {
                if j == 2 { assert(irop_regs(op)[j] == a1@[0]); }
            }
        }
        self.emit(IROp::Call { dest: len_dest, func: len_func, args: a1 }, Ghost(s0));
        let iter_local_idx = self.local_index(iterator, Ghost(s0));
        let idx_local = self.scope_len();
        let mut idx_name = iterator.clone();
        push_str(&mut idx_name, "_idx");
        self.bind(idx_name, idx_local, Ghost(s0));
        let zero = self.reg(Ghost(s0));
        self.emit(IROp::LConst { dest: zero, value: Value::Int(0) }, Ghost(s0));
        self.emit(IROp::SLocal { src: zero, local_index: idx_local }, Ghost(s0));
        let start_lbl = self.fresh_label(Ghost(s0));
        let end_lbl = self.fresh_label(Ghost(s0));
        self.label(start_lbl.clone(), Ghost(s0));
        let ghost s5 = *self;
        proof { lemma_start(&s5); }
        let idx_r = self.reg(Ghost(s5));
        self.emit(IROp::LLocal { dest: idx_r, local_index: idx_local }, Ghost(s5));
        let cond_reg = self.reg(Ghost(s5));
        self.emit(IROp::Lt { dest: cond_reg, src1: idx_r, src2: len_dest }, Ghost(s5));
        let ghost pre1 = *self;
        proof { lemma_chain(&s0, &s5, &pre1); }
        self.branch(1, cond_reg, end_lbl.clone());
        let ghost b1 = *self;
        proof { lemma_start(&b1); }
        let index_func = self.reg(Ghost(b1));
        self.emit(IROp::LConst { dest: index_func, value: Value::Str(String::from_str("index")) }, Ghost(b1));
        let val_dest = self.reg(Ghost(b1));
        let mut a2: Vec<usize> = Vec::new();
        a2.push(iter_reg);
        a2.push(idx_r);
        proof {
            assert(a2@ =~= seq![iter_reg, idx_r]);
            let op = IROp::Call { dest: val_dest, func: index_func, args: a2 };
            assert forall|j: int| 0 <= j < irop_regs(op).len() implies #[trigger] irop_regs(op)[j] < self.next_reg by {
                if j >= 2 { assert(irop_regs(op)[j] == a2@[j - 2]); }
            }
        }
        self.emit(IROp::Call { dest: val_dest, func: index_func, args: a2 }, Ghost(b1));
        self.emit(IROp::SLocal { src: val_dest, local_index: iter_local_idx }, Ghost(b1));
        let ghost s9 = *self;
        self.walk_node(body);
        proof { lemma_chain(&b1, &s9, &*self); }
        let one = self.reg(Ghost(b1));
        self.emit(IROp::LConst { dest: one, value: Value::Int(1) }, Ghost(b1));
        let newv = self.reg(Ghost(b1));
        self.emit(IROp::Add { dest: newv, src1: idx_r, src2: one }, Ghost(b1));
        self.emit(IROp::SLocal { src: newv, local_index: idx_local }, Ghost(b1));
        let ghost pre2 = *self;
        self.branch(0, 0, start_lbl);
        let ghost b2 = *self;
        proof {
            lemma_start(&b2);
            lemma_extends_trans(&s5, &pre1, &b1);
            lemma_extends_trans(&s5, &b1, &pre2);
            lemma_extends_trans(&s5, &pre2, &b2);
            lemma_keeps_label(&s5, &b2, b2.relocs()[pre2.relocs().len() as int].1);
            lemma_close(&b1, &pre2, &b2, &b2);
        }
        self.label(end_lbl, Ghost(b1));
        proof { lemma_close(&s0, &pre1, &b1, &*self); }
    }
}


proof fn lemma_relocs_labelled(a: &IrModule, b: &IrModule)
    requires
        a.relocs_have_labels(),
        progress(b, a),
    ensures
        b.relocs_have_labels(),
{
    assert forall|k: int| 0 <= k < b.relocations@.len() implies has_label(b.ops@, (#[trigger] b.relocations@[k]).1@) by {
        assert(b.relocs()[k] == (b.relocations@[k].0, b.relocations@[k].1@));
        if k < a.relocs().len() {
            assert(b.relocs()[k] == b.relocs().subrange(0, a.relocs().len() as int)[k]);
            assert(a.relocs()[k] == (a.relocations@[k].0, a.relocations@[k].1@));
            lemma_label_persists(a.code(), b.code(), a.relocations@[k].1@);
        }
    }
}

/// The index of the last label named `name`, if any.
fn last_label_index(ops: &Vec<IROp>, name: &String) -> (r: Option<usize>)
    ensures
        match r {
            Some(t) => t < ops@.len() && is_label_named(ops@[t as int], name@),
            None => !has_label(ops@, name@),
        },
        r == label_before(ops_view(ops@), name@, ops@.len() as int),
{
    let ghost v = ops_view(ops@);
    let mut j = ops.len();
    while j > 0
        invariant
            j <= ops@.len(),
            v == ops_view(ops@),
            forall|i: int| j <= i < ops@.len() ==> !is_label_named(#[trigger] ops@[i], name@),
            label_before(v, name@, ops@.len() as int) == label_before(v, name@, j as int),
        decreases j,
    {
        proof {
            assert(v[j - 1] == op_view(ops@[j - 1]));
            assert((v[j - 1] == (OpView::Label { name: name@ })) == is_label_named(ops@[j - 1], name@));
        }
        let hit = match &ops[j - 1] {
            IROp::Label { name: n } => *n == *name,
            _ => false,
        };
        if hit {
            return Some(j - 1);
        }
        j -= 1;
    }
    None
}

/// Two lists with labels of a name at the same positions have the same last one.
proof fn lemma_label_before_same(a: Seq<OpView>, b: Seq<OpView>, name: Seq<char>, j: int)
    requires
        a.len() == b.len(),
        forall|i: int| 0 <= i < a.len() ==> ((a[i] == (OpView::Label { name })) == (b[i] == (OpView::Label { name }))),
    ensures
        label_before(a, name, j) == label_before(b, name, j),
    decreases j,
{
    if 0 < j <= a.len() {
        lemma_label_before_same(a, b, name, j - 1);
    }
}

impl IrModule {
    /// Sets the target of every relocated branch to the position of the last label
    /// with the relocation's name.
    fn patch_relocations(&mut self)
        requires
            old(self).lowering_ok(),
            old(self).relocs_have_labels(),
        ensures
            branches_land_on_labels(final(self).ops@),
            calls_land_on_labels(final(self).ops@),
            final(self).ops@.len() == old(self).ops@.len(),
            ops_view(final(self).ops@) == patch_code(ops_view(old(self).ops@), ops_view(old(self).ops@), old(self).relocs()),
            final(self).same_but_code(old(self)),
            final(self).label_positions() == old(self).label_positions(),
    {
        let ghost o = self.ops@;
        let ghost ov = ops_view(o);
        let ghost rl = old(self).relocs();
        let n = self.relocations.len();
        let mut k: usize = 0;
        while k < n
            invariant
                k <= n,
                n == self.relocations@.len(),
                self.ops@.len() == o.len(),
                self.relocations == old(self).relocations,
                forall|k2: int| 0 <= k2 < n ==> (#[trigger] self.relocations@[k2]).0 < o.len() && is_branch(o[self.relocations@[k2].0 as int]),
                forall|k2: int| 0 <= k2 < n ==> has_label(o, (#[trigger] self.relocations@[k2]).1@),
                forall|i: int| 0 <= i < o.len() ==> (is_branch(#[trigger] self.ops@[i]) == is_branch(o[i])),
                forall|i: int| 0 <= i < o.len() && !is_branch(o[i]) ==> #[trigger] self.ops@[i] == o[i],
                forall|k2: int| 0 <= k2 < k ==> {
                    let p = (#[trigger] self.relocations@[k2]).0 as int;
                    branch_target(self.ops@[p]) < o.len() && is_label(o[branch_target(self.ops@[p]) as int])
                },
                forall|i: int| 0 <= i < o.len() && is_branch(o[i]) && (forall|k2: int| 0 <= k2 < k ==> (#[trigger] self.relocations@[k2]).0 != i)
                    ==> #[trigger] self.ops@[i] == o[i],
                ov == ops_view(o),
                rl == old(self).relocs(),
                rl.len() == n,
                ops_view(self.ops@) == patch_code(ov, ov, rl.subrange(0, k as int)),
                self.same_but_code(old(self)),
                self.stage_labels == old(self).stage_labels,
            decreases n - k,
        {
            let pos = self.relocations[k].0;
            let ghost cur = ops_view(self.ops@);
            let found = last_label_index(&self.ops, &self.relocations[k].1);
            proof {
                assert(rl.subrange(0, k + 1).drop_last() =~= rl.subrange(0, k as int));
                assert(rl[k as int] == (pos, self.relocations@[k as int].1@));
                assert forall|i: int| 0 <= i < cur.len() implies
                    ((cur[i] == (OpView::Label { name: rl[k as int].1 })) == (ov[i] == (OpView::Label { name: rl[k as int].1 }))) by {
                    assert(cur[i] == op_view(self.ops@[i]));
                    assert(ov[i] == op_view(o[i]));
                    if !is_branch(o[i]) {
                        assert(self.ops@[i] == o[i]);
                    }
                }
                lemma_label_before_same(cur, ov, rl[k as int].1, cur.len() as int);
                assert(has_label(o, self.relocations@[k as int].1@));
                if found.is_none() {
                    let w = choose|w: int| 0 <= w < o.len() && is_label_named(#[trigger] o[w], self.relocations@[k as int].1@);
                    assert(!is_branch(o[w]));
                    assert(self.ops@[w] == o[w]);
                }
            }
            match found {
                Some(t) => {
                    proof {
                        assert(!is_branch(o[t as int])) by {
                            if is_branch(o[t as int]) { assert(is_branch(self.ops@[t as int])); }
                        }
                        assert(self.ops@[t as int] == o[t as int]);
                    }
                    let newop = match &self.ops[pos] {
                        IROp::Jump { .. } => Some(IROp::Jump { target: t }),
                        IROp::BrFalse { cond, .. } => Some(IROp::BrFalse { cond: *cond, target: t }),
                        IROp::BrTrue { cond, .. } => Some(IROp::BrTrue { cond: *cond, target: t }),
                        _ => None,
                    };
                    proof {
                        assert(cur[pos as int] == op_view(self.ops@[pos as int]));
                        if newop is Some {
                            assert(op_view(newop->0) == retarget(cur[pos as int], t));
                        } else {
                            assert(retarget(cur[pos as int], t) == cur[pos as int]);
                        }
                    }
                    match newop {
                        Some(op) => {
                            let ghost vop = op_view(op);
                            self.ops.set(pos, op);
                            proof { assert(ops_view(self.ops@) =~= cur.update(pos as int, vop)); }
                        },
                        None => {
                            proof { assert(cur.update(pos as int, cur[pos as int]) =~= cur); }
                        },
                    }
                },
                None => {},
            }
            proof {
                assert forall|k2: int| 0 <= k2 < k + 1 implies {
                    let p = (#[trigger] self.relocations@[k2]).0 as int;
                    branch_target(self.ops@[p]) < o.len() && is_label(o[branch_target(self.ops@[p]) as int])
                } by {
                    if k2 < k && self.relocations@[k2].0 == pos {
                    }
                }
            }
            k += 1;
        }
        proof {
            assert(rl.subrange(0, n as int) =~= rl);
            let ops = self.ops@;
            assert forall|i: int| 0 <= i < ops.len() && is_branch(#[trigger] ops[i])
                implies branch_target(ops[i]) < ops.len() && is_label(ops[branch_target(ops[i]) as int]) by {
                assert(is_branch(o[i]));
                let kk = choose|kk: int| 0 <= kk < old(self).relocations@.len() && (#[trigger] old(self).relocations@[kk]).0 == i;
                assert(self.relocations@[kk].0 == i);
                let t = branch_target(ops[i]) as int;
                assert(is_label(o[t]));
                assert(!is_branch(o[t]));
                assert(ops[t] == o[t]);
            }
            assert forall|i: int| 0 <= i < ops.len() && (#[trigger] ops[i] is CallLabel)
                implies ops[i]->CallLabel_label_index < ops.len() && is_label(ops[ops[i]->CallLabel_label_index as int]) by {
                assert(!is_branch(o[i]));
                assert(ops[i] == o[i]);
                let t = ops[i]->CallLabel_label_index as int;
                assert(is_label(o[t]));
                assert(!is_branch(o[t]));
                assert(ops[t] == o[t]);
            }
        }
    }

    /// Lowers a script: first every stage (so that calls can target their labels),
    /// then the body of the workspace named `entrypoint`, or of the first workspace
    /// when none has that name (`lw_script`); finally patches every branch to the
    /// last label of its name (`patched`).
    pub fn lower_from_ast(&mut self, ast: &AstNode, entrypoint: &str)
        requires
            walk_pre(&*old(self), 2 * lower_cost(*ast)),
            old(self).relocs_have_labels(),
        ensures
            branches_land_on_labels(final(self).code()),
            calls_land_on_labels(final(self).code()),
            final(self).ls() == patched(lw_script(old(self).ls(), *ast, entrypoint@)),
    {
        let ghost s0 = *self;
        proof { lemma_start(&*self); }
        match &ast.kind {
            AstNodeKind::Script { body } => {
                let mut i: usize = 0;
                assert(body@.subrange(0, 0).len() == 0);
                while i < body.len()
                    invariant
                        i <= body@.len(),
                        ast.kind == (AstNodeKind::Script { body: *body }),
                        s0.reg_count() + 2 * (16 + list_cost(body@)) <= usize::MAX,
                        s0.label_count() + 2 * (16 + list_cost(body@)) <= usize::MAX,
                        progress(&*self, &s0),
                        self.reg_count() <= s0.reg_count() + list_cost(body@.subrange(0, i as int)),
                        self.label_count() <= s0.label_count() + list_cost(body@.subrange(0, i as int)),
                        self.ls() == lw_stages(s0.ls(), body@.subrange(0, i as int)),
                    decreases body@.len() - i,
                {
                    proof {
                        lemma_list_cost(body@, i as int);
                        assert(body@.subrange(0, i + 1).drop_last() =~= body@.subrange(0, i as int));
                    }
                    let is_stage = match &body[i].kind {
                        AstNodeKind::Stage { .. } => true,
                        _ => false,
                    };
                    if is_stage {
                        let ghost before = *self;
                        self.walk_node(&body[i]);
                        proof { lemma_chain(&s0, &before, &*self); }
                    }
                    i += 1;
                }
                assert(body@.subrange(0, i as int) =~= body@);
                let ghost s1 = *self;
                let mut chosen: Option<usize> = None;
                let mut j: usize = 0;
                while j < body.len()
                    invariant_except_break
                        match chosen {
                            Some(c) => c < j && workspace_from(body@, 0) == Some(c as int),
                            None => workspace_from(body@, 0) == workspace_from(body@, j as int),
                        },
                    invariant
                        j <= body@.len(),
                        match chosen { Some(c) => c < body@.len() && body@[c as int].kind is Workspace, None => true },
                        workspace_named_from(body@, entrypoint@, 0) == workspace_named_from(body@, entrypoint@, j as int),
                    ensures
                        match chosen { Some(c) => c < body@.len() && body@[c as int].kind is Workspace, None => true },
                        match chosen {
                            Some(c) => entry_workspace(body@, entrypoint@) == Some(c as int),
                            None => entry_workspace(body@, entrypoint@) is None,
                        },
                    decreases body@.len() - j,
                {
                    match &body[j].kind {
                        AstNodeKind::Workspace { name, .. } => {
                            if chosen.is_none() {
                                chosen = Some(j);
                            }
                            if crate::text::str_eq(name.as_str(), entrypoint) {
                                chosen = Some(j);
                                break;
                            }
                        },
                        _ => {},
                    }
                    j += 1;
                }
                match chosen {
                    Some(c) => {
                        match &body[c].kind {
                            AstNodeKind::Workspace { body: ws_body, .. } => {
                                proof {
                                    lemma_list_cost(body@, c as int);
                                    assert(lower_cost(body@[c as int]) == 16 + lower_cost(**ws_body));
                                }
                                self.walk_node(&**ws_body);
                                proof {
                                    lemma_chain(&s0, &s1, &*self);
                                    assert(self.ls() == lw_script(s0.ls(), *ast, entrypoint@));
                                }
                            },
                            _ => {},
                        }
                    },
                    None => {},
                }
            },
            _ => {},
        }
        proof { lemma_relocs_labelled(&s0, &*self); }
        self.patch_relocations();
    }
}


/// A jump or branch with its target set to `t`; any other instruction unchanged.
pub open spec fn with_target(op: IROp, t: usize) -> IROp {
    match op {
        IROp::Jump { .. } => IROp::Jump { target: t },
        IROp::BrFalse { cond, .. } => IROp::BrFalse { cond, target: t },
        IROp::BrTrue { cond, .. } => IROp::BrTrue { cond, target: t },
        _ => op,
    }
}

/// The instructions after patching each pending branch in turn to the position
/// recorded last for its label name; pending entries whose label is unknown or
/// whose index is past the end change nothing.
pub open spec fn resolve_pending(ops: Seq<IROp>, labels: Seq<(Seq<char>, usize)>, pending: Seq<(usize, Seq<char>)>) -> Seq<IROp>
    decreases pending.len(),
{
    if pending.len() == 0 {
        ops
    } else {
        let c = resolve_pending(ops, labels, pending.drop_last());
        let (idx, name) = pending.last();
        match last_label_from(labels, name, labels.len() as int) {
            Some(t) => if idx < c.len() { c.update(idx as int, with_target(c[idx as int], t)) } else { c },
            None => c,
        }
    }
}

/// The first label at or after position `j`.
pub open spec fn label_from(ops: Seq<IROp>, j: int) -> Option<usize>
    decreases ops.len() - j,
{
    if j < 0 || j >= ops.len() {
        None
    } else if is_label(ops[j]) {
        Some(j as usize)
    } else {
        label_from(ops, j + 1)
    }
}

/// What the pending entries recorded for instruction `i` came to: `None` when none
/// names `i`, `Some(true)` when the label of one of them was found, `Some(false)`
/// when every label named for `i` was unknown.
pub open spec fn pending_state(labels: Seq<(Seq<char>, usize)>, pending: Seq<(usize, Seq<char>)>, i: int) -> Option<bool>
    decreases pending.len(),
{
    if pending.len() == 0 {
        None
    } else {
        let st = pending_state(labels, pending.drop_last(), i);
        let (idx, name) = pending.last();
        if idx == i {
            Some(st == Some(true) || last_label_from(labels, name, labels.len() as int) is Some)
        } else {
            st
        }
    }
}

/// Whether the fallback patches instruction `i`: a recorded jump or branch whose
/// label was never found, still targeting 0, with a label after it.
pub open spec fn falls_back(ops: Seq<IROp>, labels: Seq<(Seq<char>, usize)>, pending: Seq<(usize, Seq<char>)>, i: int) -> bool {
    &&& pending_state(labels, pending, i) == Some(false)
    &&& is_branch(ops[i])
    &&& branch_target(ops[i]) == 0
    &&& label_from(ops, i + 1) is Some
}

/// The instructions after the fallback: each such branch targets the next label.
pub open spec fn fallback_patched(ops: Seq<IROp>, labels: Seq<(Seq<char>, usize)>, pending: Seq<(usize, Seq<char>)>) -> Seq<IROp> {
    Seq::new(ops.len(), |i: int| if falls_back(ops, labels, pending, i) { with_target(ops[i], label_from(ops, i + 1)->0) } else { ops[i] })
}

/// How many of the first `n` instructions the fallback patches.
pub open spec fn fallback_count(ops: Seq<IROp>, labels: Seq<(Seq<char>, usize)>, pending: Seq<(usize, Seq<char>)>, n: int) -> nat
    decreases n,
{
    if n <= 0 { 0 } else { fallback_count(ops, labels, pending, n - 1) + if falls_back(ops, labels, pending, n - 1) { 1nat } else { 0nat } }
}

/// Whether an instruction writes register `reg` in the sense of `reg_has_writer`:
/// a constant load, local load, call, addition or comparison into it, or a return of it.
pub open spec fn writes_reg(op: IROp, reg: usize) -> bool {
    match op {
        IROp::LConst { dest, .. } => dest == reg,
        IROp::Call { dest, .. } => dest == reg,
        IROp::CallLabel { dest, .. } => dest == reg,
        IROp::Add { dest, .. } => dest == reg,
        IROp::Lt { dest, .. } => dest == reg,
        IROp::LLocal { dest, .. } => dest == reg,
        IROp::Ret { src } => src == reg,
        _ => false,
    }
}

/// The names bound in an association list, by their last binding.
pub open spec fn names_of(entries: Seq<(String, u32)>) -> Map<Seq<char>, u32>
    decreases entries.len(),
{
    if entries.len() == 0 {
        Map::empty()
    } else {
        names_of(entries.drop_last()).insert(entries.last().0@, entries.last().1)
    }
}

fn bind_name(entries: &mut Vec<(String, u32)>, name: &str, id: u32)
    ensures
        names_of(final(entries)@) == names_of(old(entries)@).insert(name@, id),
{
    entries.push((String::from_str(name), id));
    assert(final(entries)@.drop_last() =~= old(entries)@);
}

fn lookup_name(entries: &Vec<(String, u32)>, name: &str) -> (r: Option<u32>)
    ensures
        match r {
            Some(id) => names_of(entries@).contains_key(name@) && names_of(entries@)[name@] == id,
            None => !names_of(entries@).contains_key(name@),
        },
{
    let mut j = entries.len();
    assert(entries@.subrange(0, j as int) =~= entries@);
    while j > 0
        invariant
            j <= entries@.len(),
            names_of(entries@).contains_key(name@) == names_of(entries@.subrange(0, j as int)).contains_key(name@),
            names_of(entries@.subrange(0, j as int)).contains_key(name@) ==>
                names_of(entries@)[name@] == names_of(entries@.subrange(0, j as int))[name@],
        decreases j,
    {
        assert(entries@.subrange(0, j as int).drop_last() =~= entries@.subrange(0, j as int - 1));
        if crate::text::str_eq(entries[j - 1].0.as_str(), name) {
            return Some(entries[j - 1].1);
        }
        j -= 1;
    }
    None
}

impl IrModule {
    /// Allocates a register (the counter wraps around at its maximum).
    pub fn alloc_reg(&mut self) -> (r: usize)
        ensures
            r == old(self).reg_count(),
            final(self).reg_count() == (if old(self).reg_count() == usize::MAX { 0 } else { old(self).reg_count() + 1 }),
            final(self).code() == old(self).code(),
    {
        let r = self.next_reg;
        self.next_reg = if self.next_reg == usize::MAX { 0 } else { self.next_reg + 1 };
        r
    }

    /// Appends an instruction; a label's position is recorded for branch patching.
    pub fn emit_op(&mut self, op: IROp)
        ensures
            final(self).code() == old(self).code().push(op),
            final(self).reg_count() == old(self).reg_count(),
            final(self).label_table() == match op {
                IROp::Label { name } => old(self).label_table().push((name@, old(self).code().len() as usize)),
                _ => old(self).label_table(),
            },
            final(self).pending() == old(self).pending(),
    {
        let idx = self.ops.len();
        let name = match &op {
            IROp::Label { name } => Some(name.clone()),
            _ => None,
        };
        let ghost lt = self.labels@;
        self.ops.push(op);
        match name {
            Some(n) => {
                self.labels.push((n, idx));
                proof { assert(self.label_table() =~= old(self).label_table().push((n@, idx))); }
            },
            None => {
                proof { assert(self.label_table() =~= old(self).label_table()); }
            },
        }
    }

    /// The last instruction, if any.
    pub fn peek_op(&self) -> (r: Option<&IROp>)
        ensures
            match r {
                Some(op) => self.code().len() > 0 && *op == self.code().last(),
                None => self.code().len() == 0,
            },
    {
        self.ops.last()
    }

    /// Removes and returns the last instruction, if any.
    pub fn pop_op(&mut self) -> (r: Option<IROp>)
        ensures
            match r {
                Some(op) => old(self).code().len() > 0 && op == old(self).code().last()
                    && final(self).code() == old(self).code().drop_last(),
                None => old(self).code().len() == 0 && final(self).code() == old(self).code(),
            },
    {
        self.ops.pop()
    }

    /// The instructions.
    pub fn get_ops(&self) -> (r: &Vec<IROp>)
        ensures
            r@ == self.code(),
    {
        &self.ops
    }

    /// The number of instructions.
    pub fn len(&self) -> (r: usize)
        ensures
            r == self.code().len(),
    {
        self.ops.len()
    }

    /// Whether there is no instruction.
    pub fn is_empty(&self) -> (r: bool)
        ensures
            r == (self.code().len() == 0),
    {
        self.ops.len() == 0
    }

    /// Whether some instruction writes `reg` (see `writes_reg`).
    pub fn reg_has_writer(&self, reg: usize) -> (r: bool)
        ensures
            r == exists|i: int| 0 <= i < self.code().len() && writes_reg(#[trigger] self.code()[i], reg),
    {
        let mut i: usize = 0;
        while i < self.ops.len()
            invariant
                i <= self.ops@.len(),
                forall|j: int| 0 <= j < i ==> !writes_reg(#[trigger] self.ops@[j], reg),
            decreases self.ops@.len() - i,
        {
            let w = match &self.ops[i] {
                IROp::LConst { dest, .. } => *dest == reg,
                IROp::Call { dest, .. } => *dest == reg,
                IROp::CallLabel { dest, .. } => *dest == reg,
                IROp::Add { dest, .. } => *dest == reg,
                IROp::Lt { dest, .. } => *dest == reg,
                IROp::LLocal { dest, .. } => *dest == reg,
                IROp::Ret { src } => *src == reg,
                _ => false,
            };
            if w {
                assert(writes_reg(self.code()[i as int], reg));
                return true;
            }
            i += 1;
        }
        false
    }

    /// Records a branch at `op_index` to be patched to the label `label_name`.
    pub fn record_unresolved_branch(&mut self, op_index: usize, label_name: String)
        ensures
            final(self).code() == old(self).code(),
            final(self).pending() == old(self).pending().push((op_index, label_name@)),
            final(self).label_table() == old(self).label_table(),
            final(self).reg_count() == old(self).reg_count(),
    {
        let ghost nm = label_name@;
        self.unresolved_branches.push((op_index, label_name));
        proof { assert(self.pending() =~= old(self).pending().push((op_index, nm))); }
    }

    /// Patches the recorded branches to the positions of their labels as recorded
    /// by `emit_op`; then points each recorded branch whose label was never found,
    /// and which still targets 0, at the next label after it, when there is one.
    /// Returns how many branches the second step patched.
    pub fn patch_unresolved_branches(&mut self) -> (fallback: usize)
        ensures
            final(self).code() == fallback_patched(
                resolve_pending(old(self).code(), old(self).label_table(), old(self).pending()),
                old(self).label_table(), old(self).pending()),
            fallback == fallback_count(resolve_pending(old(self).code(), old(self).label_table(), old(self).pending()),
                old(self).label_table(), old(self).pending(), old(self).code().len() as int),
            final(self).pending() == Seq::<(usize, Seq<char>)>::empty(),
            final(self).label_table() == old(self).label_table(),
            final(self).reg_count() == old(self).reg_count(),
            final(self).code().len() == old(self).code().len(),
            forall|i: int| 0 <= i < old(self).code().len() && !is_branch(#[trigger] old(self).code()[i])
                ==> final(self).code()[i] == old(self).code()[i],
            forall|i: int| 0 <= i < old(self).code().len() ==> is_branch(#[trigger] final(self).code()[i]) == is_branch(old(self).code()[i]),
    {
        let ghost pv = old(self).pending();
        let ghost lt = old(self).label_table();
        let mut pending: Vec<(usize, String)> = Vec::new();
        std::mem::swap(&mut pending, &mut self.unresolved_branches);
        proof { assert(self.pending() =~= Seq::<(usize, Seq<char>)>::empty()); }
        let ghost o = self.ops@;
        let n = self.ops.len();
        let mut marks: Vec<Option<bool>> = Vec::new();
        while marks.len() < n
            invariant
                n == self.ops@.len(),
                marks@.len() <= n,
                forall|q: int| 0 <= q < marks@.len() ==> #[trigger] marks@[q] is None,
            decreases n - marks@.len(),
        {
            marks.push(None);
        }
        let mut k: usize = 0;
        assert(pv.subrange(0, 0) =~= Seq::<(usize, Seq<char>)>::empty());
        while k < pending.len()
            invariant
                k <= pending@.len(),
                n == o.len(),
                marks@.len() == n,
                forall|q: int| 0 <= q < n ==> #[trigger] marks@[q] == pending_state(lt, pv.subrange(0, k as int), q),
                pv == pending@.map_values(|r: (usize, String)| (r.0, r.1@)),
                lt == self.label_table(),
                self.pending() == Seq::<(usize, Seq<char>)>::empty(),
                self.next_reg == old(self).next_reg,
                self.ops@ == resolve_pending(o, lt, pv.subrange(0, k as int)),
                self.ops@.len() == o.len(),
                forall|i: int| 0 <= i < o.len() && !is_branch(o[i]) ==> #[trigger] self.ops@[i] == o[i],
                forall|i: int| 0 <= i < o.len() ==> is_branch(#[trigger] self.ops@[i]) == is_branch(o[i]),
            decreases pending@.len() - k,
        {
            let op_index = pending[k].0;
            let ghost name = pv[k as int].1;
            proof {
                assert(pv[k as int] == (pending@[k as int].0, pending@[k as int].1@));
                assert(pv.subrange(0, k + 1).drop_last() =~= pv.subrange(0, k as int));
            }
            let mut target_idx: Option<usize> = None;
            let mut j = self.labels.len();
            while j > 0
                invariant_except_break
                    target_idx is None,
                invariant
                    j <= self.labels@.len(),
                    k < pending@.len(),
                    name == pending@[k as int].1@,
                    lt == self.label_table(),
                    last_label_from(lt, name, lt.len() as int) == last_label_from(lt, name, j as int),
                ensures
                    target_idx == last_label_from(lt, name, lt.len() as int),
                decreases j,
            {
                proof { assert(lt[j - 1] == (self.labels@[j - 1].0@, self.labels@[j - 1].1)); }
                if self.labels[j - 1].0 == pending[k].1 {
                    target_idx = Some(self.labels[j - 1].1);
                    break;
                }
                j -= 1;
            }
            let ghost c = self.ops@;
            let ghost pm = marks@;
            if op_index < n {
                let prev = marks[op_index];
                let found = match target_idx { Some(_) => true, None => false };
                let resolved = match prev { Some(true) => true, _ => false };
                marks.set(op_index, Some(resolved || found));
            }
            proof {
                assert forall|q: int| 0 <= q < n implies #[trigger] marks@[q] == pending_state(lt, pv.subrange(0, k + 1), q) by {
                    assert(pv.subrange(0, k + 1).last() == pv[k as int]);
                    if q != op_index {
                        assert(marks@[q] == pm[q]);
                    }
                }
            }
            match target_idx {
                Some(t) => {
                    if op_index < self.ops.len() {
                        let newop = match &self.ops[op_index] {
                            IROp::BrFalse { cond, .. } => Some(IROp::BrFalse { cond: *cond, target: t }),
                            IROp::BrTrue { cond, .. } => Some(IROp::BrTrue { cond: *cond, target: t }),
                            IROp::Jump { .. } => Some(IROp::Jump { target: t }),
                            _ => None,
                        };
                        proof {
                            if newop is Some {
                                assert(newop->0 == with_target(c[op_index as int], t));
                            } else {
                                assert(with_target(c[op_index as int], t) == c[op_index as int]);
                                assert(c.update(op_index as int, c[op_index as int]) =~= c);
                            }
                        }
                        match newop {
                            Some(op) => { self.ops.set(op_index, op); },
                            None => {},
                        }
                    }
                },
                None => {},
            }
            k += 1;
        }
        proof { assert(pv.subrange(0, k as int) =~= pv); }
        let ghost c = self.ops@;
        let mut patched: usize = 0;
        let mut i: usize = 0;
        while i < n
            invariant
                i <= n,
                n == o.len(),
                patched <= i,
                patched == fallback_count(c, lt, pv, i as int),
                c.len() == n,
                marks@.len() == n,
                forall|q: int| 0 <= q < n ==> #[trigger] marks@[q] == pending_state(lt, pv, q),
                forall|q: int| 0 <= q < i ==> #[trigger] self.ops@[q] == fallback_patched(c, lt, pv)[q],
                forall|q: int| i <= q < n ==> #[trigger] self.ops@[q] == c[q],
                self.pending() == Seq::<(usize, Seq<char>)>::empty(),
                lt == self.label_table(),
                self.next_reg == old(self).next_reg,
                self.ops@.len() == o.len(),
                forall|q: int| 0 <= q < o.len() && !is_branch(o[q]) ==> #[trigger] self.ops@[q] == o[q],
                forall|q: int| 0 <= q < o.len() ==> is_branch(#[trigger] self.ops@[q]) == is_branch(o[q]),
            decreases n - i,
        {
            let ghost before = self.ops@;
            proof { assert(self.ops@[i as int] == c[i as int]); }
            let left = match marks[i] { Some(false) => true, _ => false };
            let unpatched = left && match &self.ops[i] {
                IROp::BrFalse { target, .. } | IROp::BrTrue { target, .. } | IROp::Jump { target } => *target == 0,
                _ => false,
            };
            assert(unpatched == (pending_state(lt, pv, i as int) == Some(false) && is_branch(c[i as int]) && branch_target(c[i as int]) == 0));
            if unpatched {
                let mut j = i + 1;
                let mut next: Option<usize> = None;
                while j < n
                    invariant_except_break
                        next is None,
                    invariant
                        i < j <= n,
                        n == self.ops@.len(),
                        c.len() == n,
                        forall|q: int| i <= q < n ==> #[trigger] self.ops@[q] == c[q],
                        label_from(c, i + 1) == label_from(c, j as int),
                    ensures
                        next == label_from(c, i + 1),
                    decreases n - j,
                {
                    proof { assert(self.ops@[j as int] == c[j as int]); }
                    let is_lab = match &self.ops[j] {
                        IROp::Label { .. } => true,
                        _ => false,
                    };
                    if is_lab {
                        next = Some(j);
                        break;
                    }
                    j += 1;
                }
                match next {
                    Some(t) => {
                        let newop = match &self.ops[i] {
                            IROp::BrFalse { cond, .. } => Some(IROp::BrFalse { cond: *cond, target: t }),
                            IROp::BrTrue { cond, .. } => Some(IROp::BrTrue { cond: *cond, target: t }),
                            IROp::Jump { .. } => Some(IROp::Jump { target: t }),
                            _ => None,
                        };
                        assert(newop == Some(with_target(c[i as int], t)));
                        match newop {
                            Some(op) => {
                                self.ops.set(i, op);
                                patched += 1;
                            },
                            None => {},
                        }
                    },
                    None => {},
                }
            }
            proof {
                assert(falls_back(c, lt, pv, i as int) == (unpatched && label_from(c, i + 1) is Some));
                assert(self.ops@[i as int] == fallback_patched(c, lt, pv)[i as int]);
                assert forall|q: int| 0 <= q < i + 1 implies #[trigger] self.ops@[q] == fallback_patched(c, lt, pv)[q] by {
                    if q < i { assert(self.ops@[q] == before[q]); }
                }
                assert forall|q: int| i + 1 <= q < n implies #[trigger] self.ops@[q] == c[q] by {
                    assert(self.ops@[q] == before[q]);
                }
            }
            i += 1;
        }
        proof {
            assert(self.ops@ =~= fallback_patched(c, lt, pv));
        }
        patched
    }

    /// Declares a function and returns its id (ids count up from 1, wrapping).
    pub fn declare_function(&mut self, name: &str) -> (id: u32)
        ensures
            id == old(self).id_counter(),
            final(self).id_counter() == (if old(self).id_counter() == u32::MAX { 0 } else { old(self).id_counter() + 1 }),
            final(self).function_names() == old(self).function_names().insert(name@, id),
    {
        let id = self.next_id;
        self.next_id = if self.next_id == u32::MAX { 0 } else { self.next_id + 1 };
        bind_name(&mut self.functions, name, id);
        id
    }

    /// Declares an object (workspace or project) and returns its id.
    pub fn declare_object(&mut self, name: &str) -> (id: u32)
        ensures
            id == old(self).id_counter(),
            final(self).id_counter() == (if old(self).id_counter() == u32::MAX { 0 } else { old(self).id_counter() + 1 }),
            final(self).object_names() == old(self).object_names().insert(name@, id),
    {
        let id = self.next_id;
        self.next_id = if self.next_id == u32::MAX { 0 } else { self.next_id + 1 };
        bind_name(&mut self.objects, name, id);
        id
    }

    /// The id of the function declared last under `name`.
    pub fn find_function_id_by_name(&self, name: &str) -> (r: Option<u32>)
        ensures
            match r {
                Some(id) => self.function_names().contains_key(name@) && self.function_names()[name@] == id,
                None => !self.function_names().contains_key(name@),
            },
    {
        lookup_name(&self.functions, name)
    }

    /// The id of the object declared last under `name`.
    pub fn find_object_id_by_name(&self, name: &str) -> (r: Option<u32>)
        ensures
            match r {
                Some(id) => self.object_names().contains_key(name@) && self.object_names()[name@] == id,
                None => !self.object_names().contains_key(name@),
            },
    {
        lookup_name(&self.objects, name)
    }
}

} // verus!
