//! What lowering appends, stated over plain values: an instruction by what it
//! denotes, the lowering state by what it holds, and for every kind of tree the
//! state after lowering it from a given state.
use vstd::prelude::*;
use crate::ast::kind::{AstNodeKind, BinaryOperator, UnaryOperator};
use crate::ast::node::{AstNode, node_size, list_size};
use crate::ir::irop::IROp;
use crate::ir::valview::{ValueView, value_view};
use crate::ir::irmod::internal_label;

verus! {

/// What an instruction denotes: its variant and fields, strings by their
/// characters, argument registers as a sequence.
pub enum OpView {
    LConst { dest: usize, value: ValueView },
    LLocal { dest: usize, local_index: usize },
    SLocal { src: usize, local_index: usize },
    Add { dest: usize, src1: usize, src2: usize },
    Sub { dest: usize, src1: usize, src2: usize },
    Mul { dest: usize, src1: usize, src2: usize },
    Div { dest: usize, src1: usize, src2: usize },
    Mod { dest: usize, src1: usize, src2: usize },
    Eq { dest: usize, src1: usize, src2: usize },
    Neq { dest: usize, src1: usize, src2: usize },
    Lt { dest: usize, src1: usize, src2: usize },
    Lte { dest: usize, src1: usize, src2: usize },
    Gt { dest: usize, src1: usize, src2: usize },
    Gte { dest: usize, src1: usize, src2: usize },
    And { dest: usize, src1: usize, src2: usize },
    Or { dest: usize, src1: usize, src2: usize },
    Not { dest: usize, src: usize },
    Inc { dest: usize },
    Dec { dest: usize },
    Label { name: Seq<char> },
    Jump { target: usize },
    BrTrue { cond: usize, target: usize },
    BrFalse { cond: usize, target: usize },
    Halt,
    Call { dest: usize, func: usize, args: Seq<usize> },
    CallLabel { dest: usize, label_index: usize, args: Seq<usize> },
    Ret { src: usize },
}

/// What an instruction denotes.
pub open spec fn op_view(op: IROp) -> OpView {
    match op {
        IROp::LConst { dest, value } => OpView::LConst { dest, value: value_view(value) },
        IROp::LLocal { dest, local_index } => OpView::LLocal { dest, local_index },
        IROp::SLocal { src, local_index } => OpView::SLocal { src, local_index },
        IROp::Add { dest, src1, src2 } => OpView::Add { dest, src1, src2 },
        IROp::Sub { dest, src1, src2 } => OpView::Sub { dest, src1, src2 },
        IROp::Mul { dest, src1, src2 } => OpView::Mul { dest, src1, src2 },
        IROp::Div { dest, src1, src2 } => OpView::Div { dest, src1, src2 },
        IROp::Mod { dest, src1, src2 } => OpView::Mod { dest, src1, src2 },
        IROp::Eq { dest, src1, src2 } => OpView::Eq { dest, src1, src2 },
        IROp::Neq { dest, src1, src2 } => OpView::Neq { dest, src1, src2 },
        IROp::Lt { dest, src1, src2 } => OpView::Lt { dest, src1, src2 },
        IROp::Lte { dest, src1, src2 } => OpView::Lte { dest, src1, src2 },
        IROp::Gt { dest, src1, src2 } => OpView::Gt { dest, src1, src2 },
        IROp::Gte { dest, src1, src2 } => OpView::Gte { dest, src1, src2 },
        IROp::And { dest, src1, src2 } => OpView::And { dest, src1, src2 },
        IROp::Or { dest, src1, src2 } => OpView::Or { dest, src1, src2 },
        IROp::Not { dest, src } => OpView::Not { dest, src },
        IROp::Inc { dest } => OpView::Inc { dest },
        IROp::Dec { dest } => OpView::Dec { dest },
        IROp::Label { name } => OpView::Label { name: name@ },
        IROp::Jump { target } => OpView::Jump { target },
        IROp::BrTrue { cond, target } => OpView::BrTrue { cond, target },
        IROp::BrFalse { cond, target } => OpView::BrFalse { cond, target },
        IROp::Halt => OpView::Halt,
        IROp::Call { dest, func, args } => OpView::Call { dest, func, args: args@ },
        IROp::CallLabel { dest, label_index, args } => OpView::CallLabel { dest, label_index, args: args@ },
        IROp::Ret { src } => OpView::Ret { src },
    }
}

/// What a list of instructions denotes.
pub open spec fn ops_view(ops: Seq<IROp>) -> Seq<OpView> {
    ops.map_values(|op: IROp| op_view(op))
}

/// A scope of locals: names with their local indices, in binding order.
pub type ScopeView = Seq<(Seq<char>, usize)>;

/// The state of lowering: the instructions so far, the next register, the scopes
/// of locals (innermost last), the next internal label, the pending relocations
/// (branch index and label name) and the label positions (latest last).
pub struct LowerState {
    pub code: Seq<OpView>,
    pub next_reg: usize,
    pub scopes: Seq<ScopeView>,
    pub next_label: usize,
    pub relocs: Seq<(usize, Seq<char>)>,
    pub labels: Seq<(Seq<char>, usize)>,
}

/// A fresh register.
#[verifier::opaque]
pub open spec fn s_reg(s: LowerState) -> (LowerState, usize) {
    (LowerState { next_reg: (s.next_reg + 1) as usize, ..s }, s.next_reg)
}

/// The register `r`, or a fresh one.
pub open spec fn s_reg_or(s: LowerState, r: Option<usize>) -> (LowerState, usize) {
    match r {
        Some(v) => (s, v),
        None => s_reg(s),
    }
}

/// Appends an instruction.
#[verifier::opaque]
pub open spec fn s_emit(s: LowerState, op: OpView) -> LowerState {
    LowerState { code: s.code.push(op), ..s }
}

/// Appends a label and records its position.
#[verifier::opaque]
pub open spec fn s_label(s: LowerState, name: Seq<char>) -> LowerState {
    LowerState {
        code: s.code.push(OpView::Label { name }),
        labels: s.labels.push((name, s.code.len() as usize)),
        ..s
    }
}

/// Appends an unpatched jump (`kind` 0), false-branch (1) or true-branch (2) on
/// `cond`, and records its relocation to `label`.
#[verifier::opaque]
pub open spec fn s_branch(s: LowerState, kind: u8, cond: usize, label: Seq<char>) -> LowerState {
    let op = if kind == 0 {
        OpView::Jump { target: 0 }
    } else if kind == 1 {
        OpView::BrFalse { cond, target: 0 }
    } else {
        OpView::BrTrue { cond, target: 0 }
    };
    LowerState {
        code: s.code.push(op),
        relocs: s.relocs.push((s.code.len() as usize, label)),
        ..s
    }
}

/// A fresh internal label name.
#[verifier::opaque]
pub open spec fn s_fresh_label(s: LowerState) -> (LowerState, Seq<char>) {
    (LowerState { next_label: (s.next_label + 1) as usize, ..s }, internal_label(s.next_label))
}

/// The index bound to `name` at or after position `j` of a scope, the first such.
pub open spec fn find_from(sc: ScopeView, name: Seq<char>, j: int) -> Option<usize>
    decreases sc.len() - j,
{
    if j < 0 || j >= sc.len() {
        None
    } else if sc[j].0 == name {
        Some(sc[j].1)
    } else {
        find_from(sc, name, j + 1)
    }
}

/// The first position at or after `j` of a scope that binds `name`.
pub open spec fn pos_from(sc: ScopeView, name: Seq<char>, j: int) -> Option<int>
    decreases sc.len() - j,
{
    if j < 0 || j >= sc.len() {
        None
    } else if sc[j].0 == name {
        Some(j)
    } else {
        pos_from(sc, name, j + 1)
    }
}

/// The scopes, with an empty one when there is none.
pub open spec fn with_scope(scopes: Seq<ScopeView>) -> Seq<ScopeView> {
    if scopes.len() == 0 { seq![Seq::empty()] } else { scopes }
}

/// The index of `name` in the innermost scope.
pub open spec fn scope_get(scopes: Seq<ScopeView>, name: Seq<char>) -> Option<usize> {
    if scopes.len() == 0 { None } else { find_from(scopes.last(), name, 0) }
}

/// The scopes with `name` bound to `idx` in the innermost one: its first binding
/// of `name` is replaced, or the binding is added at the end.
pub open spec fn scope_put(scopes: Seq<ScopeView>, name: Seq<char>, idx: usize) -> Seq<ScopeView> {
    let w = with_scope(scopes);
    let sc = w.last();
    let sc2 = match pos_from(sc, name, 0) {
        Some(p) => sc.update(p, (name, idx)),
        None => sc.push((name, idx)),
    };
    w.drop_last().push(sc2)
}

/// The number of bindings of the innermost scope.
pub open spec fn scope_len(scopes: Seq<ScopeView>) -> usize {
    if scopes.len() == 0 { 0 } else { scopes.last().len() as usize }
}

/// The index of `name` in the innermost of the first `s` scopes that binds it.
pub open spec fn lookup_from(scopes: Seq<ScopeView>, name: Seq<char>, s: int) -> Option<usize>
    decreases s,
{
    if s <= 0 || s > scopes.len() {
        None
    } else {
        match find_from(scopes[s - 1], name, 0) {
            Some(i) => Some(i),
            None => lookup_from(scopes, name, s - 1),
        }
    }
}

/// The index of `name` in the innermost scope that binds it.
pub open spec fn lookup(scopes: Seq<ScopeView>, name: Seq<char>) -> Option<usize> {
    lookup_from(scopes, name, scopes.len() as int)
}

/// The position recorded last for `name` among the first `j` label positions.
pub open spec fn last_label_from(labels: Seq<(Seq<char>, usize)>, name: Seq<char>, j: int) -> Option<usize>
    decreases j,
{
    if j <= 0 || j > labels.len() {
        None
    } else if labels[j - 1].0 == name {
        Some(labels[j - 1].1)
    } else {
        last_label_from(labels, name, j - 1)
    }
}

/// Binds `name` to `idx` in the innermost scope.
#[verifier::opaque]
pub open spec fn s_bind(s: LowerState, name: Seq<char>, idx: usize) -> LowerState {
    LowerState { scopes: scope_put(s.scopes, name, idx), ..s }
}

/// The index of `name` in the innermost scope, bound to the next index if needed.
#[verifier::opaque]
pub open spec fn s_local_index(s: LowerState, name: Seq<char>) -> (LowerState, usize) {
    let w = with_scope(s.scopes);
    match scope_get(w, name) {
        Some(i) => (LowerState { scopes: w, ..s }, i),
        None => (LowerState { scopes: scope_put(w, name, scope_len(w)), ..s }, scope_len(w)),
    }
}

/// The instruction of a binary operator.
pub open spec fn binary_view(op: BinaryOperator, dest: usize, src1: usize, src2: usize) -> OpView {
    match op {
        BinaryOperator::Add => OpView::Add { dest, src1, src2 },
        BinaryOperator::Sub => OpView::Sub { dest, src1, src2 },
        BinaryOperator::Mul => OpView::Mul { dest, src1, src2 },
        BinaryOperator::Div => OpView::Div { dest, src1, src2 },
        BinaryOperator::Mod => OpView::Mod { dest, src1, src2 },
        BinaryOperator::Eq => OpView::Eq { dest, src1, src2 },
        BinaryOperator::Ne => OpView::Neq { dest, src1, src2 },
        BinaryOperator::Lt => OpView::Lt { dest, src1, src2 },
        BinaryOperator::Le => OpView::Lte { dest, src1, src2 },
        BinaryOperator::Gt => OpView::Gt { dest, src1, src2 },
        BinaryOperator::Ge => OpView::Gte { dest, src1, src2 },
    }
}

/// The size of a list is that of its front and its last tree.
pub proof fn lemma_list_size_last(s: Seq<AstNode>)
    requires
        s.len() > 0,
    ensures
        list_size(s) == list_size(s.drop_last()) + node_size(s.last()),
        node_size(s.last()) >= 1,
    decreases s.len(),
{
    if s.len() == 1 {
        assert(s.drop_last().len() == 0);
        assert(s.drop_first().len() == 0);
        assert(list_size(s.drop_first()) == 0);
    } else {
        lemma_list_size_last(s.drop_first());
        assert(s.drop_first().drop_last() =~= s.drop_last().drop_first());
        assert(s.drop_first().last() == s.last());
        assert(s.drop_last()[0] == s[0]);
    }
}

/// Loads a constant into a fresh register.
pub open spec fn lw_const(s: LowerState, value: ValueView) -> (LowerState, Option<usize>) {
    let (s1, dest) = s_reg(s);
    (s_emit(s1, OpView::LConst { dest, value }), Some(dest))
}

/// Binds the identifiers among stage parameters to the next indices in turn.
pub open spec fn lw_params(s: LowerState, params: Seq<AstNode>) -> LowerState
    decreases params.len(),
{
    if params.len() == 0 {
        s
    } else {
        let s1 = lw_params(s, params.drop_last());
        match params.last().kind {
            AstNodeKind::Identifier { name } => s_bind(s1, name@, scope_len(s1.scopes)),
            _ => s1,
        }
    }
}

/// The state after lowering a tree, and the register holding the value of an
/// expression.
pub open spec fn lw(s: LowerState, n: AstNode) -> (LowerState, Option<usize>)
    decreases node_size(n), 2nat,
{
    match n.kind {
        AstNodeKind::Script { body } => (lw_each(s, body@), None),
        AstNodeKind::Block { statements } => (lw_each(s, statements@), None),
        AstNodeKind::Stage { name, args, body } => (lw_stage(s, name@, args, *body), None),
        AstNodeKind::If { condition, body } => (lw_if(s, *condition, *body), None),
        AstNodeKind::IfElse { condition, if_body, else_body } =>
            (lw_if_else(s, *condition, *if_body, *else_body), None),
        AstNodeKind::While { condition, body } => (lw_while(s, *condition, *body), None),
        AstNodeKind::ForTo { initializer, limit, body } => (lw_for_to(s, *initializer, *limit, *body), None),
        AstNodeKind::ForIn { iterator, iterable, body } => (lw_for_in(s, iterator@, *iterable, *body), None),
        AstNodeKind::Assignment { target, value } => lw_assign(s, *target, *value),
        AstNodeKind::Return { value } => (lw_return(s, value), None),
        AstNodeKind::Identifier { name } => {
            let found = lookup(s.scopes, name@);
            let (s1, dest) = s_reg(s);
            match found {
                Some(idx) => (s_emit(s1, OpView::LLocal { dest, local_index: idx }), Some(dest)),
                None => (s_emit(s1, OpView::LConst { dest, value: ValueView::Str(name@) }), Some(dest)),
            }
        },
        AstNodeKind::Integer { value } => lw_const(s, ValueView::Int(value)),
        AstNodeKind::Float { value } => lw_const(s, ValueView::Float(value)),
        AstNodeKind::Bool { value } => lw_const(s, ValueView::Bool(value)),
        AstNodeKind::String { value } => lw_const(s, ValueView::Str(value@)),
        AstNodeKind::BinaryOp { left, op, right } => lw_binary(s, *left, op, *right),
        AstNodeKind::UnaryOp { op, expr } => lw_unary(s, op, *expr),
        AstNodeKind::Call { callee, args } => lw_call(s, *callee, args@),
        AstNodeKind::List { elements } => lw_list(s, elements@),
        _ => (s, None),
    }
}

/// Lowers each tree of a list in order.
pub open spec fn lw_each(s: LowerState, items: Seq<AstNode>) -> LowerState
    decreases list_size(items), 3nat,
{
    if items.len() == 0 {
        s
    } else {
        proof { lemma_list_size_last(items); }
        lw(lw_each(s, items.drop_last()), items.last()).0
    }
}

/// Lowers call arguments, collecting the registers of those that yield one.
pub open spec fn lw_args(s: LowerState, args: Seq<AstNode>) -> (LowerState, Seq<usize>)
    decreases list_size(args), 3nat,
{
    if args.len() == 0 {
        (s, Seq::empty())
    } else {
        proof { lemma_list_size_last(args); }
        let (s1, regs) = lw_args(s, args.drop_last());
        let (s2, ar) = lw(s1, args.last());
        (s2, match ar { Some(a) => regs.push(a), None => regs })
    }
}

/// A list literal: its elements, then the array of their values loaded into a
/// fresh register.
pub open spec fn lw_list(s: LowerState, elements: Seq<AstNode>) -> (LowerState, Option<usize>)
    decreases 1 + list_size(elements), 1nat,
{
    let (s1, vals) = lw_elems(s, elements);
    let (s2, dest) = s_reg(s1);
    (s_emit(s2, OpView::LConst { dest, value: ValueView::Array(vals) }), Some(dest))
}

/// Lowers the elements of a list literal: literals and identifiers give their
/// value, other trees are lowered and give null.
pub open spec fn lw_elems(s: LowerState, elems: Seq<AstNode>) -> (LowerState, Seq<ValueView>)
    decreases list_size(elems), 3nat,
{
    if elems.len() == 0 {
        (s, Seq::empty())
    } else {
        proof { lemma_list_size_last(elems); }
        let (s1, vals) = lw_elems(s, elems.drop_last());
        let e = elems.last();
        match e.kind {
            AstNodeKind::Integer { value } => (s1, vals.push(ValueView::Int(value))),
            AstNodeKind::Float { value } => (s1, vals.push(ValueView::Float(value))),
            AstNodeKind::Bool { value } => (s1, vals.push(ValueView::Bool(value))),
            AstNodeKind::String { value } => (s1, vals.push(ValueView::Str(value@))),
            AstNodeKind::Identifier { name } => (s1, vals.push(ValueView::Str(name@))),
            _ => (lw(s1, e).0, vals.push(ValueView::Null)),
        }
    }
}

/// A stage: its label, a new scope with the parameters bound, the body, a halt,
/// and the scope dropped.
pub open spec fn lw_stage(s: LowerState, name: Seq<char>, args: Option<Box<AstNode>>, body: AstNode) -> LowerState
    decreases 1 + node_size(body) + match args { Some(a) => node_size(*a), None => 0 }, 1nat,
{
    let s1 = s_label(s, name);
    let s2 = LowerState { scopes: s1.scopes.push(Seq::empty()), ..s1 };
    let s3 = match args {
        Some(a) => match a.kind {
            AstNodeKind::Arguments { args: params } => lw_params(s2, params@),
            _ => s2,
        },
        None => s2,
    };
    let s4 = s_emit(lw(s3, body).0, OpView::Halt);
    LowerState { scopes: if s4.scopes.len() > 0 { s4.scopes.drop_last() } else { s4.scopes }, ..s4 }
}

/// `if`: the condition, a false-branch past the body, the body, the end label.
pub open spec fn lw_if(s: LowerState, c: AstNode, b: AstNode) -> LowerState
    decreases 1 + node_size(c) + node_size(b), 1nat,
{
    let (s1, end) = s_fresh_label(s);
    let (s2, rc) = lw(s1, c);
    let (s3, cr) = s_reg_or(s2, rc);
    let s4 = s_branch(s3, 1, cr, end);
    s_label(lw(s4, b).0, end)
}

/// `if`/`else`: the condition, a false-branch to the else label, the first body,
/// a jump to the end, the else label, the second body, the end label.
pub open spec fn lw_if_else(s: LowerState, c: AstNode, ib: AstNode, eb: AstNode) -> LowerState
    decreases 1 + node_size(c) + node_size(ib) + node_size(eb), 1nat,
{
    let (s1, else_l) = s_fresh_label(s);
    let (s2, end_l) = s_fresh_label(s1);
    let (s3, rc) = lw(s2, c);
    let (s4, cr) = s_reg_or(s3, rc);
    let s5 = s_branch(s4, 1, cr, else_l);
    let s6 = lw(s5, ib).0;
    let s7 = s_label(s_branch(s6, 0, 0, end_l), else_l);
    s_label(lw(s7, eb).0, end_l)
}

/// `while`: the start label, the condition, a false-branch to the end, the body,
/// a jump back to the start, the end label.
pub open spec fn lw_while(s: LowerState, c: AstNode, b: AstNode) -> LowerState
    decreases 1 + node_size(c) + node_size(b), 1nat,
{
    let (s1, start) = s_fresh_label(s);
    let (s2, end) = s_fresh_label(s1);
    let (s3, rc) = lw(s_label(s2, start), c);
    let (s4, cr) = s_reg_or(s3, rc);
    let s5 = lw(s_branch(s4, 1, cr, end), b).0;
    s_label(s_branch(s5, 0, 0, start), end)
}

/// The loop variable of a counting loop: the innermost binding of the variable
/// that the initializer assigns, if it assigns one.
pub open spec fn for_to_var(s: LowerState, init: AstNode) -> (LowerState, Option<usize>) {
    match init.kind {
        AstNodeKind::Assignment { target, .. } => match target.kind {
            AstNodeKind::Identifier { name } => {
                let w = with_scope(s.scopes);
                (LowerState { scopes: w, ..s }, scope_get(w, name@))
            },
            _ => (s, None),
        },
        _ => (s, None),
    }
}

/// A counting loop: the initializer, the limit, the start label; with a loop
/// variable, the test against the limit, a false-branch to the end, the body, the
/// increment and a jump back; then the end label.
pub open spec fn lw_for_to(s: LowerState, init: AstNode, limit: AstNode, body: AstNode) -> LowerState
    decreases 1 + node_size(init) + node_size(limit) + node_size(body), 1nat,
{
    let (s2, var) = for_to_var(lw(s, init).0, init);
    let (s3, lo) = lw(s2, limit);
    let (s4, limit_reg) = s_reg_or(s3, lo);
    let (s5, start) = s_fresh_label(s4);
    let (s6, end) = s_fresh_label(s5);
    let s7 = s_label(s6, start);
    match var {
        Some(idx) => {
            let (s8, lv) = s_reg(s7);
            let (s10, cond) = s_reg(s_emit(s8, OpView::LLocal { dest: lv, local_index: idx }));
            let s11 = s_emit(s10, OpView::Lt { dest: cond, src1: lv, src2: limit_reg });
            let s13 = lw(s_branch(s11, 1, cond, end), body).0;
            let (s14, one) = s_reg(s13);
            let (s16, newv) = s_reg(s_emit(s14, OpView::LConst { dest: one, value: ValueView::Int(1) }));
            let s17 = s_emit(s16, OpView::Add { dest: newv, src1: lv, src2: one });
            let s18 = s_emit(s17, OpView::SLocal { src: newv, local_index: idx });
            s_label(s_branch(s18, 0, 0, start), end)
        },
        None => s_label(s7, end),
    }
}

/// A loop over a collection: over the elements of a list literal one by one, or
/// by index over any other value.
pub open spec fn lw_for_in(s: LowerState, iterator: Seq<char>, iterable: AstNode, body: AstNode) -> LowerState
    decreases 1 + node_size(iterable) + node_size(body), 1nat,
{
    match iterable.kind {
        AstNodeKind::List { elements } => {
            let (s1, idx) = s_local_index(s, iterator);
            lw_in_list(s1, elements@, idx, body)
        },
        _ => lw_in_general(s, iterator, iterable, body),
    }
}

/// For each element of a list literal: its value stored in the loop variable,
/// then the body.
pub open spec fn lw_in_list(s: LowerState, elems: Seq<AstNode>, idx: usize, body: AstNode) -> LowerState
    decreases list_size(elems) + node_size(body), 3nat,
{
    if elems.len() == 0 {
        s
    } else {
        proof { lemma_list_size_last(elems); }
        let s1 = lw_in_list(s, elems.drop_last(), idx, body);
        let e = elems.last();
        let (s2, val) = match e.kind {
            AstNodeKind::Integer { value } => {
                let (a, r) = s_reg(s1);
                (s_emit(a, OpView::LConst { dest: r, value: ValueView::Int(value) }), r)
            },
            AstNodeKind::Float { value } => {
                let (a, r) = s_reg(s1);
                (s_emit(a, OpView::LConst { dest: r, value: ValueView::Float(value) }), r)
            },
            AstNodeKind::Bool { value } => {
                let (a, r) = s_reg(s1);
                (s_emit(a, OpView::LConst { dest: r, value: ValueView::Bool(value) }), r)
            },
            AstNodeKind::String { value } => {
                let (a, r) = s_reg(s1);
                (s_emit(a, OpView::LConst { dest: r, value: ValueView::Str(value@) }), r)
            },
            _ => {
                let (a, ro) = lw(s1, e);
                s_reg_or(a, ro)
            },
        };
        lw(s_emit(s2, OpView::SLocal { src: val, local_index: idx }), body).0
    }
}

/// A loop by index: the collection and its length, the loop variable and an index
/// local set to zero, the start label, the test of the index, a false-branch to the
/// end, the element stored in the loop variable, the body, the increment, a jump
/// back, the end label.
pub open spec fn lw_in_general(s: LowerState, iterator: Seq<char>, iterable: AstNode, body: AstNode) -> LowerState
    decreases 1 + node_size(iterable) + node_size(body), 0nat,
{
    let (s1, io) = lw(s, iterable);
    let (s2, iter_reg) = s_reg_or(s1, io);
    let (s3, len_func) = s_reg(s2);
    let (s5, len_dest) = s_reg(s_emit(s3, OpView::LConst { dest: len_func, value: ValueView::Str("len"@) }));
    let s6 = s_emit(s5, OpView::Call { dest: len_dest, func: len_func, args: seq![iter_reg] });
    let (s7, iter_local) = s_local_index(s6, iterator);
    let idx_local = scope_len(s7.scopes);
    let (s9, zero) = s_reg(s_bind(s7, iterator + "_idx"@, idx_local));
    let s11 = s_emit(s_emit(s9, OpView::LConst { dest: zero, value: ValueView::Int(0) }),
        OpView::SLocal { src: zero, local_index: idx_local });
    let (s12, start) = s_fresh_label(s11);
    let (s13, end) = s_fresh_label(s12);
    let (s15, idx_r) = s_reg(s_label(s13, start));
    let (s17, cond) = s_reg(s_emit(s15, OpView::LLocal { dest: idx_r, local_index: idx_local }));
    let s19 = s_branch(s_emit(s17, OpView::Lt { dest: cond, src1: idx_r, src2: len_dest }), 1, cond, end);
    let (s20, index_func) = s_reg(s19);
    let (s22, val_dest) = s_reg(s_emit(s20, OpView::LConst { dest: index_func, value: ValueView::Str("index"@) }));
    let s23 = s_emit(s22, OpView::Call { dest: val_dest, func: index_func, args: seq![iter_reg, idx_r] });
    let s25 = lw(s_emit(s23, OpView::SLocal { src: val_dest, local_index: iter_local }), body).0;
    let (s26, one) = s_reg(s25);
    let (s28, newv) = s_reg(s_emit(s26, OpView::LConst { dest: one, value: ValueView::Int(1) }));
    let s30 = s_emit(s_emit(s28, OpView::Add { dest: newv, src1: idx_r, src2: one }),
        OpView::SLocal { src: newv, local_index: idx_local });
    s_label(s_branch(s30, 0, 0, start), end)
}

/// An assignment: the value, then, to an identifier, its store to the variable's
/// local.
pub open spec fn lw_assign(s: LowerState, target: AstNode, value: AstNode) -> (LowerState, Option<usize>)
    decreases 1 + node_size(target) + node_size(value), 1nat,
{
    let (s1, rv) = lw(s, value);
    let (s2, v) = s_reg_or(s1, rv);
    match target.kind {
        AstNodeKind::Identifier { name } => {
            let (s3, idx) = s_local_index(s2, name@);
            (s_emit(s3, OpView::SLocal { src: v, local_index: idx }), Some(v))
        },
        _ => (s2, Some(v)),
    }
}

/// A return: of the value, or of null.
pub open spec fn lw_return(s: LowerState, value: Option<Box<AstNode>>) -> LowerState
    decreases 1 + match value { Some(v) => node_size(*v), None => 0 }, 1nat,
{
    match value {
        Some(v) => {
            let (s1, r0) = lw(s, *v);
            let (s2, src) = s_reg_or(s1, r0);
            s_emit(s2, OpView::Ret { src })
        },
        None => {
            let (s1, r) = s_reg(s);
            s_emit(s_emit(s1, OpView::LConst { dest: r, value: ValueView::Null }), OpView::Ret { src: r })
        },
    }
}

/// A binary operation on the two operands, into a fresh register.
pub open spec fn lw_binary(s: LowerState, left: AstNode, op: BinaryOperator, right: AstNode) -> (LowerState, Option<usize>)
    decreases 1 + node_size(left) + node_size(right), 1nat,
{
    let (s1, r1o) = lw(s, left);
    let (s2, r1) = s_reg_or(s1, r1o);
    let (s3, r2o) = lw(s2, right);
    let (s4, r2) = s_reg_or(s3, r2o);
    let (s5, dest) = s_reg(s4);
    (s_emit(s5, binary_view(op, dest, r1, r2)), Some(dest))
}

/// A unary operation: plus and minus as an addition to or subtraction from zero,
/// negation into a fresh register, increment and decrement in place.
pub open spec fn lw_unary(s: LowerState, op: UnaryOperator, expr: AstNode) -> (LowerState, Option<usize>)
    decreases 1 + node_size(expr), 1nat,
{
    let (s1, ro) = lw(s, expr);
    let (s2, r) = s_reg_or(s1, ro);
    let (s3, dest) = s_reg(s2);
    let zero = OpView::LConst { dest, value: ValueView::Int(0) };
    let s4 = match op {
        UnaryOperator::Plus => s_emit(s_emit(s3, zero), OpView::Add { dest, src1: dest, src2: r }),
        UnaryOperator::Minus => s_emit(s_emit(s3, zero), OpView::Sub { dest, src1: dest, src2: r }),
        UnaryOperator::Not => s_emit(s3, OpView::Not { dest, src: r }),
        UnaryOperator::Inc => s_emit(s3, OpView::Inc { dest: r }),
        UnaryOperator::Dec => s_emit(s3, OpView::Dec { dest: r }),
    };
    (s4, Some(dest))
}

/// A call: directly to the label of a stage named by the callee, or through the
/// callee's value (its name, for an identifier); arguments in order.
pub open spec fn lw_call(s: LowerState, callee: AstNode, args: Seq<AstNode>) -> (LowerState, Option<usize>)
    decreases 1 + node_size(callee) + list_size(args), 1nat,
{
    let direct = match callee.kind {
        AstNodeKind::Identifier { name } => last_label_from(s.labels, name@, s.labels.len() as int),
        _ => None,
    };
    match direct {
        Some(li) => {
            let (s1, regs) = lw_args(s, args);
            let (s2, dest) = s_reg(s1);
            (s_emit(s2, OpView::CallLabel { dest, label_index: li, args: regs }), Some(dest))
        },
        None => {
            let (s1, fr) = match callee.kind {
                AstNodeKind::Identifier { name } => {
                    let (a, r) = s_reg(s);
                    (s_emit(a, OpView::LConst { dest: r, value: ValueView::Str(name@) }), r)
                },
                _ => {
                    let (a, fo) = lw(s, callee);
                    s_reg_or(a, fo)
                },
            };
            let (s2, regs) = lw_args(s1, args);
            let (s3, dest) = s_reg(s2);
            (s_emit(s3, OpView::Call { dest, func: fr, args: regs }), Some(dest))
        },
    }
}

/// Lowers, in order, the stages among a list of trees.
pub open spec fn lw_stages(s: LowerState, items: Seq<AstNode>) -> LowerState
    decreases items.len(),
{
    if items.len() == 0 {
        s
    } else {
        let s1 = lw_stages(s, items.drop_last());
        match items.last().kind {
            AstNodeKind::Stage { .. } => lw(s1, items.last()).0,
            _ => s1,
        }
    }
}

/// The first position at or after `j` of a workspace named `name`.
pub open spec fn workspace_named_from(items: Seq<AstNode>, name: Seq<char>, j: int) -> Option<int>
    decreases items.len() - j,
{
    if j < 0 || j >= items.len() {
        None
    } else {
        match items[j].kind {
            AstNodeKind::Workspace { name: n, .. } => if n@ == name {
                Some(j)
            } else {
                workspace_named_from(items, name, j + 1)
            },
            _ => workspace_named_from(items, name, j + 1),
        }
    }
}

/// The first position at or after `j` of a workspace.
pub open spec fn workspace_from(items: Seq<AstNode>, j: int) -> Option<int>
    decreases items.len() - j,
{
    if j < 0 || j >= items.len() {
        None
    } else if items[j].kind is Workspace {
        Some(j)
    } else {
        workspace_from(items, j + 1)
    }
}

/// The entry workspace of a script body: the first named `entrypoint`, else the
/// first of all.
pub open spec fn entry_workspace(items: Seq<AstNode>, entrypoint: Seq<char>) -> Option<int> {
    match workspace_named_from(items, entrypoint, 0) {
        Some(i) => Some(i),
        None => workspace_from(items, 0),
    }
}

/// The state after lowering a script: its stages first, then the body of its entry
/// workspace. Any other tree lowers to nothing.
pub open spec fn lw_script(s: LowerState, ast: AstNode, entrypoint: Seq<char>) -> LowerState {
    match ast.kind {
        AstNodeKind::Script { body } => {
            let s1 = lw_stages(s, body@);
            match entry_workspace(body@, entrypoint) {
                Some(c) => match body@[c].kind {
                    AstNodeKind::Workspace { body: wb, .. } => lw(s1, *wb).0,
                    _ => s1,
                },
                None => s1,
            }
        },
        _ => s,
    }
}

/// The last position before `j` of a label named `name`.
pub open spec fn label_before(code: Seq<OpView>, name: Seq<char>, j: int) -> Option<usize>
    decreases j,
{
    if j <= 0 || j > code.len() {
        None
    } else if code[j - 1] == (OpView::Label { name }) {
        Some((j - 1) as usize)
    } else {
        label_before(code, name, j - 1)
    }
}

/// A jump or branch with its target set to `t`; any other instruction unchanged.
pub open spec fn retarget(op: OpView, t: usize) -> OpView {
    match op {
        OpView::Jump { .. } => OpView::Jump { target: t },
        OpView::BrFalse { cond, .. } => OpView::BrFalse { cond, target: t },
        OpView::BrTrue { cond, .. } => OpView::BrTrue { cond, target: t },
        _ => op,
    }
}

/// The instructions with each relocated branch, in the order of the relocations,
/// set to the last label of the relocation's name in `labels_of`.
pub open spec fn patch_code(code: Seq<OpView>, labels_of: Seq<OpView>, relocs: Seq<(usize, Seq<char>)>) -> Seq<OpView>
    decreases relocs.len(),
{
    if relocs.len() == 0 {
        code
    } else {
        let c = patch_code(code, labels_of, relocs.drop_last());
        let (pos, name) = relocs.last();
        match label_before(labels_of, name, labels_of.len() as int) {
            Some(t) => if pos < c.len() { c.update(pos as int, retarget(c[pos as int], t)) } else { c },
            None => c,
        }
    }
}

/// The state after patching every relocated branch to its label.
pub open spec fn patched(s: LowerState) -> LowerState {
    LowerState { code: patch_code(s.code, s.code, s.relocs), ..s }
}

} // verus!
