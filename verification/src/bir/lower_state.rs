//! The state of the AST-to-BIR lowering and the control-flow shapes it builds:
//! fresh values and blocks, the block under construction, variable scopes, loops,
//! and the branch, join and loop blocks of `if`/`else`, `&&`, `||`, `while` and `break`.
use vstd::prelude::*;

use super::instruction::{BasicBlock, BirBinOp, BirCompareOp, BirType, CfgRegion, Instruction, Terminator, TypeV, Value};
use super::instruction::{views, BirFunction};
use super::mono::{resolve, resolve_bir_type_lenient, subst_view};
use super::optimize::{bir_arith_holds, compare_ints, is_truncated_quotient};
use crate::error::{BengalError, DiagCtxt, Span};
use crate::ast::{annotation_views, BinOp, Function, TypeAnnotation, TypeAnnotationV};

verus! {

/// How a statement ended the straight-line code it was lowered into.
#[derive(Debug, Clone, Copy)]
pub enum StmtResult {
    Normal,
    Return(Value),
    ReturnVoid,
    Yield(Value),
    Break,
    Continue,
}

/// The blocks of the innermost enclosing `while`.
pub struct LoopContext {
    pub header_bb: u32,
    pub exit_bb: u32,
    /// The type of the value that a `break` carries out of the loop, once one was seen.
    pub break_ty: Option<BirType>,
}

/// The lowering of one function body in progress.
pub struct Lowering {
    pub next_value: u32,
    pub next_block: u32,
    /// Variable bindings, innermost scope last; within a scope the last binding of a name counts.
    pub scopes: Vec<Vec<(String, Value)>>,
    /// The blocks sealed so far.
    pub blocks: Vec<BasicBlock>,
    pub current_instructions: Vec<Instruction>,
    pub current_block_label: u32,
    pub current_block_params: Vec<(Value, BirType)>,
    /// Control-flow regions built while lowering the current expression.
    pub pending_regions: Vec<CfgRegion>,
    /// The `var` variables, with their types, in order of declaration.
    pub mutable_vars: Vec<(String, BirType)>,
    pub loop_stack: Vec<LoopContext>,
    /// The type of each value; the last entry for a value counts.
    pub value_types: Vec<(Value, BirType)>,
    /// Set when an `if`/`else` whose branches all leave was just lowered.
    pub last_expr_diverged: bool,
    /// The type parameters of the function being lowered.
    pub current_type_params: Vec<String>,
    /// Local names paired with the names they are emitted under, when lowering one module of a package.
    pub name_map: Option<Vec<(String, String)>>,
    /// The errors met so far, in order.
    pub lowering_errors: Vec<BengalError>,
    /// The return type of each function, by emitted name.
    pub func_sigs: Vec<(String, BirType)>,
    /// The type parameter names of each generic function, by emitted name.
    pub func_type_param_names: Vec<(String, Vec<String>)>,
    /// The ids of the calls that construct a struct.
    pub struct_init_calls: Vec<u32>,
    /// The inferred type arguments of calls written without them, by call id.
    pub inferred_type_args: Vec<(u32, Vec<TypeAnnotation>)>,
}

/// The binding of `name` in one scope: the last one.
pub open spec fn scope_lookup(s: Seq<(String, Value)>, name: Seq<char>) -> Option<Value>
    decreases s.len(),
{
    if s.len() == 0 {
        None
    } else if s.last().0@ == name {
        Some(s.last().1)
    } else {
        scope_lookup(s.drop_last(), name)
    }
}

/// The position of the innermost scope that binds `name`.
pub open spec fn scope_of(scopes: Seq<Vec<(String, Value)>>, name: Seq<char>) -> Option<int>
    decreases scopes.len(),
{
    if scopes.len() == 0 {
        None
    } else if scope_lookup(scopes.last()@, name) is Some {
        Some(scopes.len() - 1)
    } else {
        scope_of(scopes.drop_last(), name)
    }
}

/// The value that `name` is bound to in the innermost scope that binds it.
pub open spec fn lookup(scopes: Seq<Vec<(String, Value)>>, name: Seq<char>) -> Option<Value> {
    match scope_of(scopes, name) {
        Some(i) => scope_lookup(scopes[i]@, name),
        None => None,
    }
}

/// The recorded type of value `v`: the last entry for it.
pub open spec fn type_of(ts: Seq<(Value, BirType)>, v: Value) -> Option<TypeV>
    decreases ts.len(),
{
    if ts.len() == 0 {
        None
    } else if ts.last().0 == v {
        Some(ts.last().1@)
    } else {
        type_of(ts.drop_last(), v)
    }
}

/// The type that a value is taken to have: its recorded type, else `I32`.
pub open spec fn type_or_i32(ts: Seq<(Value, BirType)>, v: Value) -> TypeV {
    match type_of(ts, v) {
        Some(t) => t,
        None => TypeV::I32,
    }
}

/// The bindings, loops and types of two states agree.
pub open spec fn same_names(a: Lowering, b: Lowering) -> bool {
    &&& a.scopes == b.scopes
    &&& a.mutable_vars == b.mutable_vars
    &&& a.loop_stack == b.loop_stack
    &&& a.value_types == b.value_types
}

/// The blocks and regions of two states agree.
pub open spec fn same_code(a: Lowering, b: Lowering) -> bool {
    &&& a.blocks == b.blocks
    &&& a.current_instructions == b.current_instructions
    &&& a.current_block_label == b.current_block_label
    &&& a.current_block_params == b.current_block_params
    &&& a.pending_regions == b.pending_regions
}

/// The function context of two states agrees: its type parameters and name map; so do
/// the errors recorded.
pub open spec fn same_context(a: Lowering, b: Lowering) -> bool {
    &&& a.current_type_params == b.current_type_params
    &&& a.name_map == b.name_map
    &&& a.lowering_errors == b.lowering_errors
    &&& a.func_sigs == b.func_sigs
    &&& a.func_type_param_names == b.func_type_param_names
    &&& a.struct_init_calls == b.struct_init_calls
    &&& a.inferred_type_args == b.inferred_type_args
}

/// The counters and the divergence flag of two states agree.
pub open spec fn same_counters(a: Lowering, b: Lowering) -> bool {
    &&& a.next_value == b.next_value
    &&& a.next_block == b.next_block
    &&& a.last_expr_diverged == b.last_expr_diverged
}

/// The block sealed from the block under construction with terminator `t`.
pub open spec fn sealed(s: Lowering, t: Terminator) -> BasicBlock {
    BasicBlock {
        label: s.current_block_label,
        params: s.current_block_params,
        instructions: s.current_instructions,
        terminator: t,
    }
}

/// The terminator that ends a branch of an `if`/`else` whose statements ended as `result`:
/// a yielded value goes to the join block as its argument, a fall-through jumps there with
/// none, a return returns, and a `break` or `continue`, whose jump is already sealed,
/// leaves a dead block that returns.
pub open spec fn branch_exit(t: Terminator, result: StmtResult, merge_bb: u32, merge_ty: TypeV) -> bool {
    match result {
        StmtResult::Yield(v) => t matches Terminator::Br { target, args } && target == merge_bb
            && args@.len() == 1 && args@[0].0 == v && args@[0].1@ == merge_ty,
        StmtResult::Return(v) => t == Terminator::Return(v),
        StmtResult::Normal => t matches Terminator::Br { target, args } && target == merge_bb && args@.len() == 0,
        _ => t == Terminator::ReturnVoid,
    }
}

/// `t` jumps to `target` passing the `Bool` value `v`.
pub open spec fn bool_jump(t: Terminator, target: u32, v: Value) -> bool {
    t matches Terminator::Br { target: tt, args } && tt == target && args@ == seq![(v, BirType::Bool)]
}

/// Block `b` holds what the block under construction in `s` held.
pub open spec fn holds_current(b: BasicBlock, s: Lowering) -> bool {
    &&& b.label == s.current_block_label
    &&& b.params == s.current_block_params
    &&& b.instructions == s.current_instructions
}

/// The block under construction in `s` is empty, with label `label` and no parameters.
pub open spec fn empty_current(s: Lowering, label: u32) -> bool {
    &&& s.current_block_label == label
    &&& s.current_block_params@.len() == 0
    &&& s.current_instructions@.len() == 0
}

/// The branch of a short-circuit `&&` or `||` in progress.
pub struct ShortCircuit {
    /// The regions built while lowering the left operand.
    pub cond_regions: Vec<CfgRegion>,
    /// The block that tests the left operand.
    pub cond_bb: u32,
    pub cond_value: Value,
    /// Taken when the left operand is true.
    pub bb_then: u32,
    /// Taken when the left operand is false.
    pub bb_else: u32,
    /// Receives the result as its one parameter.
    pub bb_merge: u32,
}

/// The one pending region is the `if`/`else` of a short circuit, with these branch regions.
pub open spec fn short_circuit_region(r: Seq<CfgRegion>, sc: ShortCircuit, then_region: Seq<CfgRegion>, else_region: Seq<CfgRegion>) -> bool {
    &&& r.len() == 1
    &&& r[0] matches CfgRegion::IfElse { cond_region, cond_bb, cond_value, then_region: t, else_region: e, merge_bb }
        && cond_region == sc.cond_regions && cond_bb == sc.cond_bb && cond_value == sc.cond_value
        && t@ == then_region && e@ == else_region && merge_bb == sc.bb_merge
}

/// The `if` of an `if`/`else` in progress.
pub struct IfHead {
    /// The regions built while lowering the condition.
    pub cond_regions: Vec<CfgRegion>,
    /// The block that tests the condition.
    pub cond_bb: u32,
    pub cond_value: Value,
    pub bb_then: u32,
    /// The join block.
    pub bb_merge: u32,
    /// The `else` block; the join block when there is no `else`.
    pub bb_else: u32,
}

/// A block under construction set aside while another one is built.
pub struct OpenBlock {
    pub label: u32,
    pub params: Vec<(Value, BirType)>,
    pub instructions: Vec<Instruction>,
}

/// Whether a branch ended by leaving the enclosing code: a return, a `break` or a `continue`.
pub open spec fn diverges(r: StmtResult) -> bool {
    match r {
        StmtResult::Return(_) | StmtResult::ReturnVoid | StmtResult::Break | StmtResult::Continue => true,
        _ => false,
    }
}

/// Whether a branch ended by yielding a value.
pub open spec fn yields(r: StmtResult) -> bool {
    r is Yield
}

/// The type of the join block's parameter: that of the first yielded value, else `I32`.
pub open spec fn merge_type(ts: Seq<(Value, BirType)>, then_result: StmtResult, else_result: StmtResult) -> TypeV {
    match then_result {
        StmtResult::Yield(v) => type_or_i32(ts, v),
        _ => match else_result {
            StmtResult::Yield(v) => type_or_i32(ts, v),
            _ => TypeV::I32,
        },
    }
}

/// The terminator that ends the branch of an `if` without `else`: like that of an
/// `if`/`else` branch, but a yielded value is dropped.
pub open spec fn if_only_exit(t: Terminator, result: StmtResult, merge_bb: u32) -> bool {
    match result {
        StmtResult::Yield(_) => t matches Terminator::Br { target, args } && target == merge_bb && args@.len() == 0,
        _ => branch_exit(t, result, merge_bb, TypeV::Unit),
    }
}

/// The scopes after the innermost one is closed.
pub open spec fn popped(scopes: Seq<Vec<(String, Value)>>) -> Seq<Vec<(String, Value)>> {
    if scopes.len() == 0 {
        scopes
    } else {
        scopes.drop_last()
    }
}

/// `b` holds the set-aside block `o`.
pub open spec fn holds_open(b: BasicBlock, o: OpenBlock) -> bool {
    &&& b.label == o.label
    &&& b.params == o.params
    &&& b.instructions == o.instructions
}

/// Whether a branch ended by leaving the enclosing code.
fn is_divergent(r: StmtResult) -> (b: bool)
    ensures
        b == diverges(r),
{
    match r {
        StmtResult::Return(_) | StmtResult::ReturnVoid | StmtResult::Break | StmtResult::Continue => true,
        _ => false,
    }
}

/// A binding pushed onto one scope: the name now finds it there, other names find what they did.
pub proof fn lemma_scope_push(s: Seq<(String, Value)>, e: (String, Value), n: Seq<char>)
    ensures
        scope_lookup(s.push(e), n) == if e.0@ == n { Some(e.1) } else { scope_lookup(s, n) },
{
    assert(s.push(e).drop_last() =~= s);
}

/// Looking a name up: in the innermost scope when it binds it, else in the scopes around it.
pub proof fn lemma_lookup_unfold(scopes: Seq<Vec<(String, Value)>>, n: Seq<char>)
    requires
        scopes.len() > 0,
    ensures
        lookup(scopes, n) == if scope_lookup(scopes.last()@, n) is Some {
            scope_lookup(scopes.last()@, n)
        } else {
            lookup(scopes.drop_last(), n)
        },
{
    lemma_scope_of_bounds(scopes.drop_last(), n);
}

/// Rebinding `name` in the innermost scope that binds it: `name` now finds the new value,
/// every other name finds what it did.
pub proof fn lemma_assign_lookup(
    scopes: Seq<Vec<(String, Value)>>,
    scopes2: Seq<Vec<(String, Value)>>,
    e: (String, Value),
    n: Seq<char>,
)
    requires
        scope_of(scopes, e.0@) is Some,
        scopes2 == scopes.update(scope_of(scopes, e.0@)->0, scopes2[scope_of(scopes, e.0@)->0]),
        scopes2[scope_of(scopes, e.0@)->0]@ == scopes[scope_of(scopes, e.0@)->0]@.push(e),
    ensures
        lookup(scopes2, n) == if e.0@ == n { Some(e.1) } else { lookup(scopes, n) },
    decreases scopes.len(),
{
    lemma_scope_of_bounds(scopes, e.0@);
    let i = scope_of(scopes, e.0@)->0;
    let last = scopes.len() - 1;
    lemma_scope_push(scopes[i]@, e, n);
    lemma_lookup_unfold(scopes, n);
    lemma_lookup_unfold(scopes2, n);
    if i == last {
        assert(scopes2.drop_last() =~= scopes.drop_last());
        assert(scopes2.last() == scopes2[i]);
    } else {
        assert(scopes2.last() == scopes.last());
        assert(scope_lookup(scopes.last()@, e.0@) is None);
        assert(scope_of(scopes.drop_last(), e.0@) == Some(i));
        assert(scopes2.drop_last() =~= scopes.drop_last().update(i, scopes2[i]));
        lemma_assign_lookup(scopes.drop_last(), scopes2.drop_last(), e, n);
        assert(scopes2.drop_last()[i] == scopes2[i]);
    }
}

/// The names of the `var` variables occur once each.
pub open spec fn distinct_names(mv: Seq<(String, BirType)>) -> bool {
    forall|a: int, b: int| 0 <= a < b < mv.len() ==> mv[a].0@ != mv[b].0@
}

/// Every `var` variable is bound.
pub open spec fn vars_bound(s: Lowering) -> bool {
    forall|k: int| 0 <= k < s.mutable_vars@.len() ==> #[trigger] lookup(s.scopes@, s.mutable_vars@[k].0@) is Some
}

/// `args` passes the current value of each `var` variable of `s`, with its type.
pub open spec fn passes_vars(args: Seq<(Value, BirType)>, s: Lowering) -> bool {
    &&& args.len() == s.mutable_vars@.len()
    &&& forall|k: int| 0 <= k < args.len() ==> #[trigger] args[k].0 == lookup(s.scopes@, s.mutable_vars@[k].0@)->0
        && args[k].1@ == s.mutable_vars@[k].1@
}

/// The header of a `while` in progress.
pub struct LoopHead {
    /// The block that jumps into the loop.
    pub entry_bb: u32,
    pub bb_header: u32,
    pub bb_body: u32,
    pub bb_exit: u32,
    /// The header's parameters: one per `var` variable, in order of declaration.
    pub header_params: Vec<(Value, BirType)>,
}

/// A copy of a parameter list with the same values and type models.
fn copy_params(ps: &Vec<(Value, BirType)>) -> (r: Vec<(Value, BirType)>)
    ensures
        r@.len() == ps@.len(),
        forall|k: int| 0 <= k < r@.len() ==> (#[trigger] r@[k]).0 == ps@[k].0 && r@[k].1@ == ps@[k].1@,
{
    let mut r: Vec<(Value, BirType)> = Vec::new();
    let mut k: usize = 0;
    while k < ps.len()
        invariant
            k <= ps@.len(),
            r@.len() == k,
            forall|m: int| 0 <= m < k ==> (#[trigger] r@[m]).0 == ps@[m].0 && r@[m].1@ == ps@[m].1@,
        decreases ps@.len() - k,
    {
        r.push((ps[k].0, ps[k].1.copy()));
        k = k + 1;
    }
    r
}

/// The condition of a `while` in progress.
pub struct LoopCond {
    /// The regions built while lowering the condition.
    pub header_regions: Vec<CfgRegion>,
    pub cond_value: Value,
    /// Where a false condition goes: the `nobreak` block, or the exit block when there is none.
    pub bb_nobreak: u32,
}

/// The terminator that ends a loop body whose statements ended as `result`: a fall-through
/// jumps back to the header passing `args`; a `break` or `continue`, whose jump is already
/// sealed, leaves a dead block that returns; a return returns.
pub open spec fn body_exit(t: Terminator, result: StmtResult, header_bb: u32, args_ok: spec_fn(Seq<(Value, BirType)>) -> bool) -> bool {
    match result {
        StmtResult::Return(v) => t == Terminator::Return(v),
        StmtResult::ReturnVoid | StmtResult::Break | StmtResult::Continue => t == Terminator::ReturnVoid,
        _ => t matches Terminator::Br { target, args } && target == header_bb && args_ok(args@),
    }
}

/// `args` passes the value that each `var` variable of `mv` has in `scopes`, with its type.
pub open spec fn passes_values(args: Seq<(Value, BirType)>, scopes: Seq<Vec<(String, Value)>>, mv: Seq<(String, BirType)>) -> bool {
    &&& args.len() == mv.len()
    &&& forall|k: int| 0 <= k < args.len() ==> #[trigger] args[k].0 == lookup(scopes, mv[k].0@)->0
        && args[k].1@ == mv[k].1@
}

/// The terminator that ends a `nobreak` block whose statements ended as `result`: a yielded
/// value goes to the exit block when the loop's `break`s carry values, and is dropped otherwise.
pub open spec fn nobreak_exit(t: Terminator, result: StmtResult, exit_bb: u32, ts: Seq<(Value, BirType)>, has_value: bool) -> bool {
    match result {
        StmtResult::Yield(v) => t matches Terminator::Br { target, args } && target == exit_bb
            && if has_value { args@.len() == 1 && args@[0].0 == v && args@[0].1@ == type_or_i32(ts, v) } else { args@.len() == 0 },
        StmtResult::Return(v) => t == Terminator::Return(v),
        StmtResult::ReturnVoid => t == Terminator::ReturnVoid,
        _ => t matches Terminator::Br { target, args } && target == exit_bb && args@.len() == 0,
    }
}

/// The BIR arithmetic operator for an arithmetic operator of the syntax tree.
pub open spec fn convert_binop_spec(op: BinOp) -> BirBinOp {
    match op {
        BinOp::Add => BirBinOp::Add,
        BinOp::Sub => BirBinOp::Sub,
        BinOp::Mul => BirBinOp::Mul,
        _ => BirBinOp::Div,
    }
}

/// The BIR comparison operator for a comparison operator of the syntax tree.
pub open spec fn convert_compare_op_spec(op: BinOp) -> BirCompareOp {
    match op {
        BinOp::Eq => BirCompareOp::Eq,
        BinOp::Ne => BirCompareOp::Ne,
        BinOp::Lt => BirCompareOp::Lt,
        BinOp::Gt => BirCompareOp::Gt,
        BinOp::Le => BirCompareOp::Le,
        _ => BirCompareOp::Ge,
    }
}

/// The arithmetic operators of the syntax tree.
pub open spec fn is_arith(op: BinOp) -> bool {
    op is Add || op is Sub || op is Mul || op is Div
}

/// The comparison operators of the syntax tree.
pub open spec fn is_comparison(op: BinOp) -> bool {
    op is Eq || op is Ne || op is Lt || op is Gt || op is Le || op is Ge
}

/// The BIR arithmetic operator for an arithmetic operator of the syntax tree.
pub fn convert_binop(op: BinOp) -> (r: BirBinOp)
    requires
        is_arith(op),
    ensures
        r == convert_binop_spec(op),
{
    match op {
        BinOp::Add => BirBinOp::Add,
        BinOp::Sub => BirBinOp::Sub,
        BinOp::Mul => BirBinOp::Mul,
        _ => BirBinOp::Div,
    }
}

/// The BIR comparison operator for a comparison operator of the syntax tree.
pub fn convert_compare_op(op: BinOp) -> (r: BirCompareOp)
    requires
        is_comparison(op),
    ensures
        r == convert_compare_op_spec(op),
{
    match op {
        BinOp::Eq => BirCompareOp::Eq,
        BinOp::Ne => BirCompareOp::Ne,
        BinOp::Lt => BirCompareOp::Lt,
        BinOp::Gt => BirCompareOp::Gt,
        BinOp::Le => BirCompareOp::Le,
        _ => BirCompareOp::Ge,
    }
}

/// Whether `c` is what an arithmetic operator of the source language gives on `a` and `b`,
/// computed exactly on integers: `+`, `-`, `*`, and `/` rounding toward zero.
pub open spec fn source_arith_holds(op: BinOp, a: int, b: int, c: int) -> bool {
    match op {
        BinOp::Add => c == a + b,
        BinOp::Sub => c == a - b,
        BinOp::Mul => c == a * b,
        BinOp::Div => b != 0 && is_truncated_quotient(a, b, c),
        _ => false,
    }
}

/// A source arithmetic operator becomes the BIR operator of the same meaning.
pub proof fn law_arith_keeps_its_meaning(op: BinOp, a: int, b: int, c: int)
    requires
        is_arith(op),
    ensures
        bir_arith_holds(convert_binop_spec(op), a, b, c) == source_arith_holds(op, a, b, c),
{
}

/// The arithmetic instruction that lowering a source arithmetic operator emits computes what
/// the source operator does, on the same operands.
pub proof fn law_lowered_arith_keeps_its_meaning(
    s: Lowering,
    t: Lowering,
    op: BinOp,
    lhs: Value,
    rhs: Value,
    result: Value,
    a: int,
    b: int,
    c: int,
)
    requires
        is_arith(op),
        lower_arith_post(s, t, op, lhs, rhs, result),
    ensures
        t.current_instructions@.last() matches Instruction::BinaryOp { op: o, lhs: x, rhs: y, .. }
            && x == lhs && y == rhs && bir_arith_holds(o, a, b, c) == source_arith_holds(op, a, b, c),
{
}

/// Whether two integers stand in the relation a comparison operator of the source language
/// names: `==`, `!=`, `<`, `>`, `<=`, `>=`.
pub open spec fn source_compare_holds(op: BinOp, l: int, r: int) -> bool {
    match op {
        BinOp::Eq => l == r,
        BinOp::Ne => l != r,
        BinOp::Lt => l < r,
        BinOp::Gt => l > r,
        BinOp::Le => l <= r,
        BinOp::Ge => l >= r,
        _ => false,
    }
}

/// A source comparison becomes the BIR comparison of the same meaning: for any two
/// integers, the BIR comparison holds exactly when the source comparison does.
pub proof fn law_comparison_keeps_its_meaning(op: BinOp, l: int, r: int)
    requires
        is_comparison(op),
    ensures
        compare_ints(convert_compare_op_spec(op), l, r) == source_compare_holds(op, l, r),
{
}

/// The comparison instruction that lowering a source comparison emits holds of two integers
/// exactly when the source comparison does.
pub proof fn law_lowered_comparison_keeps_its_meaning(
    s: Lowering,
    t: Lowering,
    op: BinOp,
    lhs: Value,
    rhs: Value,
    result: Value,
    l: int,
    r: int,
)
    requires
        is_comparison(op),
        lower_compare_post(s, t, op, lhs, rhs, result),
    ensures
        t.current_instructions@.last() matches Instruction::Compare { op: o, lhs: a, rhs: b, .. }
            && a == lhs && b == rhs && compare_ints(o, l, r) == source_compare_holds(op, l, r),
{
}

/// `b` is `a` after one instruction that defines the next value was emitted and that value's
/// type was recorded.
pub open spec fn emitted_one(b: Lowering, a: Lowering, inst: Instruction, ty: TypeV) -> bool {
    &&& b.current_instructions@ == a.current_instructions@.push(inst)
    &&& b.value_types@.len() == a.value_types@.len() + 1
    &&& b.value_types@.drop_last() == a.value_types@
    &&& b.value_types@.last().0 == Value(a.next_value)
    &&& b.value_types@.last().1@ == ty
    &&& b.next_value == a.next_value + 1
    &&& b.next_block == a.next_block
    &&& b.last_expr_diverged == a.last_expr_diverged
    &&& b.blocks == a.blocks
    &&& b.current_block_label == a.current_block_label
    &&& b.current_block_params == a.current_block_params
    &&& b.pending_regions == a.pending_regions
    &&& b.scopes == a.scopes
    &&& b.mutable_vars == a.mutable_vars
    &&& b.loop_stack == a.loop_stack
}

/// The names of a list of strings.
pub open spec fn names_of(ns: Seq<String>) -> Seq<Seq<char>> {
    ns.map_values(|n: String| n@)
}

/// The BIR type of a written type inside a function with type parameters `tps`: a bare name
/// is a type parameter when it is one of them and a struct otherwise.
pub open spec fn bir_of(t: TypeAnnotationV, tps: Seq<Seq<char>>) -> TypeV
    decreases t, 0int,
{
    match t {
        TypeAnnotationV::I32 => TypeV::I32,
        TypeAnnotationV::I64 => TypeV::I64,
        TypeAnnotationV::F32 => TypeV::F32,
        TypeAnnotationV::F64 => TypeV::F64,
        TypeAnnotationV::Bool => TypeV::Bool,
        TypeAnnotationV::Unit => TypeV::Unit,
        TypeAnnotationV::Named(n) => if tps.contains(n) {
            TypeV::TypeParam(n)
        } else {
            TypeV::Struct { name: n, type_args: Seq::empty() }
        },
        TypeAnnotationV::Generic { name, args } => TypeV::Struct { name, type_args: bir_of_all(args, tps) },
        TypeAnnotationV::Array { element, size } => TypeV::Array { element: Box::new(bir_of(*element, tps)), size },
    }
}

/// `bir_of` of each written type of a list.
pub open spec fn bir_of_all(ts: Seq<TypeAnnotationV>, tps: Seq<Seq<char>>) -> Seq<TypeV>
    decreases ts, 1int,
{
    if ts.len() == 0 {
        Seq::empty()
    } else {
        bir_of_all(ts.drop_last(), tps).push(bir_of(ts.last(), tps))
    }
}

/// The name a function is emitted under: its mapped name when a name map is given and maps
/// it (the last pair for it counts), else the name itself.
pub open spec fn resolved_name(map: Option<Vec<(String, String)>>, name: Seq<char>) -> Seq<char> {
    match map {
        Some(m) => match pair_lookup(m@, name) {
            Some(t) => t,
            None => name,
        },
        None => name,
    }
}

/// The second component of the last pair whose first component is `name`.
pub open spec fn pair_lookup(m: Seq<(String, String)>, name: Seq<char>) -> Option<Seq<char>>
    decreases m.len(),
{
    if m.len() == 0 {
        None
    } else if m.last().0@ == name {
        Some(m.last().1@)
    } else {
        pair_lookup(m.drop_last(), name)
    }
}

/// The terminator that ends a function body whose statements ended as `result`.
pub open spec fn function_exit(result: StmtResult) -> Terminator {
    match result {
        StmtResult::Return(v) => Terminator::Return(v),
        _ => Terminator::ReturnVoid,
    }
}

/// The errors a diagnostic context holds after `es` were emitted into it in order, starting
/// from `d`: each is kept while fewer than `limit` are held.
pub open spec fn emit_all(d: Seq<BengalError>, es: Seq<BengalError>, limit: nat) -> Seq<BengalError>
    decreases es.len(),
{
    if es.len() == 0 {
        d
    } else {
        let d1 = emit_all(d, es.drop_last(), limit);
        if d1.len() < limit {
            d1.push(es.last())
        } else {
            d1
        }
    }
}

/// The entry for `name` in a table keyed by name: the last one.
pub open spec fn entry_of<T>(m: Seq<(String, T)>, name: Seq<char>) -> Option<T>
    decreases m.len(),
{
    if m.len() == 0 {
        None
    } else if m.last().0@ == name {
        Some(m.last().1)
    } else {
        entry_of(m.drop_last(), name)
    }
}

/// Each type parameter name paired with the type argument at its position, as far as both go.
pub open spec fn zip_subst(params: Seq<String>, args: Seq<BirType>) -> Seq<(Seq<char>, TypeV)> {
    Seq::new(
        if params.len() < args.len() { params.len() } else { args.len() },
        |i: int| (params[i]@, args[i]@),
    )
}

/// The type that the value of a call of `name` with type arguments `args` is recorded with:
/// the function's return type (`I32` when unknown) with its type parameters replaced by the
/// arguments when there are any.
pub open spec fn call_value_type(
    sigs: Seq<(String, BirType)>,
    tparams: Seq<(String, Vec<String>)>,
    name: Seq<char>,
    args: Seq<BirType>,
) -> TypeV {
    let ty = match entry_of(sigs, name) {
        Some(t) => t@,
        None => TypeV::I32,
    };
    let subst = match entry_of(tparams, name) {
        Some(ps) => zip_subst(ps@, args),
        None => Seq::empty(),
    };
    if args.len() == 0 || subst.len() == 0 {
        ty
    } else {
        resolve(ty, subst)
    }
}

/// The entry for `name` in a table keyed by name.
pub fn find_entry<T>(m: &Vec<(String, T)>, name: &String) -> (r: Option<usize>)
    ensures
        match r {
            Some(k) => k < m@.len() && entry_of(m@, name@) == Some(m@[k as int].1),
            None => entry_of(m@, name@) is None,
        },
{
    let mut k: usize = m.len();
    assert(m@.take(k as int) =~= m@);
    while k > 0
        invariant
            k <= m@.len(),
            entry_of(m@, name@) == entry_of(m@.take(k as int), name@),
        decreases k,
    {
        assert(m@.take(k as int).drop_last() =~= m@.take(k - 1));
        if m[k - 1].0.eq(name) {
            return Some(k - 1);
        }
        k = k - 1;
    }
    None
}

/// The type parameter names paired with the type arguments, as far as both go.
fn zip_params(params: &Vec<String>, args: &Vec<BirType>) -> (r: Vec<(String, BirType)>)
    ensures
        subst_view(r@) == zip_subst(params@, args@),
{
    let mut r: Vec<(String, BirType)> = Vec::new();
    let mut k: usize = 0;
    while k < params.len() && k < args.len()
        invariant
            k <= params@.len(),
            k <= args@.len(),
            r@.len() == k,
            forall|i: int| 0 <= i < k ==> (#[trigger] r@[i]).0@ == params@[i]@ && r@[i].1@ == args@[i]@,
        decreases params@.len() - k,
    {
        r.push((params[k].clone(), args[k].copy()));
        k = k + 1;
    }
    assert(subst_view(r@) =~= zip_subst(params@, args@));
    r
}

/// What `Lowering::lower_number` requires of the state it runs on.
pub open spec fn lower_number_pre(s: Lowering, n: i64) -> bool {
    &&& (s.next_value < u32::MAX)
}

/// What `Lowering::lower_number` does: `t` is the state after it ran on `s`.
pub open spec fn lower_number_post(s: Lowering, t: Lowering, n: i64, result: Value) -> bool {
    &&& (same_context(t, s))
    &&& (result == Value(s.next_value))
    &&& (emitted_one(t, s, Instruction::Literal { result, value: n, ty: BirType::I32 }, TypeV::I32))
}

/// What `Lowering::lower_float_bits` requires of the state it runs on.
pub open spec fn lower_float_bits_pre(s: Lowering, bits: u64) -> bool {
    &&& (s.next_value < u32::MAX)
}

/// What `Lowering::lower_float_bits` does: `t` is the state after it ran on `s`.
pub open spec fn lower_float_bits_post(s: Lowering, t: Lowering, bits: u64, result: Value) -> bool {
    &&& (same_context(t, s))
    &&& (result == Value(s.next_value))
    &&& (emitted_one(t, s, Instruction::Literal { result, value: bits as i64, ty: BirType::F64 }, TypeV::F64))
}

/// What `Lowering::lower_bool` requires of the state it runs on.
pub open spec fn lower_bool_pre(s: Lowering, b: bool) -> bool {
    &&& (s.next_value < u32::MAX)
}

/// What `Lowering::lower_bool` does: `t` is the state after it ran on `s`.
pub open spec fn lower_bool_post(s: Lowering, t: Lowering, b: bool, result: Value) -> bool {
    &&& (same_context(t, s))
    &&& (result == Value(s.next_value))
    &&& (emitted_one(
                t,
                s,
                Instruction::Literal { result, value: if b { 1 } else { 0 }, ty: BirType::Bool },
                TypeV::Bool,
            ))
}

/// What `Lowering::lower_not` requires of the state it runs on.
pub open spec fn lower_not_pre(s: Lowering, operand: Value) -> bool {
    &&& (s.next_value < u32::MAX)
}

/// What `Lowering::lower_not` does: `t` is the state after it ran on `s`.
pub open spec fn lower_not_post(s: Lowering, t: Lowering, operand: Value, result: Value) -> bool {
    &&& (same_context(t, s))
    &&& (result == Value(s.next_value))
    &&& (emitted_one(t, s, Instruction::Not { result, operand }, TypeV::Bool))
}

/// What `Lowering::lower_arith` requires of the state it runs on.
pub open spec fn lower_arith_pre(s: Lowering, op: BinOp, lhs: Value, rhs: Value) -> bool {
    &&& (s.next_value < u32::MAX)
    &&& (is_arith(op))
}

/// What `Lowering::lower_arith` does: `t` is the state after it ran on `s`.
pub open spec fn lower_arith_post(s: Lowering, t: Lowering, op: BinOp, lhs: Value, rhs: Value, result: Value) -> bool {
    &&& (same_context(t, s))
    &&& (result == Value(s.next_value))
    &&& (({
                let ty = type_or_i32(s.value_types@, lhs);
                &&& t.current_instructions@.drop_last() =~= s.current_instructions@
                &&& t.current_instructions@.last() matches Instruction::BinaryOp { result: r, op: o, lhs: l, rhs: rr, ty: t }
                    && r == result && o == convert_binop_spec(op) && l == lhs && rr == rhs && t@ =~= ty
                &&& emitted_one(t, s, t.current_instructions@.last(), ty)
            }))
}

/// What `Lowering::lower_compare` requires of the state it runs on.
pub open spec fn lower_compare_pre(s: Lowering, op: BinOp, lhs: Value, rhs: Value) -> bool {
    &&& (s.next_value < u32::MAX)
    &&& (is_comparison(op))
}

/// What `Lowering::lower_compare` does: `t` is the state after it ran on `s`.
pub open spec fn lower_compare_post(s: Lowering, t: Lowering, op: BinOp, lhs: Value, rhs: Value, result: Value) -> bool {
    &&& (same_context(t, s))
    &&& (result == Value(s.next_value))
    &&& (({
                let ty = type_or_i32(s.value_types@, lhs);
                &&& t.current_instructions@.drop_last() =~= s.current_instructions@
                &&& t.current_instructions@.last() matches Instruction::Compare { result: r, op: o, lhs: l, rhs: rr, ty: t }
                    && r == result && o == convert_compare_op_spec(op) && l == lhs && rr == rhs && t@ =~= ty
                &&& emitted_one(t, s, t.current_instructions@.last(), TypeV::Bool)
            }))
}

/// What `Lowering::short_circuit_and_enter` requires of the state it runs on.
pub open spec fn short_circuit_and_enter_pre(s: Lowering, lhs_value: Value) -> bool {
    &&& (s.next_block <= u32::MAX - 3)
}

/// What `Lowering::short_circuit_and_enter` does: `t` is the state after it ran on `s`.
pub open spec fn short_circuit_and_enter_post(s: Lowering, t: Lowering, lhs_value: Value, sc: ShortCircuit) -> bool {
    &&& (same_context(t, s))
    &&& (sc.cond_regions == s.pending_regions)
    &&& (sc.cond_bb == s.current_block_label)
    &&& (sc.cond_value == lhs_value)
    &&& (sc.bb_then == s.next_block)
    &&& (sc.bb_else == s.next_block + 1)
    &&& (sc.bb_merge == s.next_block + 2)
    &&& (t.next_block == s.next_block + 3)
    &&& (t.next_value == s.next_value)
    &&& (t.blocks@ =~= s.blocks@.push(sealed(
                s,
                Terminator::CondBr { cond: lhs_value, then_bb: sc.bb_then, else_bb: sc.bb_else },
            )))
    &&& (empty_current(t, sc.bb_then))
    &&& (t.pending_regions@.len() == 0)
    &&& (t.last_expr_diverged == s.last_expr_diverged)
    &&& (same_names(t, s))
}

/// What `Lowering::short_circuit_and_leave` requires of the state it runs on.
pub open spec fn short_circuit_and_leave_pre(s: Lowering, sc: ShortCircuit, rhs_value: Value) -> bool {
    &&& (s.next_value <= u32::MAX - 2)
}

/// What `Lowering::short_circuit_and_leave` does: `t` is the state after it ran on `s`.
pub open spec fn short_circuit_and_leave_post(s: Lowering, t: Lowering, sc: ShortCircuit, rhs_value: Value, result: Value) -> bool {
    &&& (same_context(t, s))
    &&& (({
                let b = s.blocks@.len() as int;
                let false_value = Value(s.next_value);
                &&& t.blocks@.len() == b + 2
                &&& t.blocks@.take(b) =~= s.blocks@
                &&& holds_current(t.blocks@[b], s)
                &&& bool_jump(t.blocks@[b].terminator, sc.bb_merge, rhs_value)
                &&& t.blocks@[b + 1].label == sc.bb_else
                &&& t.blocks@[b + 1].params@.len() == 0
                &&& t.blocks@[b + 1].instructions@
                    =~= seq![Instruction::Literal { result: false_value, value: 0, ty: BirType::Bool }]
                &&& bool_jump(t.blocks@[b + 1].terminator, sc.bb_merge, false_value)
            }))
    &&& (result == Value((s.next_value + 1) as u32))
    &&& (t.next_value == s.next_value + 2)
    &&& (t.next_block == s.next_block)
    &&& (t.current_block_label == sc.bb_merge)
    &&& (t.current_block_params@ =~= seq![(result, BirType::Bool)])
    &&& (t.current_instructions@.len() == 0)
    &&& (short_circuit_region(
                t.pending_regions@,
                sc,
                s.pending_regions@.push(CfgRegion::Block(sc.bb_then)),
                seq![CfgRegion::Block(sc.bb_else)],
            ))
    &&& (t.last_expr_diverged == s.last_expr_diverged)
    &&& (same_names(t, s))
}

/// What `Lowering::short_circuit_or_enter` requires of the state it runs on.
pub open spec fn short_circuit_or_enter_pre(s: Lowering, lhs_value: Value) -> bool {
    &&& (s.next_block <= u32::MAX - 3)
    &&& (s.next_value < u32::MAX)
}

/// What `Lowering::short_circuit_or_enter` does: `t` is the state after it ran on `s`.
pub open spec fn short_circuit_or_enter_post(s: Lowering, t: Lowering, lhs_value: Value, sc: ShortCircuit) -> bool {
    &&& (same_context(t, s))
    &&& (sc.cond_regions == s.pending_regions)
    &&& (sc.cond_bb == s.current_block_label)
    &&& (sc.cond_value == lhs_value)
    &&& (sc.bb_then == s.next_block)
    &&& (sc.bb_else == s.next_block + 1)
    &&& (sc.bb_merge == s.next_block + 2)
    &&& (t.next_block == s.next_block + 3)
    &&& (t.next_value == s.next_value + 1)
    &&& (({
                let b = s.blocks@.len() as int;
                let true_value = Value(s.next_value);
                &&& t.blocks@.len() == b + 2
                &&& t.blocks@[b] == sealed(
                    s,
                    Terminator::CondBr { cond: lhs_value, then_bb: sc.bb_then, else_bb: sc.bb_else },
                )
                &&& t.blocks@.take(b) =~= s.blocks@
                &&& t.blocks@[b + 1].label == sc.bb_then
                &&& t.blocks@[b + 1].params@.len() == 0
                &&& t.blocks@[b + 1].instructions@
                    =~= seq![Instruction::Literal { result: true_value, value: 1, ty: BirType::Bool }]
                &&& bool_jump(t.blocks@[b + 1].terminator, sc.bb_merge, true_value)
            }))
    &&& (empty_current(t, sc.bb_else))
    &&& (t.pending_regions@.len() == 0)
    &&& (t.last_expr_diverged == s.last_expr_diverged)
    &&& (same_names(t, s))
}

/// What `Lowering::short_circuit_or_leave` requires of the state it runs on.
pub open spec fn short_circuit_or_leave_pre(s: Lowering, sc: ShortCircuit, rhs_value: Value) -> bool {
    &&& (s.next_value < u32::MAX)
}

/// What `Lowering::short_circuit_or_leave` does: `t` is the state after it ran on `s`.
pub open spec fn short_circuit_or_leave_post(s: Lowering, t: Lowering, sc: ShortCircuit, rhs_value: Value, result: Value) -> bool {
    &&& (same_context(t, s))
    &&& (t.blocks@.len() == s.blocks@.len() + 1)
    &&& (t.blocks@.drop_last() =~= s.blocks@)
    &&& (holds_current(t.blocks@.last(), s))
    &&& (bool_jump(t.blocks@.last().terminator, sc.bb_merge, rhs_value))
    &&& (result == Value(s.next_value))
    &&& (t.next_value == s.next_value + 1)
    &&& (t.next_block == s.next_block)
    &&& (t.current_block_label == sc.bb_merge)
    &&& (t.current_block_params@ =~= seq![(result, BirType::Bool)])
    &&& (t.current_instructions@.len() == 0)
    &&& (short_circuit_region(
                t.pending_regions@,
                sc,
                seq![CfgRegion::Block(sc.bb_then)],
                s.pending_regions@.push(CfgRegion::Block(sc.bb_else)),
            ))
    &&& (t.last_expr_diverged == s.last_expr_diverged)
    &&& (same_names(t, s))
}

/// What `Lowering::record_type` does: `t` is the state after it ran on `s`.
pub open spec fn record_type_post(s: Lowering, t: Lowering, v: Value, ty: BirType) -> bool {
    &&& (same_context(t, s))
    &&& (t.value_types@ =~= s.value_types@.push((v, ty)))
    &&& (t.scopes == s.scopes)
    &&& (t.mutable_vars == s.mutable_vars)
    &&& (t.loop_stack == s.loop_stack)
    &&& (same_code(t, s))
    &&& (same_counters(t, s))
}

/// What `Lowering::push_scope` does: `t` is the state after it ran on `s`.
pub open spec fn push_scope_post(s: Lowering, t: Lowering) -> bool {
    &&& (same_context(t, s))
    &&& (t.scopes@.len() == s.scopes@.len() + 1)
    &&& (t.scopes@.drop_last() =~= s.scopes@)
    &&& (t.scopes@.last()@.len() == 0)
    &&& (t.mutable_vars == s.mutable_vars)
    &&& (t.loop_stack == s.loop_stack)
    &&& (t.value_types == s.value_types)
    &&& (same_code(t, s))
    &&& (same_counters(t, s))
}

/// What `Lowering::block_expr_leave` requires of the state it runs on.
pub open spec fn block_expr_leave_pre(s: Lowering, result: StmtResult, inner_regions: Vec<CfgRegion>) -> bool {
    &&& (result is Yield)
}

/// What `Lowering::block_expr_leave` does: `t` is the state after it ran on `s`.
pub open spec fn block_expr_leave_post(s: Lowering, t: Lowering, result: StmtResult, inner_regions: Vec<CfgRegion>, v: Value) -> bool {
    &&& (v == result->Yield_0)
    &&& (t.pending_regions@ =~= s.pending_regions@ + inner_regions@)
    &&& (t.scopes@ =~= popped(s.scopes@))
    &&& (t.blocks == s.blocks)
    &&& (t.current_instructions == s.current_instructions)
    &&& (t.current_block_label == s.current_block_label)
    &&& (t.current_block_params == s.current_block_params)
    &&& (t.mutable_vars == s.mutable_vars)
    &&& (t.loop_stack == s.loop_stack)
    &&& (t.value_types == s.value_types)
    &&& (same_counters(t, s))
    &&& (same_context(t, s))
}

/// What `Lowering::if_else_enter` requires of the state it runs on.
pub open spec fn if_else_enter_pre(s: Lowering, cond_value: Value) -> bool {
    &&& (s.next_block <= u32::MAX - 3)
}

/// What `Lowering::if_else_enter` does: `t` is the state after it ran on `s`.
pub open spec fn if_else_enter_post(s: Lowering, t: Lowering, cond_value: Value, head: IfHead) -> bool {
    &&& (same_context(t, s))
    &&& (head.cond_regions == s.pending_regions)
    &&& (head.cond_bb == s.current_block_label)
    &&& (head.cond_value == cond_value)
    &&& (head.bb_then == s.next_block)
    &&& (head.bb_merge == s.next_block + 1)
    &&& (head.bb_else == s.next_block + 2)
    &&& (t.next_block == s.next_block + 3)
    &&& (t.next_value == s.next_value)
    &&& (t.blocks@ =~= s.blocks@.push(sealed(
                s,
                Terminator::CondBr { cond: cond_value, then_bb: head.bb_then, else_bb: head.bb_else },
            )))
    &&& (empty_current(t, head.bb_then))
    &&& (t.pending_regions@.len() == 0)
    &&& (t.scopes@.drop_last() =~= s.scopes@)
    &&& (t.scopes@.len() == s.scopes@.len() + 1)
    &&& (t.scopes@.last()@.len() == 0)
    &&& (t.mutable_vars == s.mutable_vars)
    &&& (t.loop_stack == s.loop_stack)
    &&& (t.value_types == s.value_types)
    &&& (t.last_expr_diverged == s.last_expr_diverged)
}

/// What `Lowering::if_else_switch` does: `t` is the state after it ran on `s`.
pub open spec fn if_else_switch_post(s: Lowering, t: Lowering, head: &IfHead, then_end: OpenBlock) -> bool {
    &&& (same_context(t, s))
    &&& (then_end.label == s.current_block_label)
    &&& (then_end.params == s.current_block_params)
    &&& (then_end.instructions == s.current_instructions)
    &&& (empty_current(t, head.bb_else))
    &&& (t.blocks == s.blocks)
    &&& (t.pending_regions == s.pending_regions)
    &&& (t.scopes@.drop_last() =~= popped(s.scopes@))
    &&& (t.scopes@.len() == popped(s.scopes@).len() + 1)
    &&& (t.scopes@.last()@.len() == 0)
    &&& (t.mutable_vars == s.mutable_vars)
    &&& (t.loop_stack == s.loop_stack)
    &&& (t.value_types == s.value_types)
    &&& (same_counters(t, s))
}

/// What `Lowering::if_else_leave` requires of the state it runs on.
pub open spec fn if_else_leave_pre(s: Lowering, head: IfHead, then_end: OpenBlock, then_result: StmtResult, then_regions: Vec<CfgRegion>, else_result: StmtResult, else_regions: Vec<CfgRegion>) -> bool {
    &&& (s.next_value < u32::MAX)
}

/// What `Lowering::if_else_leave` does: `t` is the state after it ran on `s`.
pub open spec fn if_else_leave_post(s: Lowering, t: Lowering, head: IfHead, then_end: OpenBlock, then_result: StmtResult, then_regions: Vec<CfgRegion>, else_result: StmtResult, else_regions: Vec<CfgRegion>, result: Value) -> bool {
    &&& (same_context(t, s))
    &&& (({
                let b = s.blocks@.len() as int;
                let mt = merge_type(s.value_types@, then_result, else_result);
                &&& t.blocks@.len() == b + 2
                &&& t.blocks@.take(b) =~= s.blocks@
                &&& holds_open(t.blocks@[b], then_end)
                &&& branch_exit(t.blocks@[b].terminator, then_result, head.bb_merge, mt)
                &&& holds_current(t.blocks@[b + 1], s)
                &&& branch_exit(t.blocks@[b + 1].terminator, else_result, head.bb_merge, mt)
                &&& if yields(then_result) || yields(else_result) {
                    &&& t.current_block_params@.len() == 1
                    &&& t.current_block_params@[0].0 == result
                    &&& t.current_block_params@[0].1@ =~= mt
                    &&& t.value_types@.len() == s.value_types@.len() + 1
                    &&& t.value_types@.drop_last() =~= s.value_types@
                    &&& t.value_types@.last().0 == result
                    &&& t.value_types@.last().1@ =~= mt
                    &&& t.last_expr_diverged == s.last_expr_diverged
                } else {
                    &&& t.current_block_params@.len() == 0
                    &&& t.value_types == s.value_types
                    &&& t.last_expr_diverged
                        == (s.last_expr_diverged || (diverges(then_result) && diverges(else_result)))
                }
            }))
    &&& (result == Value(s.next_value))
    &&& (t.next_value == s.next_value + 1)
    &&& (t.next_block == s.next_block)
    &&& (t.current_block_label == head.bb_merge)
    &&& (t.current_instructions@.len() == 0)
    &&& (t.pending_regions@.len() == s.pending_regions@.len() + 1)
    &&& (t.pending_regions@.drop_last() =~= s.pending_regions@)
    &&& (t.pending_regions@.last() matches CfgRegion::IfElse {
                cond_region, cond_bb, cond_value, then_region, else_region, merge_bb,
            } && cond_region == head.cond_regions && cond_bb == head.cond_bb && cond_value == head.cond_value
                && then_region@ =~= then_regions@.push(CfgRegion::Block(head.bb_then))
                && else_region@ =~= else_regions@.push(CfgRegion::Block(head.bb_else))
                && merge_bb == head.bb_merge)
    &&& (t.scopes@ =~= popped(s.scopes@))
    &&& (t.mutable_vars == s.mutable_vars)
    &&& (t.loop_stack == s.loop_stack)
}

/// What `Lowering::if_only_enter` requires of the state it runs on.
pub open spec fn if_only_enter_pre(s: Lowering, cond_value: Value) -> bool {
    &&& (s.next_block <= u32::MAX - 2)
}

/// What `Lowering::if_only_enter` does: `t` is the state after it ran on `s`.
pub open spec fn if_only_enter_post(s: Lowering, t: Lowering, cond_value: Value, head: IfHead) -> bool {
    &&& (same_context(t, s))
    &&& (head.cond_regions == s.pending_regions)
    &&& (head.cond_bb == s.current_block_label)
    &&& (head.cond_value == cond_value)
    &&& (head.bb_then == s.next_block)
    &&& (head.bb_merge == s.next_block + 1)
    &&& (head.bb_else == head.bb_merge)
    &&& (t.next_block == s.next_block + 2)
    &&& (t.next_value == s.next_value)
    &&& (t.blocks@ =~= s.blocks@.push(sealed(
                s,
                Terminator::CondBr { cond: cond_value, then_bb: head.bb_then, else_bb: head.bb_merge },
            )))
    &&& (empty_current(t, head.bb_then))
    &&& (t.pending_regions@.len() == 0)
    &&& (t.scopes@.drop_last() =~= s.scopes@)
    &&& (t.scopes@.len() == s.scopes@.len() + 1)
    &&& (t.scopes@.last()@.len() == 0)
    &&& (t.mutable_vars == s.mutable_vars)
    &&& (t.loop_stack == s.loop_stack)
    &&& (t.value_types == s.value_types)
    &&& (t.last_expr_diverged == s.last_expr_diverged)
}

/// What `Lowering::if_only_leave` requires of the state it runs on.
pub open spec fn if_only_leave_pre(s: Lowering, head: IfHead, then_result: StmtResult, then_regions: Vec<CfgRegion>) -> bool {
    &&& (s.next_value < u32::MAX)
}

/// What `Lowering::if_only_leave` does: `t` is the state after it ran on `s`.
pub open spec fn if_only_leave_post(s: Lowering, t: Lowering, head: IfHead, then_result: StmtResult, then_regions: Vec<CfgRegion>, result: Value) -> bool {
    &&& (same_context(t, s))
    &&& (t.blocks@.len() == s.blocks@.len() + 1)
    &&& (t.blocks@.drop_last() =~= s.blocks@)
    &&& (holds_current(t.blocks@.last(), s))
    &&& (if_only_exit(t.blocks@.last().terminator, then_result, head.bb_merge))
    &&& (result == Value(s.next_value))
    &&& (t.next_value == s.next_value + 1)
    &&& (t.next_block == s.next_block)
    &&& (t.current_block_label == head.bb_merge)
    &&& (t.current_block_params@.len() == 0)
    &&& (t.current_instructions@ =~= seq![Instruction::Literal { result, value: 0, ty: BirType::Unit }])
    &&& (t.pending_regions@.len() == s.pending_regions@.len() + 1)
    &&& (t.pending_regions@.drop_last() =~= s.pending_regions@)
    &&& (t.pending_regions@.last() matches CfgRegion::IfOnly {
                cond_region, cond_bb, cond_value, then_region, merge_bb,
            } && cond_region == head.cond_regions && cond_bb == head.cond_bb && cond_value == head.cond_value
                && then_region@ =~= then_regions@.push(CfgRegion::Block(head.bb_then))
                && merge_bb == head.bb_merge)
    &&& (t.scopes@ =~= popped(s.scopes@))
    &&& (t.mutable_vars == s.mutable_vars)
    &&& (t.loop_stack == s.loop_stack)
    &&& (t.value_types == s.value_types)
    &&& (t.last_expr_diverged == s.last_expr_diverged)
}

/// What `Lowering::while_enter` requires of the state it runs on.
pub open spec fn while_enter_pre(s: Lowering) -> bool {
    &&& (s.next_block <= u32::MAX - 3)
    &&& (s.next_value + s.mutable_vars@.len() <= u32::MAX)
    &&& (vars_bound(s))
    &&& (distinct_names(s.mutable_vars@))
}

/// What `Lowering::while_enter` does: `t` is the state after it ran on `s`.
pub open spec fn while_enter_post(s: Lowering, t: Lowering, head: LoopHead) -> bool {
    &&& (same_context(t, s))
    &&& (head.entry_bb == s.current_block_label)
    &&& (head.bb_header == s.next_block)
    &&& (head.bb_body == s.next_block + 1)
    &&& (head.bb_exit == s.next_block + 2)
    &&& (t.next_block == s.next_block + 3)
    &&& (t.next_value == s.next_value + s.mutable_vars@.len())
    &&& (t.blocks@.len() == s.blocks@.len() + 1)
    &&& (t.blocks@.drop_last() =~= s.blocks@)
    &&& (holds_current(t.blocks@.last(), s))
    &&& (t.blocks@.last().terminator matches Terminator::Br { target, args }
                && target == head.bb_header && passes_vars(args@, s))
    &&& (head.header_params@.len() == s.mutable_vars@.len())
    &&& (forall|k: int| 0 <= k < head.header_params@.len() ==> (#[trigger] head.header_params@[k]).0 == Value((s.next_value + k) as u32)
                && head.header_params@[k].1@ =~= s.mutable_vars@[k].1@)
    &&& (t.current_block_label == head.bb_header)
    &&& (t.current_block_params@.len() == head.header_params@.len())
    &&& (forall|k: int| 0 <= k < head.header_params@.len() ==> (#[trigger] t.current_block_params@[k]).0 == head.header_params@[k].0
                && t.current_block_params@[k].1@ =~= head.header_params@[k].1@)
    &&& (t.current_instructions@.len() == 0)
    &&& (forall|k: int| 0 <= k < head.header_params@.len() ==> #[trigger] lookup(t.scopes@, t.mutable_vars@[k].0@) == Some(head.header_params@[k].0))
    &&& (vars_bound(t))
    &&& (t.mutable_vars == s.mutable_vars)
    &&& (t.loop_stack@.len() == s.loop_stack@.len() + 1)
    &&& (t.loop_stack@.drop_last() =~= s.loop_stack@)
    &&& (t.loop_stack@.last().header_bb == head.bb_header)
    &&& (t.loop_stack@.last().exit_bb == head.bb_exit)
    &&& (t.loop_stack@.last().break_ty is None)
    &&& (t.pending_regions == s.pending_regions)
    &&& (t.last_expr_diverged == s.last_expr_diverged)
}

/// What `Lowering::while_cond` requires of the state it runs on.
pub open spec fn while_cond_pre(s: Lowering, head: &LoopHead, cond_value: Value, has_nobreak: bool) -> bool {
    &&& (s.next_block < u32::MAX)
}

/// What `Lowering::while_cond` does: `t` is the state after it ran on `s`.
pub open spec fn while_cond_post(s: Lowering, t: Lowering, head: &LoopHead, cond_value: Value, has_nobreak: bool, c: LoopCond) -> bool {
    &&& (same_context(t, s))
    &&& (c.header_regions == s.pending_regions)
    &&& (c.cond_value == cond_value)
    &&& (c.bb_nobreak == if has_nobreak { s.next_block } else { head.bb_exit })
    &&& (t.next_block == if has_nobreak { s.next_block + 1 } else { s.next_block as int })
    &&& (t.next_value == s.next_value)
    &&& (t.blocks@ =~= s.blocks@.push(sealed(
                s,
                Terminator::CondBr { cond: cond_value, then_bb: head.bb_body, else_bb: c.bb_nobreak },
            )))
    &&& (empty_current(t, head.bb_body))
    &&& (t.pending_regions@.len() == 0)
    &&& (t.scopes@.drop_last() =~= s.scopes@)
    &&& (t.scopes@.len() == s.scopes@.len() + 1)
    &&& (t.scopes@.last()@.len() == 0)
    &&& (t.mutable_vars == s.mutable_vars)
    &&& (t.loop_stack == s.loop_stack)
    &&& (t.value_types == s.value_types)
    &&& (t.last_expr_diverged == s.last_expr_diverged)
}

/// What `Lowering::while_body_end` requires of the state it runs on.
pub open spec fn while_body_end_pre(s: Lowering, head: &LoopHead, body_result: StmtResult, body_regions: Vec<CfgRegion>) -> bool {
    &&& (s.loop_stack@.len() > 0)
    &&& (head.header_params@.len() == s.mutable_vars@.len())
    &&& (distinct_names(s.mutable_vars@))
    &&& (forall|k: int| 0 <= k < s.mutable_vars@.len() ==> #[trigger] lookup(popped(s.scopes@), s.mutable_vars@[k].0@) is Some)
}

/// What `Lowering::while_body_end` does: `t` is the state after it ran on `s`.
pub open spec fn while_body_end_post(s: Lowering, t: Lowering, head: &LoopHead, body_result: StmtResult, body_regions: Vec<CfgRegion>, r: (Vec<CfgRegion>, Option<BirType>)) -> bool {
    &&& (same_context(t, s))
    &&& (t.blocks@.len() == s.blocks@.len() + 1)
    &&& (t.blocks@.drop_last() =~= s.blocks@)
    &&& (holds_current(t.blocks@.last(), s))
    &&& (body_exit(
                t.blocks@.last().terminator,
                body_result,
                head.bb_header,
                |a: Seq<(Value, BirType)>| passes_values(a, popped(s.scopes@), s.mutable_vars@),
            ))
    &&& (r.0@ =~= if body_regions@.len() > 0 {
                if diverges(body_result) { body_regions@ } else { body_regions@.push(CfgRegion::Block(s.current_block_label)) }
            } else {
                seq![CfgRegion::Block(head.bb_body)]
            })
    &&& (r.1 == s.loop_stack@.last().break_ty)
    &&& (t.loop_stack@ =~= s.loop_stack@.drop_last())
    &&& (forall|k: int| 0 <= k < head.header_params@.len() ==> #[trigger] lookup(t.scopes@, t.mutable_vars@[k].0@) == Some(head.header_params@[k].0))
    &&& (t.scopes@.len() == popped(s.scopes@).len())
    &&& (vars_bound(t))
    &&& (empty_current(t, s.current_block_label))
    &&& (t.mutable_vars == s.mutable_vars)
    &&& (t.value_types == s.value_types)
    &&& (t.pending_regions == s.pending_regions)
    &&& (same_counters(t, s))
}

/// What `Lowering::nobreak_enter` does: `t` is the state after it ran on `s`.
pub open spec fn nobreak_enter_post(s: Lowering, t: Lowering, bb_nobreak: u32) -> bool {
    &&& (same_context(t, s))
    &&& (empty_current(t, bb_nobreak))
    &&& (t.scopes@.drop_last() =~= s.scopes@)
    &&& (t.scopes@.len() == s.scopes@.len() + 1)
    &&& (t.scopes@.last()@.len() == 0)
    &&& (t.blocks == s.blocks)
    &&& (t.pending_regions == s.pending_regions)
    &&& (t.mutable_vars == s.mutable_vars)
    &&& (t.loop_stack == s.loop_stack)
    &&& (t.value_types == s.value_types)
    &&& (same_counters(t, s))
}

/// What `Lowering::nobreak_leave` does: `t` is the state after it ran on `s`.
pub open spec fn nobreak_leave_post(s: Lowering, t: Lowering, nobreak_result: StmtResult, nobreak_regions: Vec<CfgRegion>, bb_nobreak: u32, bb_exit: u32, break_ty: &Option<BirType>, region: Vec<CfgRegion>) -> bool {
    &&& (same_context(t, s))
    &&& (t.blocks@.len() == s.blocks@.len() + 1)
    &&& (t.blocks@.drop_last() =~= s.blocks@)
    &&& (holds_current(t.blocks@.last(), s))
    &&& (nobreak_exit(t.blocks@.last().terminator, nobreak_result, bb_exit, s.value_types@, break_ty is Some))
    &&& (region@ =~= nobreak_regions@.push(CfgRegion::Block(bb_nobreak)))
    &&& (empty_current(t, s.current_block_label))
    &&& (t.scopes@ =~= popped(s.scopes@))
    &&& (t.mutable_vars == s.mutable_vars)
    &&& (t.loop_stack == s.loop_stack)
    &&& (t.value_types == s.value_types)
    &&& (t.pending_regions == s.pending_regions)
    &&& (same_counters(t, s))
}

/// What `Lowering::while_exit` requires of the state it runs on.
pub open spec fn while_exit_pre(s: Lowering, head: LoopHead, c: LoopCond, body_region: Vec<CfgRegion>, nobreak_region: Vec<CfgRegion>, break_ty: Option<BirType>) -> bool {
    &&& (s.next_value < u32::MAX)
}

/// What `Lowering::while_exit` does: `t` is the state after it ran on `s`.
pub open spec fn while_exit_post(s: Lowering, t: Lowering, head: LoopHead, c: LoopCond, body_region: Vec<CfgRegion>, nobreak_region: Vec<CfgRegion>, break_ty: Option<BirType>, result: Value) -> bool {
    &&& (same_context(t, s))
    &&& (result == Value(s.next_value))
    &&& (t.next_value == s.next_value + 1)
    &&& (t.next_block == s.next_block)
    &&& (t.current_block_label == head.bb_exit)
    &&& (match break_ty {
                Some(bt) => {
                    &&& t.current_block_params@.len() == 1
                    &&& t.current_block_params@[0].0 == result
                    &&& t.current_block_params@[0].1@ =~= bt@
                    &&& t.current_instructions@.len() == 0
                    &&& t.value_types@ =~= s.value_types@.push((result, bt))
                },
                None => {
                    &&& t.current_block_params@.len() == 0
                    &&& t.current_instructions@ =~= seq![Instruction::Literal { result, value: 0, ty: BirType::Unit }]
                    &&& t.value_types@ =~= s.value_types@.push((result, BirType::Unit))
                },
            })
    &&& (t.pending_regions@.len() == s.pending_regions@.len() + 1)
    &&& (t.pending_regions@.drop_last() =~= s.pending_regions@)
    &&& (t.pending_regions@.last() matches CfgRegion::While {
                entry_bb, header_region, header_bb, cond_value, body_region: br, nobreak_region: nr, exit_bb,
            } && entry_bb == head.entry_bb && header_region == c.header_regions && header_bb == head.bb_header
                && cond_value == c.cond_value && br == body_region && nr == nobreak_region && exit_bb == head.bb_exit)
    &&& (t.blocks == s.blocks)
    &&& (t.scopes == s.scopes)
    &&& (t.mutable_vars == s.mutable_vars)
    &&& (t.loop_stack == s.loop_stack)
    &&& (t.last_expr_diverged == s.last_expr_diverged)
}

/// What `Lowering::lower_cast_to` requires of the state it runs on.
pub open spec fn lower_cast_to_pre(s: Lowering, operand: Value, to_ty: BirType) -> bool {
    &&& (s.next_value < u32::MAX)
}

/// What `Lowering::lower_cast_to` does: `t` is the state after it ran on `s`.
pub open spec fn lower_cast_to_post(s: Lowering, t: Lowering, operand: Value, to_ty: BirType, result: Value) -> bool {
    &&& (same_context(t, s))
    &&& (result == Value(s.next_value))
    &&& (t.current_instructions@.drop_last() =~= s.current_instructions@)
    &&& (t.current_instructions@.last() matches Instruction::Cast { result: r, operand: o, from_ty, to_ty: t }
                && r == result && o == operand && from_ty@ =~= type_or_i32(s.value_types@, operand) && t@ =~= to_ty@)
    &&& (emitted_one(t, s, t.current_instructions@.last(), to_ty@))
}

/// What `Lowering::lower_array_init` requires of the state it runs on.
pub open spec fn lower_array_init_pre(s: Lowering, elements: Vec<Value>) -> bool {
    &&& (s.next_value < u32::MAX)
}

/// What `Lowering::lower_array_init` does: `t` is the state after it ran on `s`.
pub open spec fn lower_array_init_post(s: Lowering, t: Lowering, elements: Vec<Value>, result: Value) -> bool {
    &&& (result == Value(s.next_value))
    &&& (({
                let et = if elements@.len() > 0 { type_or_i32(s.value_types@, elements@[0]) } else { TypeV::I32 };
                let at = TypeV::Array { element: Box::new(et), size: elements@.len() as u64 };
                &&& t.current_instructions@.drop_last() =~= s.current_instructions@
                &&& t.current_instructions@.last() matches Instruction::ArrayInit { result: r, ty, elements: es }
                    && r == result && ty@ =~= at && es == elements
                &&& emitted_one(t, s, t.current_instructions@.last(), at)
            }))
    &&& (same_context(t, s))
}

/// What `Lowering::lower_index_get` requires of the state it runs on.
pub open spec fn lower_index_get_pre(s: Lowering, array: Value, index: Value) -> bool {
    &&& (s.next_value < u32::MAX)
    &&& (type_or_i32(s.value_types@, array) is Array)
}

/// What `Lowering::lower_index_get` does: `t` is the state after it ran on `s`.
pub open spec fn lower_index_get_post(s: Lowering, t: Lowering, array: Value, index: Value, result: Value) -> bool {
    &&& (result == Value(s.next_value))
    &&& (({
                let at = type_or_i32(s.value_types@, array);
                &&& t.current_instructions@.drop_last() =~= s.current_instructions@
                &&& t.current_instructions@.last() matches Instruction::ArrayGet { result: r, ty, array: a, index: i, array_size }
                    && r == result && ty@ =~= *at->Array_element && a == array && i == index && array_size == at->Array_size
                &&& emitted_one(t, s, t.current_instructions@.last(), *at->Array_element)
            }))
    &&& (same_context(t, s))
}

/// What `Lowering::lower_index_set` requires of the state it runs on.
pub open spec fn lower_index_set_pre(s: Lowering, name: &String, index: Value, value: Value) -> bool {
    &&& (s.next_value < u32::MAX)
    &&& (lookup(s.scopes@, name@) is Some)
    &&& (type_or_i32(s.value_types@, lookup(s.scopes@, name@)->0) is Array)
}

/// What `Lowering::lower_index_set` does: `t` is the state after it ran on `s`.
pub open spec fn lower_index_set_post(s: Lowering, t: Lowering, name: &String, index: Value, value: Value, result: Value) -> bool {
    &&& (result == Value(s.next_value))
    &&& (({
                let arr = lookup(s.scopes@, name@)->0;
                let at = type_or_i32(s.value_types@, arr);
                &&& t.current_instructions@.drop_last() =~= s.current_instructions@
                &&& t.current_instructions@.last() matches Instruction::ArraySet { result: r, ty, array: a, index: i, value: v, array_size }
                    && r == result && ty@ =~= at && a == arr && i == index && v == value && array_size == at->Array_size
                &&& t.value_types@ =~= s.value_types@.push(t.value_types@.last())
                &&& t.value_types@.last().0 == result
                &&& t.value_types@.last().1@ =~= at
            }))
    &&& (lookup(t.scopes@, name@) == Some(result))
    &&& (forall|n: Seq<char>| n != name@ ==> #[trigger] lookup(t.scopes@, n) == lookup(s.scopes@, n))
    &&& (t.next_value == s.next_value + 1)
    &&& (t.next_block == s.next_block)
    &&& (t.blocks == s.blocks)
    &&& (t.current_block_label == s.current_block_label)
    &&& (t.current_block_params == s.current_block_params)
    &&& (t.pending_regions == s.pending_regions)
    &&& (t.mutable_vars == s.mutable_vars)
    &&& (t.loop_stack == s.loop_stack)
    &&& (same_context(t, s))
}

/// What `Lowering::lower_call_emit` requires of the state it runs on.
pub open spec fn lower_call_emit_pre(s: Lowering, name: &String, args: Vec<Value>, type_args: Vec<BirType>) -> bool {
    &&& (s.next_value < u32::MAX)
}

/// What `Lowering::lower_call_emit` does: `t` is the state after it ran on `s`.
pub open spec fn lower_call_emit_post(s: Lowering, t: Lowering, name: &String, args: Vec<Value>, type_args: Vec<BirType>, result: Value) -> bool {
    &&& (result == Value(s.next_value))
    &&& (({
                let resolved = resolved_name(s.name_map, name@);
                let ty = match entry_of(s.func_sigs@, resolved) {
                    Some(st) => st@,
                    None => TypeV::I32,
                };
                &&& t.current_instructions@.drop_last() =~= s.current_instructions@
                &&& t.current_instructions@.last() matches Instruction::Call { result: r, func_name, args: a, type_args: ta, ty: t }
                    && r == result && func_name@ =~= resolved && a == args && ta == type_args && t@ =~= ty
                &&& emitted_one(
                    t,
                    s,
                    t.current_instructions@.last(),
                    call_value_type(s.func_sigs@, s.func_type_param_names@, resolved, type_args@),
                )
            }))
    &&& (same_context(t, s))
}

/// What `Lowering::define_var` does: `t` is the state after it ran on `s`.
pub open spec fn define_var_post(s: Lowering, t: Lowering, name: String, value: Value) -> bool {
    &&& (same_context(t, s))
    &&& (t.scopes@.len() == s.scopes@.len())
    &&& (s.scopes@.len() > 0 ==> t.scopes@.drop_last() =~= s.scopes@.drop_last()
                && t.scopes@.last()@ =~= s.scopes@.last()@.push((name, value)))
    &&& (s.scopes@.len() == 0 ==> t.scopes == s.scopes)
    &&& (t.mutable_vars == s.mutable_vars)
    &&& (t.loop_stack == s.loop_stack)
    &&& (t.value_types == s.value_types)
    &&& (same_code(t, s))
    &&& (same_counters(t, s))
}

/// What `Lowering::declare_var` requires of the state it runs on.
pub open spec fn declare_var_pre(s: Lowering, name: String, value: Value) -> bool {
    &&& (distinct_names(s.mutable_vars@))
}

/// What `Lowering::declare_var` does: `t` is the state after it ran on `s`.
pub open spec fn declare_var_post(s: Lowering, t: Lowering, name: String, value: Value) -> bool {
    &&& (t.scopes@.len() == s.scopes@.len())
    &&& (s.scopes@.len() > 0 ==> t.scopes@.drop_last() =~= s.scopes@.drop_last()
                && t.scopes@.last()@ =~= s.scopes@.last()@.push((name, value)))
    &&& (s.scopes@.len() == 0 ==> t.scopes == s.scopes)
    &&& (distinct_names(t.mutable_vars@))
    &&& ((exists|k: int| 0 <= k < s.mutable_vars@.len() && #[trigger] s.mutable_vars@[k].0@ =~= name@)
                ==> t.mutable_vars == s.mutable_vars)
    &&& (!(exists|k: int| 0 <= k < s.mutable_vars@.len() && #[trigger] s.mutable_vars@[k].0@ =~= name@)
                ==> t.mutable_vars@.len() == s.mutable_vars@.len() + 1
                    && t.mutable_vars@.drop_last() =~= s.mutable_vars@
                    && t.mutable_vars@.last().0@ =~= name@
                    && t.mutable_vars@.last().1@ =~= type_or_i32(s.value_types@, value))
    &&& (t.loop_stack == s.loop_stack)
    &&& (t.value_types == s.value_types)
    &&& (same_code(t, s))
    &&& (same_counters(t, s))
    &&& (same_context(t, s))
}

/// What `Lowering::assign_var` requires of the state it runs on.
pub open spec fn assign_var_pre(s: Lowering, name: &String, value: Value) -> bool {
    &&& (scope_of(s.scopes@, name@) is Some)
}

/// What `Lowering::assign_var` does: `t` is the state after it ran on `s`.
pub open spec fn assign_var_post(s: Lowering, t: Lowering, name: &String, value: Value) -> bool {
    &&& (same_context(t, s))
    &&& (({
                let i = scope_of(s.scopes@, name@)->0;
                t.scopes@ =~= s.scopes@.update(i, t.scopes@[i])
                    && t.scopes@[i]@ =~= s.scopes@[i]@.push((*name, value))
            }))
    &&& (t.mutable_vars == s.mutable_vars)
    &&& (t.loop_stack == s.loop_stack)
    &&& (t.value_types == s.value_types)
    &&& (same_code(t, s))
    &&& (same_counters(t, s))
}

/// What `Lowering::break_jump` requires of the state it runs on.
pub open spec fn break_jump_pre(s: Lowering, args: Vec<(Value, BirType)>, value: Option<Value>) -> bool {
    &&& (s.loop_stack@.len() > 0)
    &&& (s.next_block < u32::MAX)
}

/// What `Lowering::break_jump` does: `t` is the state after it ran on `s`.
pub open spec fn break_jump_post(s: Lowering, t: Lowering, args: Vec<(Value, BirType)>, value: Option<Value>, r: StmtResult) -> bool {
    &&& (same_context(t, s))
    &&& (r is Break)
    &&& (t.blocks@.len() == s.blocks@.len() + 1)
    &&& (t.blocks@.drop_last() =~= s.blocks@)
    &&& (holds_current(t.blocks@.last(), s))
    &&& (t.blocks@.last().terminator matches Terminator::BrBreak { header_bb, exit_bb, args: a, value: val }
                && header_bb == s.loop_stack@.last().header_bb
                && exit_bb == s.loop_stack@.last().exit_bb
                && a == args
                && match value {
                    Some(v) => val matches Some(p) && p.0 == v && p.1@ =~= type_or_i32(s.value_types@, v),
                    None => val is None,
                })
    &&& (t.loop_stack@.len() == s.loop_stack@.len())
    &&& (t.loop_stack@.drop_last() =~= s.loop_stack@.drop_last())
    &&& (t.loop_stack@.last().header_bb == s.loop_stack@.last().header_bb)
    &&& (t.loop_stack@.last().exit_bb == s.loop_stack@.last().exit_bb)
    &&& (match value {
                Some(v) => t.loop_stack@.last().break_ty matches Some(bt) && bt@ =~= type_or_i32(s.value_types@, v),
                None => t.loop_stack@.last().break_ty == s.loop_stack@.last().break_ty,
            })
    &&& (empty_current(t, s.next_block))
    &&& (t.next_block == s.next_block + 1)
    &&& (t.next_value == s.next_value)
    &&& (t.scopes == s.scopes)
    &&& (t.mutable_vars == s.mutable_vars)
    &&& (t.value_types == s.value_types)
    &&& (t.pending_regions == s.pending_regions)
    &&& (t.last_expr_diverged == s.last_expr_diverged)
}

/// What `Lowering::continue_jump` requires of the state it runs on.
pub open spec fn continue_jump_pre(s: Lowering, args: Vec<(Value, BirType)>) -> bool {
    &&& (s.loop_stack@.len() > 0)
    &&& (s.next_block < u32::MAX)
}

/// What `Lowering::continue_jump` does: `t` is the state after it ran on `s`.
pub open spec fn continue_jump_post(s: Lowering, t: Lowering, args: Vec<(Value, BirType)>, r: StmtResult) -> bool {
    &&& (same_context(t, s))
    &&& (r is Continue)
    &&& (t.blocks@.len() == s.blocks@.len() + 1)
    &&& (t.blocks@.drop_last() =~= s.blocks@)
    &&& (holds_current(t.blocks@.last(), s))
    &&& (t.blocks@.last().terminator == (Terminator::BrContinue { header_bb: s.loop_stack@.last().header_bb, args }))
    &&& (empty_current(t, s.next_block))
    &&& (t.next_block == s.next_block + 1)
    &&& (t.next_value == s.next_value)
    &&& (same_names(t, s))
    &&& (t.pending_regions == s.pending_regions)
    &&& (t.last_expr_diverged == s.last_expr_diverged)
}

/// What `Lowering::take_pending_regions` does: `t` is the state after it ran on `s`.
pub open spec fn take_pending_regions_post(s: Lowering, t: Lowering, r: Vec<CfgRegion>) -> bool {
    &&& (same_context(t, s))
    &&& (r == s.pending_regions)
    &&& (t.pending_regions@.len() == 0)
    &&& (t.blocks == s.blocks)
    &&& (t.current_instructions == s.current_instructions)
    &&& (t.current_block_label == s.current_block_label)
    &&& (t.current_block_params == s.current_block_params)
    &&& (same_names(t, s))
    &&& (same_counters(t, s))
}

/// What `Lowering::function_enter` requires of the state it runs on.
pub open spec fn function_enter_pre(s: Lowering, func: &Function) -> bool {
    &&& (func.params@.len() < u32::MAX)
}

/// What `Lowering::function_enter` does: `t` is the state after it ran on `s`.
pub open spec fn function_enter_post(s: Lowering, t: Lowering, func: &Function, params: Vec<(Value, BirType)>) -> bool {
    &&& (t.current_type_params@.len() == func.type_params@.len())
    &&& (forall|k: int| 0 <= k < func.type_params@.len() ==> #[trigger] t.current_type_params@[k]@ =~= func.type_params@[k].name@)
    &&& (params@.len() == func.params@.len())
    &&& (forall|k: int| 0 <= k < params@.len() ==> (#[trigger] params@[k]).0 == Value(k as u32)
                && params@[k].1@ =~= bir_of(func.params@[k].ty@, names_of(t.current_type_params@)))
    &&& (t.next_value == func.params@.len())
    &&& (t.next_block == 1)
    &&& (t.blocks@.len() == 0)
    &&& (empty_current(t, 0))
    &&& (t.pending_regions@.len() == 0)
    &&& (t.scopes@.len() == 1)
    &&& (t.scopes@[0]@.len() == func.params@.len())
    &&& (forall|k: int| 0 <= k < func.params@.len() ==> (#[trigger] t.scopes@[0]@[k]).0@ =~= func.params@[k].name@
                && t.scopes@[0]@[k].1 == Value(k as u32))
    &&& (t.value_types@.len() == func.params@.len())
    &&& (forall|k: int| 0 <= k < func.params@.len() ==> (#[trigger] t.value_types@[k]).0 == Value(k as u32)
                && t.value_types@[k].1@ =~= params@[k].1@)
    &&& (t.mutable_vars@.len() == 0)
    &&& (t.loop_stack@.len() == s.loop_stack@.len())
    &&& (t.name_map == s.name_map)
    &&& (t.lowering_errors == s.lowering_errors)
    &&& (t.func_sigs == s.func_sigs)
    &&& (t.func_type_param_names == s.func_type_param_names)
    &&& (t.struct_init_calls == s.struct_init_calls)
    &&& (t.inferred_type_args == s.inferred_type_args)
}

/// What `Lowering::finish_function` requires of the state it runs on.
pub open spec fn finish_function_pre(s: Lowering, func: &Function, params: Vec<(Value, BirType)>, result: StmtResult, body_regions: Vec<CfgRegion>) -> bool {
    &&& (result is Return || result is ReturnVoid)
}

/// What `Lowering::finish_function` does: `t` is the state after it ran on `s`.
pub open spec fn finish_function_post(s: Lowering, t: Lowering, func: &Function, params: Vec<(Value, BirType)>, result: StmtResult, body_regions: Vec<CfgRegion>, f: BirFunction) -> bool {
    &&& (same_context(t, s))
    &&& (f.name@ =~= resolved_name(s.name_map, func.name@))
    &&& (names_of(f.type_params@) == names_of(s.current_type_params@))
    &&& (f.params == params)
    &&& (f.return_type@ =~= bir_of(func.return_type@, names_of(s.current_type_params@)))
    &&& (f.blocks@ =~= s.blocks@.push(sealed(s, function_exit(result))))
    &&& (f.body@ =~= body_regions@.push(CfgRegion::Block(s.current_block_label)))
}

/// Whether one scope binds `name`.
fn scope_has(scope: &Vec<(String, Value)>, name: &String) -> (r: bool)
    ensures
        r == (scope_lookup(scope@, name@) is Some),
{
    let mut j: usize = scope.len();
    assert(scope@.take(j as int) =~= scope@);
    while j > 0
        invariant
            j <= scope@.len(),
            scope_lookup(scope@, name@) == scope_lookup(scope@.take(j as int), name@),
        decreases j,
    {
        assert(scope@.take(j as int).drop_last() =~= scope@.take(j - 1));
        if scope[j - 1].0.eq(name) {
            return true;
        }
        j = j - 1;
    }
    assert(scope@.take(0) =~= Seq::<(String, Value)>::empty());
    false
}

/// The scope found for a name is one of the scopes.
pub proof fn lemma_scope_of_bounds(scopes: Seq<Vec<(String, Value)>>, name: Seq<char>)
    ensures
        scope_of(scopes, name) matches Some(i) ==> 0 <= i < scopes.len()
            && scope_lookup(scopes[i]@, name) is Some,
    decreases scopes.len(),
{
    if scopes.len() > 0 {
        lemma_scope_of_bounds(scopes.drop_last(), name);
    }
}

impl Lowering {
    /// A lowering with no values, blocks or bindings yet.
    pub fn new() -> (r: Lowering)
        ensures
            r.next_value == 0,
            r.next_block == 0,
            r.scopes@.len() == 0,
            r.blocks@.len() == 0,
            r.current_instructions@.len() == 0,
            r.current_block_label == 0,
            r.current_block_params@.len() == 0,
            r.pending_regions@.len() == 0,
            r.mutable_vars@.len() == 0,
            r.loop_stack@.len() == 0,
            r.value_types@.len() == 0,
            !r.last_expr_diverged,
            r.current_type_params@.len() == 0,
            r.name_map is None,
            r.lowering_errors@.len() == 0,
            r.func_sigs@.len() == 0,
            r.func_type_param_names@.len() == 0,
            r.struct_init_calls@.len() == 0,
            r.inferred_type_args@.len() == 0,
    {
        Lowering {
            next_value: 0,
            next_block: 0,
            scopes: Vec::new(),
            blocks: Vec::new(),
            current_instructions: Vec::new(),
            current_block_label: 0,
            current_block_params: Vec::new(),
            pending_regions: Vec::new(),
            mutable_vars: Vec::new(),
            loop_stack: Vec::new(),
            value_types: Vec::new(),
            last_expr_diverged: false,
            current_type_params: Vec::new(),
            name_map: None,
            lowering_errors: Vec::new(),
            func_sigs: Vec::new(),
            func_type_param_names: Vec::new(),
            struct_init_calls: Vec::new(),
            inferred_type_args: Vec::new(),
        }
    }

    /// A value not handed out before: the next number.
    pub fn fresh_value(&mut self) -> (v: Value)
        requires
            old(self).next_value < u32::MAX,
        ensures
            same_context(*final(self), *old(self)),
            v.0 == old(self).next_value,
            final(self).next_value == old(self).next_value + 1,
            final(self).next_block == old(self).next_block,
            final(self).last_expr_diverged == old(self).last_expr_diverged,
            same_names(*final(self), *old(self)),
            same_code(*final(self), *old(self)),
    {
        let v = Value(self.next_value);
        self.next_value = self.next_value + 1;
        v
    }

    /// A block label not handed out before: the next number.
    pub fn fresh_block(&mut self) -> (label: u32)
        requires
            old(self).next_block < u32::MAX,
        ensures
            same_context(*final(self), *old(self)),
            label == old(self).next_block,
            final(self).next_block == old(self).next_block + 1,
            final(self).next_value == old(self).next_value,
            final(self).last_expr_diverged == old(self).last_expr_diverged,
            same_names(*final(self), *old(self)),
            same_code(*final(self), *old(self)),
    {
        let label = self.next_block;
        self.next_block = self.next_block + 1;
        label
    }

    /// Appends an instruction to the block under construction.
    pub fn emit(&mut self, inst: Instruction)
        ensures
            same_context(*final(self), *old(self)),
            final(self).current_instructions@ == old(self).current_instructions@.push(inst),
            final(self).blocks == old(self).blocks,
            final(self).current_block_label == old(self).current_block_label,
            final(self).current_block_params == old(self).current_block_params,
            final(self).pending_regions == old(self).pending_regions,
            same_names(*final(self), *old(self)),
            same_counters(*final(self), *old(self)),
    {
        self.current_instructions.push(inst);
    }

    /// Ends the block under construction with `terminator` and adds it to the sealed blocks.
    pub fn seal_block(&mut self, terminator: Terminator)
        ensures
            same_context(*final(self), *old(self)),
            final(self).blocks@ == old(self).blocks@.push(sealed(*old(self), terminator)),
            final(self).current_instructions@.len() == 0,
            final(self).current_block_params@.len() == 0,
            final(self).current_block_label == old(self).current_block_label,
            final(self).pending_regions == old(self).pending_regions,
            same_names(*final(self), *old(self)),
            same_counters(*final(self), *old(self)),
    {
        let mut params: Vec<(Value, BirType)> = Vec::new();
        let mut instructions: Vec<Instruction> = Vec::new();
        std::mem::swap(&mut params, &mut self.current_block_params);
        std::mem::swap(&mut instructions, &mut self.current_instructions);
        let block = BasicBlock { label: self.current_block_label, params, instructions, terminator };
        self.blocks.push(block);
    }

    /// Starts a new, empty block with the given label and parameters.
    pub fn start_block(&mut self, label: u32, params: Vec<(Value, BirType)>)
        ensures
            same_context(*final(self), *old(self)),
            final(self).current_block_label == label,
            final(self).current_block_params == params,
            final(self).current_instructions@.len() == 0,
            final(self).blocks == old(self).blocks,
            final(self).pending_regions == old(self).pending_regions,
            same_names(*final(self), *old(self)),
            same_counters(*final(self), *old(self)),
    {
        self.current_block_label = label;
        self.current_block_params = params;
        self.current_instructions = Vec::new();
    }

    /// Hands out the pending regions and leaves none.
    pub fn take_pending_regions(&mut self) -> (r: Vec<CfgRegion>)
        ensures
            take_pending_regions_post(*old(self), *final(self), r),
    {
        let mut r: Vec<CfgRegion> = Vec::new();
        std::mem::swap(&mut r, &mut self.pending_regions);
        r
    }

    /// Opens a new, innermost scope.
    pub fn push_scope(&mut self)
        ensures
            push_scope_post(*old(self), *final(self)),
    {
        self.scopes.push(Vec::new());
    }

    /// Binds `name` to `value` in the innermost scope, if there is one.
    pub fn define_var(&mut self, name: String, value: Value)
        ensures
            define_var_post(*old(self), *final(self), name, value),
    {
        if self.scopes.len() > 0 {
            let mut scope = self.scopes.pop().unwrap();
            scope.push((name, value));
            self.scopes.push(scope);
        }
    }

    /// The value that `name` is bound to, innermost scope first.
    pub fn try_lookup_var(&self, name: &String) -> (r: Option<Value>)
        ensures
            r == lookup(self.scopes@, name@),
    {
        let mut i: usize = self.scopes.len();
        assert(self.scopes@.take(i as int) =~= self.scopes@);
        while i > 0
            invariant
                i <= self.scopes@.len(),
                scope_of(self.scopes@, name@) == scope_of(self.scopes@.take(i as int), name@),
            decreases i,
        {
            proof {
                assert(self.scopes@.take(i as int).drop_last() =~= self.scopes@.take(i - 1));
                assert(self.scopes@.take(i as int).last() == self.scopes@[i - 1]);
            }
            let scope = &self.scopes[i - 1];
            let mut j: usize = scope.len();
            assert(scope@.take(j as int) =~= scope@);
            while j > 0
                invariant
                    j <= scope@.len(),
                    0 < i <= self.scopes@.len(),
                    *scope == self.scopes@[i - 1],
                    scope_of(self.scopes@, name@) == scope_of(self.scopes@.take(i as int), name@),
                    self.scopes@.take(i as int).last() == self.scopes@[i - 1],
                    scope_lookup(scope@, name@) == scope_lookup(scope@.take(j as int), name@),
                decreases j,
            {
                assert(scope@.take(j as int).drop_last() =~= scope@.take(j - 1));
                if scope[j - 1].0.eq(name) {
                    assert(scope_lookup(scope@.take(j as int), name@) == Some(scope@[j - 1].1));
                    proof { lemma_scope_of_bounds(self.scopes@.take(i as int), name@); }
                    assert(scope_of(self.scopes@.take(i as int), name@) == Some(i - 1));
                    return Some(scope[j - 1].1);
                }
                j = j - 1;
            }
            assert(scope@.take(0) =~= Seq::<(String, Value)>::empty());
            i = i - 1;
        }
        assert(self.scopes@.take(0) =~= Seq::<Vec<(String, Value)>>::empty());
        None
    }

    /// Rebinds `name` to `value` in the innermost scope that binds it.
    pub fn assign_var(&mut self, name: &String, value: Value)
        requires
            assign_var_pre(*old(self), name, value),
        ensures
            assign_var_post(*old(self), *final(self), name, value),
    {
        let ghost target = scope_of(self.scopes@, name@)->0;
        let mut i: usize = self.scopes.len();
        proof { lemma_scope_of_bounds(self.scopes@, name@); }
        assert(self.scopes@.take(i as int) =~= self.scopes@);
        while !scope_has(&self.scopes[i - 1], name)
            invariant
                0 < i <= self.scopes@.len(),
                self.scopes == old(self).scopes,
                scope_of(self.scopes@.take(i as int), name@) == Some(target),
                0 <= target < i,
            decreases i,
        {
            proof {
                assert(self.scopes@.take(i as int).drop_last() =~= self.scopes@.take(i - 1));
                assert(self.scopes@.take(i as int).last() == self.scopes@[i - 1]);
                lemma_scope_of_bounds(self.scopes@.take(i - 1), name@);
            }
            i = i - 1;
        }
        proof {
            assert(self.scopes@.take(i as int).last() == self.scopes@[i - 1]);
        }
        assert(target == i - 1);
        let mut scope = self.scopes.remove(i - 1);
        scope.push((name.clone(), value));
        self.scopes.insert(i - 1, scope);
        assert(self.scopes@ =~= old(self).scopes@.update(target, self.scopes@[target]));
    }

    /// Records the type of value `v`.
    pub fn record_type(&mut self, v: Value, ty: BirType)
        ensures
            record_type_post(*old(self), *final(self), v, ty),
    {
        self.value_types.push((v, ty));
    }

    /// The recorded type of `v`, or `I32` when none was recorded.
    pub fn type_or_i32_of(&self, v: Value) -> (r: BirType)
        ensures
            r@ == type_or_i32(self.value_types@, v),
    {
        let mut k: usize = self.value_types.len();
        assert(self.value_types@.take(k as int) =~= self.value_types@);
        while k > 0
            invariant
                k <= self.value_types@.len(),
                type_of(self.value_types@, v) == type_of(self.value_types@.take(k as int), v),
            decreases k,
        {
            assert(self.value_types@.take(k as int).drop_last() =~= self.value_types@.take(k - 1));
            if self.value_types[k - 1].0.0 == v.0 {
                return self.value_types[k - 1].1.copy();
            }
            k = k - 1;
        }
        BirType::I32
    }

    /// The current value of each `var` variable, with its type, in order of declaration.
    pub fn collect_mutable_var_values(&self) -> (r: Vec<(Value, BirType)>)
        requires
            forall|k: int| 0 <= k < self.mutable_vars@.len() ==> #[trigger] lookup(self.scopes@, self.mutable_vars@[k].0@) is Some,
        ensures
            r@.len() == self.mutable_vars@.len(),
            forall|k: int| 0 <= k < r@.len() ==> #[trigger] r@[k].0 == lookup(self.scopes@, self.mutable_vars@[k].0@)->0
                && r@[k].1@ == self.mutable_vars@[k].1@,
    {
        let mut r: Vec<(Value, BirType)> = Vec::new();
        let mut k: usize = 0;
        while k < self.mutable_vars.len()
            invariant
                k <= self.mutable_vars@.len(),
                r@.len() == k,
                forall|m: int| 0 <= m < self.mutable_vars@.len() ==> #[trigger] lookup(self.scopes@, self.mutable_vars@[m].0@) is Some,
                forall|m: int| 0 <= m < k ==> #[trigger] r@[m].0 == lookup(self.scopes@, self.mutable_vars@[m].0@)->0
                    && r@[m].1@ == self.mutable_vars@[m].1@,
            decreases self.mutable_vars@.len() - k,
        {
            let v = self.try_lookup_var(&self.mutable_vars[k].0);
            assert(lookup(self.scopes@, self.mutable_vars@[k as int].0@) is Some);
            let v = v.unwrap();
            r.push((v, self.mutable_vars[k].1.copy()));
            k = k + 1;
        }
        r
    }

    /// Seals the block that ends a branch of an `if`/`else` according to how the branch ended.
    pub fn seal_branch_block(&mut self, result: StmtResult, merge_bb: u32, merge_type: &BirType)
        ensures
            same_context(*final(self), *old(self)),
            final(self).blocks@.len() == old(self).blocks@.len() + 1,
            final(self).blocks@.drop_last() == old(self).blocks@,
            holds_current(final(self).blocks@.last(), *old(self)),
            branch_exit(final(self).blocks@.last().terminator, result, merge_bb, merge_type@),
            empty_current(*final(self), old(self).current_block_label),
            final(self).pending_regions == old(self).pending_regions,
            same_names(*final(self), *old(self)),
            same_counters(*final(self), *old(self)),
    {
        match result {
            StmtResult::Yield(v) => {
                let mut args: Vec<(Value, BirType)> = Vec::new();
                args.push((v, merge_type.copy()));
                self.seal_block(Terminator::Br { target: merge_bb, args });
            },
            StmtResult::Return(v) => {
                self.seal_block(Terminator::Return(v));
            },
            StmtResult::Normal => {
                self.seal_block(Terminator::Br { target: merge_bb, args: Vec::new() });
            },
            _ => {
                self.seal_block(Terminator::ReturnVoid);
            },
        }
        assert(final(self).blocks@.drop_last() =~= old(self).blocks@);
    }

    /// The first half of lowering `lhs && rhs`, once `lhs` is lowered to `lhs_value`: the
    /// current block tests it and goes on to the block that lowers `rhs` when it is true and to
    /// a block giving `false` when it is not; the `rhs` block is started.
    pub fn short_circuit_and_enter(&mut self, lhs_value: Value) -> (sc: ShortCircuit)
        requires
            short_circuit_and_enter_pre(*old(self), lhs_value),
        ensures
            short_circuit_and_enter_post(*old(self), *final(self), lhs_value, sc),
    {
        let cond_regions = self.take_pending_regions();
        let cond_bb = self.current_block_label;
        let bb_rhs = self.fresh_block();
        let bb_false = self.fresh_block();
        let bb_merge = self.fresh_block();
        self.seal_block(Terminator::CondBr { cond: lhs_value, then_bb: bb_rhs, else_bb: bb_false });
        self.start_block(bb_rhs, Vec::new());
        ShortCircuit { cond_regions, cond_bb, cond_value: lhs_value, bb_then: bb_rhs, bb_else: bb_false, bb_merge }
    }

    /// The second half of lowering `lhs && rhs`, once `rhs` is lowered to `rhs_value`: the
    /// `rhs` block passes it to the join block, the `false` block passes a literal `false`,
    /// and the join block is started with the result as its one `Bool` parameter.
    pub fn short_circuit_and_leave(&mut self, sc: ShortCircuit, rhs_value: Value) -> (result: Value)
        requires
            short_circuit_and_leave_pre(*old(self), sc, rhs_value),
        ensures
            short_circuit_and_leave_post(*old(self), *final(self), sc, rhs_value, result),
    {
        let ghost s0 = *self;
        let mut then_region = self.take_pending_regions();
        let mut rhs_args: Vec<(Value, BirType)> = Vec::new();
        rhs_args.push((rhs_value, BirType::Bool));
        self.seal_block(Terminator::Br { target: sc.bb_merge, args: rhs_args });
        self.start_block(sc.bb_else, Vec::new());
        let false_val = self.fresh_value();
        self.emit(Instruction::Literal { result: false_val, value: 0, ty: BirType::Bool });
        let mut false_args: Vec<(Value, BirType)> = Vec::new();
        false_args.push((false_val, BirType::Bool));
        self.seal_block(Terminator::Br { target: sc.bb_merge, args: false_args });
        let result = self.fresh_value();
        let mut merge_params: Vec<(Value, BirType)> = Vec::new();
        merge_params.push((result, BirType::Bool));
        self.start_block(sc.bb_merge, merge_params);
        then_region.push(CfgRegion::Block(sc.bb_then));
        let mut else_region: Vec<CfgRegion> = Vec::new();
        else_region.push(CfgRegion::Block(sc.bb_else));
        let ShortCircuit { cond_regions, cond_bb, cond_value, bb_then, bb_else, bb_merge } = sc;
        self.pending_regions.push(CfgRegion::IfElse {
            cond_region: cond_regions,
            cond_bb,
            cond_value,
            then_region,
            else_region,
            merge_bb: bb_merge,
        });
        proof {
            let b = s0.blocks@.len() as int;
            assert(self.blocks@.take(b) =~= s0.blocks@);
            assert(self.current_block_params@ =~= seq![(result, BirType::Bool)]);
        }
        result
    }

    /// The first half of lowering `lhs || rhs`, once `lhs` is lowered to `lhs_value`: the
    /// current block tests it and goes on to a block giving `true` when it is true and to the
    /// block that lowers `rhs` when it is not; the `true` block is built and the `rhs` block
    /// is started.
    pub fn short_circuit_or_enter(&mut self, lhs_value: Value) -> (sc: ShortCircuit)
        requires
            short_circuit_or_enter_pre(*old(self), lhs_value),
        ensures
            short_circuit_or_enter_post(*old(self), *final(self), lhs_value, sc),
    {
        let ghost s0 = *self;
        let cond_regions = self.take_pending_regions();
        let cond_bb = self.current_block_label;
        let bb_true = self.fresh_block();
        let bb_rhs = self.fresh_block();
        let bb_merge = self.fresh_block();
        self.seal_block(Terminator::CondBr { cond: lhs_value, then_bb: bb_true, else_bb: bb_rhs });
        self.start_block(bb_true, Vec::new());
        let true_val = self.fresh_value();
        self.emit(Instruction::Literal { result: true_val, value: 1, ty: BirType::Bool });
        let mut true_args: Vec<(Value, BirType)> = Vec::new();
        true_args.push((true_val, BirType::Bool));
        self.seal_block(Terminator::Br { target: bb_merge, args: true_args });
        self.start_block(bb_rhs, Vec::new());
        proof {
            assert(self.blocks@.take(s0.blocks@.len() as int) =~= s0.blocks@);
        }
        ShortCircuit { cond_regions, cond_bb, cond_value: lhs_value, bb_then: bb_true, bb_else: bb_rhs, bb_merge }
    }

    /// The second half of lowering `lhs || rhs`, once `rhs` is lowered to `rhs_value`: the
    /// `rhs` block passes it to the join block, which is started with the result as its one
    /// `Bool` parameter.
    pub fn short_circuit_or_leave(&mut self, sc: ShortCircuit, rhs_value: Value) -> (result: Value)
        requires
            short_circuit_or_leave_pre(*old(self), sc, rhs_value),
        ensures
            short_circuit_or_leave_post(*old(self), *final(self), sc, rhs_value, result),
    {
        let ghost s0 = *self;
        let mut else_region = self.take_pending_regions();
        let mut rhs_args: Vec<(Value, BirType)> = Vec::new();
        rhs_args.push((rhs_value, BirType::Bool));
        self.seal_block(Terminator::Br { target: sc.bb_merge, args: rhs_args });
        let result = self.fresh_value();
        let mut merge_params: Vec<(Value, BirType)> = Vec::new();
        merge_params.push((result, BirType::Bool));
        self.start_block(sc.bb_merge, merge_params);
        let mut then_region: Vec<CfgRegion> = Vec::new();
        then_region.push(CfgRegion::Block(sc.bb_then));
        else_region.push(CfgRegion::Block(sc.bb_else));
        let ShortCircuit { cond_regions, cond_bb, cond_value, bb_then, bb_else, bb_merge } = sc;
        self.pending_regions.push(CfgRegion::IfElse {
            cond_region: cond_regions,
            cond_bb,
            cond_value,
            then_region,
            else_region,
            merge_bb: bb_merge,
        });
        proof {
            assert(self.blocks@.drop_last() =~= s0.blocks@);
            assert(self.current_block_params@ =~= seq![(result, BirType::Bool)]);
        }
        result
    }

    /// Starts lowering `if c { .. } else { .. }` once `c` is lowered to `cond_value`: the
    /// current block branches to the `then` and `else` blocks, the `then` block is started,
    /// and a scope is opened for it.
    pub fn if_else_enter(&mut self, cond_value: Value) -> (head: IfHead)
        requires
            if_else_enter_pre(*old(self), cond_value),
        ensures
            if_else_enter_post(*old(self), *final(self), cond_value, head),
    {
        let cond_regions = self.take_pending_regions();
        let cond_bb = self.current_block_label;
        let bb_then = self.fresh_block();
        let bb_merge = self.fresh_block();
        let bb_else = self.fresh_block();
        self.seal_block(Terminator::CondBr { cond: cond_value, then_bb: bb_then, else_bb: bb_else });
        self.start_block(bb_then, Vec::new());
        self.push_scope();
        IfHead { cond_regions, cond_bb, cond_value, bb_then, bb_merge, bb_else }
    }

    /// Once the `then` branch is lowered: closes its scope, sets its last block aside, starts
    /// the `else` block and opens a scope for it.
    pub fn if_else_switch(&mut self, head: &IfHead) -> (then_end: OpenBlock)
        ensures
            if_else_switch_post(*old(self), *final(self), head, then_end),
    {
        self.pop_scope();
        let then_end = self.set_aside();
        self.start_block(head.bb_else, Vec::new());
        self.push_scope();
        then_end
    }

    /// Takes the block under construction out, leaving an empty one with the same label.
    fn set_aside(&mut self) -> (o: OpenBlock)
        ensures
            same_context(*final(self), *old(self)),
            o.label == old(self).current_block_label,
            o.params == old(self).current_block_params,
            o.instructions == old(self).current_instructions,
            empty_current(*final(self), old(self).current_block_label),
            final(self).blocks == old(self).blocks,
            final(self).pending_regions == old(self).pending_regions,
            same_names(*final(self), *old(self)),
            same_counters(*final(self), *old(self)),
    {
        let mut params: Vec<(Value, BirType)> = Vec::new();
        let mut instructions: Vec<Instruction> = Vec::new();
        std::mem::swap(&mut params, &mut self.current_block_params);
        std::mem::swap(&mut instructions, &mut self.current_instructions);
        OpenBlock { label: self.current_block_label, params, instructions }
    }

    /// Makes a set-aside block the block under construction again.
    fn restore(&mut self, o: OpenBlock)
        ensures
            same_context(*final(self), *old(self)),
            final(self).current_block_label == o.label,
            final(self).current_block_params == o.params,
            final(self).current_instructions == o.instructions,
            final(self).blocks == old(self).blocks,
            final(self).pending_regions == old(self).pending_regions,
            same_names(*final(self), *old(self)),
            same_counters(*final(self), *old(self)),
    {
        self.current_block_label = o.label;
        self.current_block_params = o.params;
        self.current_instructions = o.instructions;
    }

    /// Finishes lowering an `if`/`else` once both branches are lowered: each branch's last
    /// block jumps to the join block, passing its yielded value, and the join block is started
    /// with a parameter of the merge type when a branch yields one. The result is that
    /// parameter; without one, a value number that nothing defines.
    pub fn if_else_leave(
        &mut self,
        head: IfHead,
        then_end: OpenBlock,
        then_result: StmtResult,
        then_regions: Vec<CfgRegion>,
        else_result: StmtResult,
        else_regions: Vec<CfgRegion>,
    ) -> (result: Value)
        requires
            if_else_leave_pre(*old(self), head, then_end, then_result, then_regions, else_result, else_regions),
        ensures
            if_else_leave_post(*old(self), *final(self), head, then_end, then_result, then_regions, else_result, else_regions, result),
    {
        let ghost s0 = *self;
        self.pop_scope();
        let else_end = self.set_aside();
        let merge_ty = match then_result {
            StmtResult::Yield(v) => self.type_or_i32_of(v),
            _ => match else_result {
                StmtResult::Yield(v) => self.type_or_i32_of(v),
                _ => BirType::I32,
            },
        };
        self.restore(then_end);
        self.seal_branch_block(then_result, head.bb_merge, &merge_ty);
        let mut then_region = then_regions;
        then_region.push(CfgRegion::Block(head.bb_then));
        self.restore(else_end);
        self.seal_branch_block(else_result, head.bb_merge, &merge_ty);
        let mut else_region = else_regions;
        else_region.push(CfgRegion::Block(head.bb_else));
        let then_yields = match then_result { StmtResult::Yield(_) => true, _ => false };
        let else_yields = match else_result { StmtResult::Yield(_) => true, _ => false };
        let both_diverge = is_divergent(then_result) && is_divergent(else_result);
        let result = self.fresh_value();
        if then_yields || else_yields {
            let ty = merge_ty.copy();
            self.record_type(result, ty);
            let mut params: Vec<(Value, BirType)> = Vec::new();
            params.push((result, merge_ty));
            self.start_block(head.bb_merge, params);
        } else {
            self.start_block(head.bb_merge, Vec::new());
            if both_diverge {
                self.last_expr_diverged = true;
            }
        }
        let IfHead { cond_regions, cond_bb, cond_value, bb_then, bb_merge, bb_else } = head;
        self.pending_regions.push(CfgRegion::IfElse {
            cond_region: cond_regions,
            cond_bb,
            cond_value,
            then_region,
            else_region,
            merge_bb: bb_merge,
        });
        proof {
            let b = s0.blocks@.len() as int;
            assert(self.blocks@.take(b) =~= s0.blocks@);
            assert(self.pending_regions@.drop_last() =~= s0.pending_regions@);
        }
        result
    }

    /// Starts lowering `if c { .. }` without `else` once `c` is lowered to `cond_value`: the
    /// current block branches to the `then` block or straight to the join block, the `then`
    /// block is started, and a scope is opened for it.
    pub fn if_only_enter(&mut self, cond_value: Value) -> (head: IfHead)
        requires
            if_only_enter_pre(*old(self), cond_value),
        ensures
            if_only_enter_post(*old(self), *final(self), cond_value, head),
    {
        let cond_regions = self.take_pending_regions();
        let cond_bb = self.current_block_label;
        let bb_then = self.fresh_block();
        let bb_merge = self.fresh_block();
        self.seal_block(Terminator::CondBr { cond: cond_value, then_bb: bb_then, else_bb: bb_merge });
        self.start_block(bb_then, Vec::new());
        self.push_scope();
        IfHead { cond_regions, cond_bb, cond_value, bb_then, bb_merge, bb_else: bb_merge }
    }

    /// Finishes lowering an `if` without `else` once its branch is lowered: the branch's last
    /// block jumps to the join block, which is started; the result is a `Unit` literal there.
    pub fn if_only_leave(&mut self, head: IfHead, then_result: StmtResult, then_regions: Vec<CfgRegion>) -> (result: Value)
        requires
            if_only_leave_pre(*old(self), head, then_result, then_regions),
        ensures
            if_only_leave_post(*old(self), *final(self), head, then_result, then_regions, result),
    {
        let ghost s0 = *self;
        self.pop_scope();
        match then_result {
            StmtResult::Return(v) => self.seal_block(Terminator::Return(v)),
            StmtResult::ReturnVoid | StmtResult::Break | StmtResult::Continue => self.seal_block(Terminator::ReturnVoid),
            _ => self.seal_block(Terminator::Br { target: head.bb_merge, args: Vec::new() }),
        }
        let mut then_region = then_regions;
        then_region.push(CfgRegion::Block(head.bb_then));
        self.start_block(head.bb_merge, Vec::new());
        let IfHead { cond_regions, cond_bb, cond_value, bb_then, bb_merge, bb_else } = head;
        self.pending_regions.push(CfgRegion::IfOnly {
            cond_region: cond_regions,
            cond_bb,
            cond_value,
            then_region,
            merge_bb: bb_merge,
        });
        let result = self.fresh_value();
        self.emit(Instruction::Literal { result, value: 0, ty: BirType::Unit });
        proof {
            assert(self.blocks@.drop_last() =~= s0.blocks@);
            assert(self.pending_regions@.drop_last() =~= s0.pending_regions@);
            assert(self.current_instructions@ =~= seq![Instruction::Literal { result, value: 0, ty: BirType::Unit }]);
        }
        result
    }

    /// Rebinds each `var` variable to the matching parameter of a loop header.
    fn rebind_vars(&mut self, params: &Vec<(Value, BirType)>)
        requires
            params@.len() == old(self).mutable_vars@.len(),
            vars_bound(*old(self)),
            distinct_names(old(self).mutable_vars@),
        ensures
            same_context(*final(self), *old(self)),
            forall|k: int| 0 <= k < params@.len() ==> #[trigger] lookup(final(self).scopes@, final(self).mutable_vars@[k].0@) == Some(params@[k].0),
            forall|n: Seq<char>| (forall|k: int| 0 <= k < params@.len() ==> #[trigger] old(self).mutable_vars@[k].0@ != n)
                ==> lookup(final(self).scopes@, n) == lookup(old(self).scopes@, n),
            vars_bound(*final(self)),
            final(self).scopes@.len() == old(self).scopes@.len(),
            final(self).mutable_vars == old(self).mutable_vars,
            final(self).loop_stack == old(self).loop_stack,
            final(self).value_types == old(self).value_types,
            same_code(*final(self), *old(self)),
            same_counters(*final(self), *old(self)),
    {
        let mut k: usize = 0;
        while k < params.len()
            invariant
                k <= params@.len(),
                params@.len() == self.mutable_vars@.len(),
                self.mutable_vars == old(self).mutable_vars,
                self.loop_stack == old(self).loop_stack,
                self.value_types == old(self).value_types,
                self.scopes@.len() == old(self).scopes@.len(),
                same_code(*self, *old(self)),
                same_counters(*self, *old(self)),
                same_context(*self, *old(self)),
                distinct_names(self.mutable_vars@),
                vars_bound(*self),
                forall|m: int| 0 <= m < k ==> #[trigger] lookup(self.scopes@, self.mutable_vars@[m].0@) == Some(params@[m].0),
                forall|n: Seq<char>| (forall|m: int| 0 <= m < k ==> #[trigger] old(self).mutable_vars@[m].0@ != n)
                    ==> lookup(self.scopes@, n) == lookup(old(self).scopes@, n),
            decreases params@.len() - k,
        {
            let ghost before = self.scopes@;
            assert(lookup(self.scopes@, self.mutable_vars@[k as int].0@) is Some);
            proof { lemma_scope_of_bounds(self.scopes@, self.mutable_vars@[k as int].0@); }
            let name = self.mutable_vars[k].0.clone();
            self.assign_var(&name, params[k].0);
            proof {
                let e = (name, params@[k as int].0);
                assert forall|n: Seq<char>| true implies #[trigger] lookup(self.scopes@, n)
                    == if e.0@ == n { Some(e.1) } else { lookup(before, n) } by {
                    lemma_assign_lookup(before, self.scopes@, e, n);
                }
                assert forall|m: int| 0 <= m < self.mutable_vars@.len() implies #[trigger] lookup(self.scopes@, self.mutable_vars@[m].0@) is Some by {
                    assert(lookup(self.scopes@, self.mutable_vars@[m].0@) == if e.0@ == self.mutable_vars@[m].0@ { Some(e.1) } else { lookup(before, self.mutable_vars@[m].0@) });
                }
                assert forall|m: int| 0 <= m < k + 1 implies #[trigger] lookup(self.scopes@, self.mutable_vars@[m].0@) == Some(params@[m].0) by {
                    assert(lookup(self.scopes@, self.mutable_vars@[m].0@) == if e.0@ == self.mutable_vars@[m].0@ { Some(e.1) } else { lookup(before, self.mutable_vars@[m].0@) });
                }
                assert forall|n: Seq<char>| (forall|m: int| 0 <= m < k + 1 ==> #[trigger] old(self).mutable_vars@[m].0@ != n)
                    implies lookup(self.scopes@, n) == lookup(old(self).scopes@, n) by {
                    assert(old(self).mutable_vars@[k as int].0@ != n);
                    assert(lookup(self.scopes@, n) == if e.0@ == n { Some(e.1) } else { lookup(before, n) });
                }
            }
            k = k + 1;
        }
    }

    /// Starts lowering a `while`: the current block jumps to a new header block, passing the
    /// current value of each `var` variable; the header is started with one parameter per
    /// `var` variable, which the variables are rebound to, and the loop is entered.
    pub fn while_enter(&mut self) -> (head: LoopHead)
        requires
            while_enter_pre(*old(self)),
        ensures
            while_enter_post(*old(self), *final(self), head),
    {
        let ghost s0 = *self;
        let entry_bb = self.current_block_label;
        let entry_args = self.collect_mutable_var_values();
        let bb_header = self.fresh_block();
        let bb_body = self.fresh_block();
        let bb_exit = self.fresh_block();
        self.seal_block(Terminator::Br { target: bb_header, args: entry_args });
        let mut header_params: Vec<(Value, BirType)> = Vec::new();
        let mut k: usize = 0;
        while k < self.mutable_vars.len()
            invariant
                k <= self.mutable_vars@.len(),
                self.mutable_vars == s0.mutable_vars,
                same_context(*self, s0),
                self.scopes == s0.scopes,
                self.loop_stack == s0.loop_stack,
                self.blocks@.len() == s0.blocks@.len() + 1,
                self.blocks@.drop_last() == s0.blocks@,
                holds_current(self.blocks@.last(), s0),
                self.blocks@.last().terminator matches Terminator::Br { target, args }
                    && target == bb_header && passes_vars(args@, s0),
                self.next_value == s0.next_value + k,
                self.next_block == s0.next_block + 3,
                s0.next_value + s0.mutable_vars@.len() <= u32::MAX,
                self.current_block_label == entry_bb,
                self.pending_regions == s0.pending_regions,
                self.last_expr_diverged == s0.last_expr_diverged,
                header_params@.len() == k,
                forall|m: int| 0 <= m < k ==> (#[trigger] header_params@[m]).0 == Value((s0.next_value + m) as u32)
                    && header_params@[m].1@ == s0.mutable_vars@[m].1@,
            decreases self.mutable_vars@.len() - k,
        {
            let v = self.fresh_value();
            let ty = self.mutable_vars[k].1.copy();
            self.record_type(v, ty);
            header_params.push((v, self.mutable_vars[k].1.copy()));
            k = k + 1;
        }
        let params_copy = copy_params(&header_params);
        self.start_block(bb_header, params_copy);
        self.rebind_vars(&header_params);
        self.loop_stack.push(LoopContext { header_bb: bb_header, exit_bb: bb_exit, break_ty: None });
        LoopHead { entry_bb, bb_header, bb_body, bb_exit, header_params }
    }

    /// Once a `while`'s condition is lowered to `cond_value`: the header tests it and goes to
    /// the body block when it is true and to the `nobreak` block (or the exit) when it is not;
    /// the body block is started and a scope is opened for it.
    pub fn while_cond(&mut self, head: &LoopHead, cond_value: Value, has_nobreak: bool) -> (c: LoopCond)
        requires
            while_cond_pre(*old(self), head, cond_value, has_nobreak),
        ensures
            while_cond_post(*old(self), *final(self), head, cond_value, has_nobreak, c),
    {
        let header_regions = self.take_pending_regions();
        let bb_nobreak = if has_nobreak { self.fresh_block() } else { head.bb_exit };
        self.seal_block(Terminator::CondBr { cond: cond_value, then_bb: head.bb_body, else_bb: bb_nobreak });
        self.start_block(head.bb_body, Vec::new());
        self.push_scope();
        LoopCond { header_regions, cond_value, bb_nobreak }
    }

    /// Once a `while`'s body is lowered: closes its scope; its last block jumps back to the
    /// header with the current value of each `var` variable unless the body left; the loop is
    /// left, handing back the type its `break`s carry, and each `var` variable is rebound to its
    /// header parameter, which holds its value when the loop exits.
    pub fn while_body_end(&mut self, head: &LoopHead, body_result: StmtResult, body_regions: Vec<CfgRegion>) -> (r: (Vec<CfgRegion>, Option<BirType>))
        requires
            while_body_end_pre(*old(self), head, body_result, body_regions),
        ensures
            while_body_end_post(*old(self), *final(self), head, body_result, body_regions, r),
    {
        let ghost s0 = *self;
        self.pop_scope();
        proof {
            assert(self.scopes@ == popped(s0.scopes@));
            assert forall|k: int| 0 <= k < self.mutable_vars@.len() implies #[trigger] lookup(self.scopes@, self.mutable_vars@[k].0@) is Some by {
                assert(lookup(popped(s0.scopes@), s0.mutable_vars@[k].0@) is Some);
            }
        }
        let has_inner_regions = body_regions.len() > 0;
        let last_body_bb = self.current_block_label;
        let diverged = is_divergent(body_result);
        match body_result {
            StmtResult::Break | StmtResult::Continue | StmtResult::ReturnVoid => self.seal_block(Terminator::ReturnVoid),
            StmtResult::Return(v) => self.seal_block(Terminator::Return(v)),
            _ => {
                let updated_args = self.collect_mutable_var_values();
                self.seal_block(Terminator::Br { target: head.bb_header, args: updated_args });
            },
        }
        let mut body_region = body_regions;
        if has_inner_regions {
            if !diverged {
                body_region.push(CfgRegion::Block(last_body_bb));
            }
        } else {
            body_region.push(CfgRegion::Block(head.bb_body));
            assert(body_region@ =~= seq![CfgRegion::Block(head.bb_body)]);
        }
        let loop_ctx = self.loop_stack.pop().unwrap();
        let break_ty = loop_ctx.break_ty;
        self.rebind_vars(&head.header_params);
        proof {
            assert(self.blocks@.drop_last() =~= s0.blocks@);
        }
        (body_region, break_ty)
    }

    /// Starts a `while`'s `nobreak` block and opens a scope for it.
    pub fn nobreak_enter(&mut self, bb_nobreak: u32)
        ensures
            nobreak_enter_post(*old(self), *final(self), bb_nobreak),
    {
        self.start_block(bb_nobreak, Vec::new());
        self.push_scope();
    }

    /// Once a `nobreak` block is lowered: closes its scope and jumps to the exit block,
    /// passing a yielded value when the loop's `break`s carry one.
    pub fn nobreak_leave(
        &mut self,
        nobreak_result: StmtResult,
        nobreak_regions: Vec<CfgRegion>,
        bb_nobreak: u32,
        bb_exit: u32,
        break_ty: &Option<BirType>,
    ) -> (region: Vec<CfgRegion>)
        ensures
            nobreak_leave_post(*old(self), *final(self), nobreak_result, nobreak_regions, bb_nobreak, bb_exit, break_ty, region),
    {
        let ghost s0 = *self;
        self.pop_scope();
        match nobreak_result {
            StmtResult::Yield(v) => {
                if break_ty.is_some() {
                    let ty = self.type_or_i32_of(v);
                    let mut args: Vec<(Value, BirType)> = Vec::new();
                    args.push((v, ty));
                    self.seal_block(Terminator::Br { target: bb_exit, args });
                } else {
                    self.seal_block(Terminator::Br { target: bb_exit, args: Vec::new() });
                }
            },
            StmtResult::Return(v) => self.seal_block(Terminator::Return(v)),
            StmtResult::ReturnVoid => self.seal_block(Terminator::ReturnVoid),
            _ => self.seal_block(Terminator::Br { target: bb_exit, args: Vec::new() }),
        }
        let mut region = nobreak_regions;
        region.push(CfgRegion::Block(bb_nobreak));
        proof {
            assert(self.blocks@.drop_last() =~= s0.blocks@);
        }
        region
    }

    /// Finishes lowering a `while`: the exit block is started, with one parameter of the
    /// `break` type when the loop's `break`s carry a value, which is then the loop's result;
    /// otherwise the result is a `Unit` literal in the exit block.
    pub fn while_exit(
        &mut self,
        head: LoopHead,
        c: LoopCond,
        body_region: Vec<CfgRegion>,
        nobreak_region: Vec<CfgRegion>,
        break_ty: Option<BirType>,
    ) -> (result: Value)
        requires
            while_exit_pre(*old(self), head, c, body_region, nobreak_region, break_ty),
        ensures
            while_exit_post(*old(self), *final(self), head, c, body_region, nobreak_region, break_ty, result),
    {
        let result;
        match break_ty {
            Some(bty) => {
                result = self.fresh_value();
                let mut params: Vec<(Value, BirType)> = Vec::new();
                params.push((result, bty.copy()));
                self.start_block(head.bb_exit, params);
                self.record_type(result, bty);
            },
            None => {
                self.start_block(head.bb_exit, Vec::new());
                result = self.fresh_value();
                self.emit(Instruction::Literal { result, value: 0, ty: BirType::Unit });
                self.record_type(result, BirType::Unit);
                assert(self.current_instructions@ =~= seq![Instruction::Literal { result, value: 0, ty: BirType::Unit }]);
            },
        }
        let LoopHead { entry_bb, bb_header, bb_body, bb_exit, header_params } = head;
        let LoopCond { header_regions, cond_value, bb_nobreak } = c;
        let ghost p0 = self.pending_regions@;
        self.pending_regions.push(CfgRegion::While {
            entry_bb,
            header_region: header_regions,
            header_bb: bb_header,
            cond_value,
            body_region,
            nobreak_region,
            exit_bb: bb_exit,
        });
        assert(self.pending_regions@.drop_last() =~= p0);
        result
    }

    /// Lowers `break`, once its value (if any) is lowered to `value` and `args` holds the
    /// current value of each `var` variable: the current block leaves the innermost loop for its
    /// exit block, passing `args` and the value with its type, which becomes the type the
    /// loop's `break`s carry; a new, dead block is started.
    pub fn break_jump(&mut self, args: Vec<(Value, BirType)>, value: Option<Value>) -> (r: StmtResult)
        requires
            break_jump_pre(*old(self), args, value),
        ensures
            break_jump_post(*old(self), *final(self), args, value, r),
    {
        let ghost s0 = *self;
        let mut ctx = self.loop_stack.pop().unwrap();
        let header_bb = ctx.header_bb;
        let exit_bb = ctx.exit_bb;
        let carried = match value {
            Some(v) => {
                let ty = self.type_or_i32_of(v);
                ctx.break_ty = Some(ty.copy());
                Some((v, ty))
            },
            None => None,
        };
        self.loop_stack.push(ctx);
        self.seal_block(Terminator::BrBreak { header_bb, exit_bb, args, value: carried });
        let dummy_bb = self.fresh_block();
        self.start_block(dummy_bb, Vec::new());
        proof {
            assert(self.blocks@.drop_last() =~= s0.blocks@);
            assert(self.loop_stack@.drop_last() =~= s0.loop_stack@.drop_last());
        }
        StmtResult::Break
    }

    /// Lowers `continue`, once `args` holds the current value of each `var` variable: the
    /// current block jumps back to the innermost loop's header passing `args`, and a new, dead
    /// block is started.
    pub fn continue_jump(&mut self, args: Vec<(Value, BirType)>) -> (r: StmtResult)
        requires
            continue_jump_pre(*old(self), args),
        ensures
            continue_jump_post(*old(self), *final(self), args, r),
    {
        let ghost s0 = *self;
        let header_bb = self.loop_stack[self.loop_stack.len() - 1].header_bb;
        self.seal_block(Terminator::BrContinue { header_bb, args });
        let dummy_bb = self.fresh_block();
        self.start_block(dummy_bb, Vec::new());
        proof {
            assert(self.blocks@.drop_last() =~= s0.blocks@);
        }
        StmtResult::Continue
    }

    /// Lowers an integer literal: an `I32` literal instruction.
    pub fn lower_number(&mut self, n: i64) -> (result: Value)
        requires
            lower_number_pre(*old(self), n),
        ensures
            lower_number_post(*old(self), *final(self), n, result),
    {
        let result = self.fresh_value();
        self.emit(Instruction::Literal { result, value: n, ty: BirType::I32 });
        self.record_type(result, BirType::I32);
        assert(self.value_types@.drop_last() =~= old(self).value_types@);
        result
    }

    /// Lowers a floating-point literal, given by its bits: an `F64` literal instruction
    /// holding the bits.
    pub fn lower_float_bits(&mut self, bits: u64) -> (result: Value)
        requires
            lower_float_bits_pre(*old(self), bits),
        ensures
            lower_float_bits_post(*old(self), *final(self), bits, result),
    {
        let result = self.fresh_value();
        self.emit(Instruction::Literal { result, value: bits as i64, ty: BirType::F64 });
        self.record_type(result, BirType::F64);
        assert(self.value_types@.drop_last() =~= old(self).value_types@);
        result
    }

    /// Lowers a boolean literal: a `Bool` literal instruction holding 1 or 0.
    pub fn lower_bool(&mut self, b: bool) -> (result: Value)
        requires
            lower_bool_pre(*old(self), b),
        ensures
            lower_bool_post(*old(self), *final(self), b, result),
    {
        let result = self.fresh_value();
        self.emit(Instruction::Literal { result, value: if b { 1 } else { 0 }, ty: BirType::Bool });
        self.record_type(result, BirType::Bool);
        assert(self.value_types@.drop_last() =~= old(self).value_types@);
        result
    }

    /// Lowers `!operand` once the operand is lowered: a `not` instruction of type `Bool`.
    pub fn lower_not(&mut self, operand: Value) -> (result: Value)
        requires
            lower_not_pre(*old(self), operand),
        ensures
            lower_not_post(*old(self), *final(self), operand, result),
    {
        let result = self.fresh_value();
        self.emit(Instruction::Not { result, operand });
        self.record_type(result, BirType::Bool);
        assert(self.value_types@.drop_last() =~= old(self).value_types@);
        result
    }

    /// Lowers `lhs op rhs` for an arithmetic operator once both operands are lowered: a
    /// binary instruction of the left operand's type, which is the result's type.
    pub fn lower_arith(&mut self, op: BinOp, lhs: Value, rhs: Value) -> (result: Value)
        requires
            lower_arith_pre(*old(self), op, lhs, rhs),
        ensures
            lower_arith_post(*old(self), *final(self), op, lhs, rhs, result),
    {
        let ty = self.type_or_i32_of(lhs);
        let result = self.fresh_value();
        let bop = convert_binop(op);
        self.emit(Instruction::BinaryOp { result, op: bop, lhs, rhs, ty: ty.copy() });
        self.record_type(result, ty);
        assert(self.value_types@.drop_last() =~= old(self).value_types@);
        assert(self.current_instructions@.drop_last() =~= old(self).current_instructions@);
        result
    }

    /// Lowers `lhs op rhs` for a comparison once both operands are lowered: a compare
    /// instruction over the left operand's type, whose result is `Bool`.
    pub fn lower_compare(&mut self, op: BinOp, lhs: Value, rhs: Value) -> (result: Value)
        requires
            lower_compare_pre(*old(self), op, lhs, rhs),
        ensures
            lower_compare_post(*old(self), *final(self), op, lhs, rhs, result),
    {
        let ty = self.type_or_i32_of(lhs);
        let result = self.fresh_value();
        let cop = convert_compare_op(op);
        self.emit(Instruction::Compare { result, op: cop, lhs, rhs, ty });
        self.record_type(result, BirType::Bool);
        assert(self.value_types@.drop_last() =~= old(self).value_types@);
        assert(self.current_instructions@.drop_last() =~= old(self).current_instructions@);
        result
    }

    /// Lowers `operand as T` once the operand is lowered and `T` converted to `to_ty`: a cast
    /// from the operand's type to `to_ty`, which is the result's type.
    pub fn lower_cast_to(&mut self, operand: Value, to_ty: BirType) -> (result: Value)
        requires
            lower_cast_to_pre(*old(self), operand, to_ty),
        ensures
            lower_cast_to_post(*old(self), *final(self), operand, to_ty, result),
    {
        let from_ty = self.type_or_i32_of(operand);
        let result = self.fresh_value();
        self.emit(Instruction::Cast { result, operand, from_ty, to_ty: to_ty.copy() });
        self.record_type(result, to_ty);
        assert(self.value_types@.drop_last() =~= old(self).value_types@);
        assert(self.current_instructions@.drop_last() =~= old(self).current_instructions@);
        result
    }

    /// Whether `name` is a type parameter of the function being lowered.
    fn is_type_param(&self, name: &String) -> (r: bool)
        ensures
            r == names_of(self.current_type_params@).contains(name@),
    {
        let mut k: usize = 0;
        while k < self.current_type_params.len()
            invariant
                k <= self.current_type_params@.len(),
                forall|m: int| 0 <= m < k ==> self.current_type_params@[m]@ != name@,
            decreases self.current_type_params@.len() - k,
        {
            if self.current_type_params[k].eq(name) {
                assert(names_of(self.current_type_params@)[k as int] == name@);
                return true;
            }
            k = k + 1;
        }
        assert forall|m: int| 0 <= m < names_of(self.current_type_params@).len() implies names_of(self.current_type_params@)[m] != name@ by {
            assert(names_of(self.current_type_params@)[m] == self.current_type_params@[m]@);
        }
        false
    }

    /// The BIR type of a written type inside the function being lowered.
    pub fn convert_type_with_structs(&self, ty: &TypeAnnotation) -> (r: BirType)
        ensures
            r@ == bir_of(ty@, names_of(self.current_type_params@)),
        decreases ty, 0int,
    {
        match ty {
            TypeAnnotation::Named(name) => {
                if self.is_type_param(name) {
                    BirType::TypeParam(name.clone())
                } else {
                    BirType::struct_simple(name.clone())
                }
            },
            TypeAnnotation::Generic { name, args } => {
                let bir_args = self.convert_types_with_structs(args);
                BirType::Struct { name: name.clone(), type_args: bir_args }
            },
            TypeAnnotation::Array { element, size } => BirType::Array {
                element: Box::new(self.convert_type_with_structs(element)),
                size: *size,
            },
            TypeAnnotation::I32 => BirType::I32,
            TypeAnnotation::I64 => BirType::I64,
            TypeAnnotation::F32 => BirType::F32,
            TypeAnnotation::F64 => BirType::F64,
            TypeAnnotation::Bool => BirType::Bool,
            TypeAnnotation::Unit => BirType::Unit,
        }
    }

    /// The BIR types of a list of written types.
    pub fn convert_types_with_structs(&self, ts: &Vec<TypeAnnotation>) -> (r: Vec<BirType>)
        ensures
            views(r@) == bir_of_all(annotation_views(ts@), names_of(self.current_type_params@)),
        decreases ts, 1int,
    {
        let ghost tps = names_of(self.current_type_params@);
        let mut r: Vec<BirType> = Vec::new();
        let mut k: usize = 0;
        assert(ts@.take(0) =~= Seq::<TypeAnnotation>::empty());
        assert(annotation_views(ts@.take(0)) =~= Seq::<TypeAnnotationV>::empty());
        assert(views(r@) =~= Seq::<TypeV>::empty());
        while k < ts.len()
            invariant
                k <= ts@.len(),
                tps == names_of(self.current_type_params@),
                views(r@) == bir_of_all(annotation_views(ts@.take(k as int)), tps),
            decreases ts@.len() - k,
        {
            assert(decreases_to!(ts => ts@[k as int]));
            assert(ts@.take(k + 1).drop_last() =~= ts@.take(k as int));
            assert(ts@.take(k + 1).last() == ts@[k as int]);
            assert(annotation_views(ts@.take(k + 1)).drop_last() == annotation_views(ts@.take(k as int)));
            assert(annotation_views(ts@.take(k + 1)).last() == ts@[k as int]@);
            let ghost before = r@;
            r.push(self.convert_type_with_structs(&ts[k]));
            assert(r@.drop_last() =~= before);
            assert(views(r@).drop_last() == views(before));
            k = k + 1;
        }
        assert(ts@.take(ts@.len() as int) =~= ts@);
        r
    }

    /// The name a function is emitted under.
    pub fn resolve_name(&self, name: &String) -> (r: String)
        ensures
            r@ == resolved_name(self.name_map, name@),
    {
        match &self.name_map {
            Some(map) => {
                let mut k: usize = map.len();
                assert(map@.take(k as int) =~= map@);
                while k > 0
                    invariant
                        k <= map@.len(),
                        self.name_map == Some(*map),
                        pair_lookup(map@, name@) == pair_lookup(map@.take(k as int), name@),
                    decreases k,
                {
                    assert(map@.take(k as int).drop_last() =~= map@.take(k - 1));
                    if map[k - 1].0.eq(name) {
                        assert(pair_lookup(map@.take(k as int), name@) == Some(map@[k - 1].1@));
                        return map[k - 1].1.clone();
                    }
                    k = k - 1;
                }
                assert(map@.take(0) =~= Seq::<(String, String)>::empty());
                name.clone()
            },
            None => name.clone(),
        }
    }

    /// Starts lowering a function: the state is reset, block 0 is started, a scope is opened,
    /// and each parameter gets the next value, its type and a binding. Returns the parameters.
    pub fn function_enter(&mut self, func: &Function) -> (params: Vec<(Value, BirType)>)
        requires
            function_enter_pre(*old(self), func),
        ensures
            function_enter_post(*old(self), *final(self), func, params),
    {
        self.next_value = 0;
        self.next_block = 0;
        self.scopes = Vec::new();
        self.blocks = Vec::new();
        self.pending_regions = Vec::new();
        self.mutable_vars = Vec::new();
        self.value_types = Vec::new();
        let mut tps: Vec<String> = Vec::new();
        let mut i: usize = 0;
        while i < func.type_params.len()
            invariant
                i <= func.type_params@.len(),
                tps@.len() == i,
                forall|k: int| 0 <= k < i ==> #[trigger] tps@[k]@ == func.type_params@[k].name@,
            decreases func.type_params@.len() - i,
        {
            tps.push(func.type_params[i].name.clone());
            i = i + 1;
        }
        self.current_type_params = tps;
        let bb0 = self.fresh_block();
        self.start_block(bb0, Vec::new());
        self.push_scope();
        let mut params: Vec<(Value, BirType)> = Vec::new();
        let mut k: usize = 0;
        while k < func.params.len()
            invariant
                k <= func.params@.len(),
                func.params@.len() < u32::MAX,
                self.next_value == k,
                self.next_block == 1,
                self.blocks@.len() == 0,
                empty_current(*self, 0),
                self.pending_regions@.len() == 0,
                self.scopes@.len() == 1,
                self.scopes@[0]@.len() == k,
                self.current_type_params@.len() == func.type_params@.len(),
                forall|m: int| 0 <= m < func.type_params@.len() ==> #[trigger] self.current_type_params@[m]@ == func.type_params@[m].name@,
                forall|m: int| 0 <= m < k ==> (#[trigger] self.scopes@[0]@[m]).0@ == func.params@[m].name@
                    && self.scopes@[0]@[m].1 == Value(m as u32),
                params@.len() == k,
                forall|m: int| 0 <= m < k ==> (#[trigger] params@[m]).0 == Value(m as u32)
                    && params@[m].1@ == bir_of(func.params@[m].ty@, names_of(self.current_type_params@)),
                self.value_types@.len() == k,
                forall|m: int| 0 <= m < k ==> (#[trigger] self.value_types@[m]).0 == Value(m as u32)
                    && self.value_types@[m].1@ == params@[m].1@,
                self.mutable_vars@.len() == 0,
                self.loop_stack@.len() == old(self).loop_stack@.len(),
                self.name_map == old(self).name_map,
                self.lowering_errors == old(self).lowering_errors,
                self.func_sigs == old(self).func_sigs,
                self.func_type_param_names == old(self).func_type_param_names,
                self.struct_init_calls == old(self).struct_init_calls,
                self.inferred_type_args == old(self).inferred_type_args,
            decreases func.params@.len() - k,
        {
            let val = self.fresh_value();
            let bir_ty = self.convert_type_with_structs(&func.params[k].ty);
            params.push((val, bir_ty.copy()));
            self.record_type(val, bir_ty);
            let ghost s0 = self.scopes@[0]@;
            self.define_var(func.params[k].name.clone(), val);
            assert(self.scopes@[0]@ == s0.push((func.params@[k as int].name, val)));
            k = k + 1;
        }
        params
    }

    /// Finishes lowering a function whose body ended as `result`, a return: closes the scope,
    /// seals the last block with the return, and hands out all the blocks with the body's
    /// regions followed by the last block.
    pub fn function_leave(&mut self, result: StmtResult, body_regions: Vec<CfgRegion>) -> (r: (Vec<BasicBlock>, Vec<CfgRegion>))
        requires
            result is Return || result is ReturnVoid,
        ensures
            same_context(*final(self), *old(self)),
            r.0@ == old(self).blocks@.push(sealed(*old(self), function_exit(result))),
            r.1@ == body_regions@.push(CfgRegion::Block(old(self).current_block_label)),
            final(self).blocks@.len() == 0,
            final(self).scopes@ == popped(old(self).scopes@),
    {
        self.pop_scope();
        match result {
            StmtResult::Return(v) => self.seal_block(Terminator::Return(v)),
            _ => self.seal_block(Terminator::ReturnVoid),
        }
        let final_label = self.blocks[self.blocks.len() - 1].label;
        let mut body = body_regions;
        body.push(CfgRegion::Block(final_label));
        let mut blocks: Vec<BasicBlock> = Vec::new();
        std::mem::swap(&mut blocks, &mut self.blocks);
        (blocks, body)
    }

    /// Finishes lowering `func` once its body is lowered and ended as `result`: the function
    /// under its emitted name, with its type parameters, parameters, return type, blocks and body.
    pub fn finish_function(
        &mut self,
        func: &Function,
        params: Vec<(Value, BirType)>,
        result: StmtResult,
        body_regions: Vec<CfgRegion>,
    ) -> (f: BirFunction)
        requires
            finish_function_pre(*old(self), func, params, result, body_regions),
        ensures
            finish_function_post(*old(self), *final(self), func, params, result, body_regions, f),
    {
        let (blocks, body) = self.function_leave(result, body_regions);
        let name = self.resolve_name(&func.name);
        let mut type_params: Vec<String> = Vec::new();
        let mut k: usize = 0;
        while k < self.current_type_params.len()
            invariant
                k <= self.current_type_params@.len(),
                self.current_type_params == old(self).current_type_params,
                type_params@.len() == k,
                forall|m: int| 0 <= m < k ==> #[trigger] type_params@[m]@ == self.current_type_params@[m]@,
            decreases self.current_type_params@.len() - k,
        {
            type_params.push(self.current_type_params[k].clone());
            k = k + 1;
        }
        assert(names_of(type_params@) =~= names_of(old(self).current_type_params@));
        let return_type = self.convert_type_with_structs(&func.return_type);
        BirFunction { name, type_params, params, return_type, blocks, body }
    }

    /// Records a lowering error and stands in for the value that could not be lowered with
    /// a `Unit` literal.
    pub fn record_error(&mut self, message: String, span: Option<Span>) -> (result: Value)
        requires
            old(self).next_value < u32::MAX,
        ensures
            final(self).lowering_errors@ == old(self).lowering_errors@.push(BengalError::LoweringError { message, span }),
            result == Value(old(self).next_value),
            emitted_one(*final(self), *old(self), Instruction::Literal { result, value: 0, ty: BirType::Unit }, TypeV::Unit),
            final(self).current_type_params == old(self).current_type_params,
            final(self).name_map == old(self).name_map,
    {
        self.lowering_errors.push(BengalError::LoweringError { message, span });
        let dummy = self.fresh_value();
        self.emit(Instruction::Literal { result: dummy, value: 0, ty: BirType::Unit });
        self.record_type(dummy, BirType::Unit);
        assert(self.value_types@.drop_last() =~= old(self).value_types@);
        dummy
    }

    /// Moves the recorded errors, in order, into `diag`, and fails when `diag` then holds any.
    pub fn collect_lowering_errors(&mut self, diag: &mut DiagCtxt) -> (r: Result<(), BengalError>)
        ensures
            final(diag)@.0 == emit_all(old(diag)@.0, old(self).lowering_errors@, old(diag)@.1),
            final(diag)@.1 == old(diag)@.1,
            final(self).lowering_errors@.len() == 0,
            match r {
                Ok(()) => final(diag)@.0.len() == 0,
                Err(e) => final(diag)@.0.len() > 0
                    && (e matches BengalError::LoweringError { message, span }
                    && message@ == "lowering failed"@ && span is None),
            },
            same_names(*final(self), *old(self)),
            same_code(*final(self), *old(self)),
            same_counters(*final(self), *old(self)),
            final(self).current_type_params == old(self).current_type_params,
            final(self).name_map == old(self).name_map,
    {
        let mut errs: Vec<BengalError> = Vec::new();
        std::mem::swap(&mut errs, &mut self.lowering_errors);
        let ghost all = errs@;
        assert(all.len() == errs.len());
        let ghost d0 = diag@.0;
        let ghost limit = diag@.1;
        let mut k: usize = 0;
        assert(all.take(0) =~= Seq::<BengalError>::empty());
        while errs.len() > 0
            invariant
                all.len() <= usize::MAX,
                k + errs@.len() == all.len(),
                errs@ == all.skip(k as int),
                diag@.1 == limit,
                diag@.0 == emit_all(d0, all.take(k as int), limit),
            decreases errs@.len(),
        {
            let e = errs.remove(0);
            proof {
                assert(all.take(k + 1).drop_last() =~= all.take(k as int));
                assert(all[k as int] == e);
            }
            let _ = diag.emit(e);
            k = k + 1;
            assert(errs@ =~= all.skip(k as int));
        }
        assert(all.take(k as int) =~= all);
        if diag.has_errors() {
            return Err(BengalError::LoweringError { message: "lowering failed".to_string(), span: None });
        }
        Ok(())
    }

    /// Whether `name` is a `var` variable.
    fn is_mutable_var(&self, name: &String) -> (r: bool)
        ensures
            r == exists|k: int| 0 <= k < self.mutable_vars@.len() && #[trigger] self.mutable_vars@[k].0@ == name@,
    {
        let mut k: usize = 0;
        while k < self.mutable_vars.len()
            invariant
                k <= self.mutable_vars@.len(),
                forall|m: int| 0 <= m < k ==> self.mutable_vars@[m].0@ != name@,
            decreases self.mutable_vars@.len() - k,
        {
            if self.mutable_vars[k].0.eq(name) {
                return true;
            }
            k = k + 1;
        }
        false
    }

    /// Lowers `var name = ..` once the value is lowered to `value`: binds the name, and
    /// registers it as a `var` variable with the value's type unless it already is one.
    pub fn declare_var(&mut self, name: String, value: Value)
        requires
            declare_var_pre(*old(self), name, value),
        ensures
            declare_var_post(*old(self), *final(self), name, value),
    {
        let key = name.clone();
        self.define_var(name, value);
        let ty = self.type_or_i32_of(value);
        if self.is_mutable_var(&key) {
            return;
        }
        let ghost mv0 = self.mutable_vars@;
        self.mutable_vars.push((key, ty));
        assert(self.mutable_vars@.drop_last() =~= mv0);
    }

    /// After a statement of a block is lowered to `sr`: moves the regions it built onto
    /// `regions`, and tells whether it ends the block (anything but a fall-through does).
    pub fn block_step(&mut self, sr: StmtResult, regions: &mut Vec<CfgRegion>) -> (stop: bool)
        ensures
            final(regions)@ == old(regions)@ + old(self).pending_regions@,
            final(self).pending_regions@.len() == 0,
            stop == !(sr is Normal),
            final(self).blocks == old(self).blocks,
            final(self).current_instructions == old(self).current_instructions,
            final(self).current_block_label == old(self).current_block_label,
            final(self).current_block_params == old(self).current_block_params,
            same_names(*final(self), *old(self)),
            same_counters(*final(self), *old(self)),
            same_context(*final(self), *old(self)),
    {
        let mut taken = self.take_pending_regions();
        regions.append(&mut taken);
        match sr {
            StmtResult::Normal => false,
            _ => true,
        }
    }

    /// Finishes lowering a block expression once its statements are lowered and ended as
    /// `result`, which yields its value: closes its scope and keeps the regions it built.
    pub fn block_expr_leave(&mut self, result: StmtResult, inner_regions: Vec<CfgRegion>) -> (v: Value)
        requires
            block_expr_leave_pre(*old(self), result, inner_regions),
        ensures
            block_expr_leave_post(*old(self), *final(self), result, inner_regions, v),
    {
        self.pop_scope();
        let mut inner = inner_regions;
        self.pending_regions.append(&mut inner);
        match result {
            StmtResult::Yield(v) => v,
            _ => Value(0),
        }
    }

    /// How an expression statement ended: by leaving when the `if`/`else` it was lowered to
    /// had all branches leave, else by falling through.
    pub fn expr_stmt_result(&self) -> (r: StmtResult)
        ensures
            if self.last_expr_diverged { r is ReturnVoid } else { r is Normal },
    {
        if self.last_expr_diverged { StmtResult::ReturnVoid } else { StmtResult::Normal }
    }

    /// Lowers an array literal once its elements are lowered to `elements`: an array of the
    /// first element's type (`I32` when there is none) and of their number.
    pub fn lower_array_init(&mut self, elements: Vec<Value>) -> (result: Value)
        requires
            lower_array_init_pre(*old(self), elements),
        ensures
            lower_array_init_post(*old(self), *final(self), elements, result),
    {
        let ghost et = if elements@.len() > 0 { type_or_i32(self.value_types@, elements@[0]) } else { TypeV::I32 };
        let elem_ty = if elements.len() > 0 { self.type_or_i32_of(elements[0]) } else { BirType::I32 };
        assert(elem_ty@ == et);
        let n: u64 = elements.len() as u64;
        let arr_ty = BirType::Array { element: Box::new(elem_ty), size: n };
        assert(arr_ty@ == (TypeV::Array { element: Box::new(et), size: elements@.len() as u64 }));
        let result = self.fresh_value();
        let ghost es = elements;
        self.emit(Instruction::ArrayInit { result, ty: arr_ty.copy(), elements });
        self.record_type(result, arr_ty);
        assert(self.value_types@.drop_last() =~= old(self).value_types@);
        assert(self.current_instructions@.drop_last() =~= old(self).current_instructions@);
        assert(self.current_instructions@.last() matches Instruction::ArrayInit { result: r, ty, elements: e }
            && r == result && e == es);
        result
    }

    /// Lowers `array[index]` once both are lowered: an element read of the array's element
    /// type, which is the result's type.
    pub fn lower_index_get(&mut self, array: Value, index: Value) -> (result: Value)
        requires
            lower_index_get_pre(*old(self), array, index),
        ensures
            lower_index_get_post(*old(self), *final(self), array, index, result),
    {
        let arr_ty = self.type_or_i32_of(array);
        match arr_ty {
            BirType::Array { element, size } => {
                let elem_ty = *element;
                let result = self.fresh_value();
                self.emit(Instruction::ArrayGet { result, ty: elem_ty.copy(), array, index, array_size: size });
                self.record_type(result, elem_ty);
                assert(self.value_types@.drop_last() =~= old(self).value_types@);
                assert(self.current_instructions@.drop_last() =~= old(self).current_instructions@);
                result
            },
            _ => Value(0),
        }
    }

    /// Lowers `name[index] = value` once the index and value are lowered: an element write
    /// into the array that `name` holds, whose result, an array of the same type, `name` is
    /// rebound to.
    pub fn lower_index_set(&mut self, name: &String, index: Value, value: Value) -> (result: Value)
        requires
            lower_index_set_pre(*old(self), name, index, value),
        ensures
            lower_index_set_post(*old(self), *final(self), name, index, value, result),
    {
        let arr_val = self.try_lookup_var(name).unwrap();
        let arr_ty = self.type_or_i32_of(arr_val);
        let size = match &arr_ty {
            BirType::Array { size, .. } => *size,
            _ => 0,
        };
        let result = self.fresh_value();
        self.emit(Instruction::ArraySet { result, ty: arr_ty.copy(), array: arr_val, index, value, array_size: size });
        self.record_type(result, arr_ty);
        assert(self.current_instructions@.drop_last() =~= old(self).current_instructions@);
        assert(self.value_types@ =~= old(self).value_types@.push(self.value_types@.last()));
        let ghost before = self.scopes@;
        proof { lemma_scope_of_bounds(self.scopes@, name@); }
        self.assign_var(name, result);
        proof {
            assert forall|n: Seq<char>| true implies #[trigger] lookup(self.scopes@, n)
                == if name@ == n { Some(result) } else { lookup(before, n) } by {
                lemma_assign_lookup(before, self.scopes@, (*name, result), n);
            }
        }
        result
    }

    /// Lowers a call of `name` once its arguments are lowered to `args` and its type
    /// arguments converted to `type_args`: a call of the function under its emitted name, typed
    /// with its return type (`I32` when unknown); the result is recorded with that type once
    /// the function's type parameters are replaced by the type arguments.
    pub fn lower_call_emit(&mut self, name: &String, args: Vec<Value>, type_args: Vec<BirType>) -> (result: Value)
        requires
            lower_call_emit_pre(*old(self), name, args, type_args),
        ensures
            lower_call_emit_post(*old(self), *final(self), name, args, type_args, result),
    {
        let resolved = self.resolve_name(name);
        let ty = match find_entry(&self.func_sigs, &resolved) {
            Some(k) => self.func_sigs[k].1.copy(),
            None => BirType::I32,
        };
        let subst = match find_entry(&self.func_type_param_names, &resolved) {
            Some(k) => zip_params(&self.func_type_param_names[k].1, &type_args),
            None => Vec::new(),
        };
        assert(subst_view(subst@).len() == subst@.len());
        let resolved_ty = if type_args.len() == 0 || subst.len() == 0 { ty.copy() } else { resolve_bir_type_lenient(&ty, &subst) };
        let result = self.fresh_value();
        let ghost a0 = args;
        let ghost t0 = type_args;
        self.emit(Instruction::Call { result, func_name: resolved, args, type_args, ty });
        self.record_type(result, resolved_ty);
        assert(self.value_types@.drop_last() =~= old(self).value_types@);
        assert(self.current_instructions@.drop_last() =~= old(self).current_instructions@);
        assert(self.current_instructions@.last() matches Instruction::Call { result: r, args: a, type_args: ta, .. }
            && r == result && a == a0 && ta == t0);
        result
    }

    /// Closes the innermost scope, if there is one.
    pub fn pop_scope(&mut self)
        ensures
            same_context(*final(self), *old(self)),
            final(self).scopes@ == if old(self).scopes@.len() == 0 {
                old(self).scopes@
            } else {
                old(self).scopes@.drop_last()
            },
            final(self).mutable_vars == old(self).mutable_vars,
            final(self).loop_stack == old(self).loop_stack,
            final(self).value_types == old(self).value_types,
            same_code(*final(self), *old(self)),
            same_counters(*final(self), *old(self)),
    {
        let _ = self.scopes.pop();
    }
}

} // verus!
