//! The walk that lowers expressions, statements and function bodies to BIR, step by step
//! through the lowering state.
//!
//! `expr_run(s, e, t, v)` says that lowering `e` in state `s` leaves state `t` and value `v`:
//! it is the composition, in the order the walk takes them, of the steps of
//! `lower_state`, each given by its `_post` relation. `expr_ok(s, e)` says that every step
//! the walk takes finds what it needs: counters below their limit, names bound, a `break`
//! inside a loop, a block expression that yields. Struct literals, field and method access,
//! `self` and field assignment are not lowered here: `expr_ok` does not hold of them.
use vstd::prelude::*;

use super::instruction::{views, BirFunction, BirType, CfgRegion, Value};
use super::lower_state::{
    IfHead, LoopCond, LoopHead, function_enter_pre, function_enter_post, finish_function_post, Lowering, OpenBlock, ShortCircuit, StmtResult, assign_var_post, assign_var_pre, bir_of, bir_of_all, block_expr_leave_post, break_jump_post, continue_jump_post, declare_var_post, declare_var_pre, define_var_post, if_else_enter_post, if_else_enter_pre, if_else_leave_post, if_else_switch_post, if_only_enter_post, if_only_enter_pre, if_only_leave_post, is_arith, is_comparison, lookup, lower_arith_post, lower_arith_pre, lower_array_init_post, lower_bool_post, lower_bool_pre, lower_call_emit_post, lower_cast_to_post, lower_compare_post, lower_compare_pre, lower_float_bits_post, lower_float_bits_pre, lower_index_get_post, lower_index_get_pre, lower_index_set_post, lower_index_set_pre, lower_not_post, lower_not_pre, lower_number_post, lower_number_pre, names_of, nobreak_enter_post, nobreak_leave_post, passes_vars, push_scope_post, record_type_post, same_code, same_context, same_names, sealed, short_circuit_and_enter_post, short_circuit_and_enter_pre, short_circuit_and_leave_post, short_circuit_and_leave_pre, short_circuit_or_enter_post, short_circuit_or_enter_pre, short_circuit_or_leave_post, short_circuit_or_leave_pre, take_pending_regions_post, vars_bound, while_body_end_post, while_body_end_pre, while_cond_post, while_cond_pre, while_enter_post, while_enter_pre, while_exit_post,
};
use crate::ast::{annotation_views, BinOp, Block, Expr, ExprKind, Function, Stmt, TypeAnnotation, UnaryOp};

verus! {

/// Marks the intermediate states and values of a step of the walk, for the quantifiers
/// that range over them.
pub open spec fn trace<A>(a: A) -> bool {
    true
}

/// A block's statements that all fell through count as a fall-through.
pub open spec fn opt_result(r: Option<StmtResult>) -> StmtResult {
    match r {
        Some(x) => x,
        None => StmtResult::Normal,
    }
}

/// The inferred type arguments recorded for call `id`: the last entry for it, else none.
pub open spec fn inferred_of(m: Seq<(u32, Vec<TypeAnnotation>)>, id: u32) -> Seq<TypeAnnotation>
    decreases m.len(),
{
    if m.len() == 0 {
        Seq::empty()
    } else if m.last().0 == id {
        m.last().1@
    } else {
        inferred_of(m.drop_last(), id)
    }
}

/// The type arguments of a call: those written, else those inferred for it.
pub open spec fn effective_call_args(s: Lowering, id: u32, written: Seq<TypeAnnotation>) -> Seq<TypeAnnotation> {
    if written.len() > 0 {
        written
    } else {
        inferred_of(s.inferred_type_args@, id)
    }
}

/// `ta` holds the BIR types of the written types `ts` in the function being lowered in `s`.
pub open spec fn converted(s: Lowering, ts: Seq<TypeAnnotation>, ta: Vec<BirType>) -> bool {
    views(ta@) == bir_of_all(annotation_views(ts), names_of(s.current_type_params@))
}

/// The arithmetic and comparison operators: lowered as one instruction on two operands.
pub open spec fn is_plain_binop(op: BinOp) -> bool {
    is_arith(op) || is_comparison(op)
}

/// The instruction step of a plain binary operator.
pub open spec fn binop_pre(s: Lowering, op: BinOp, l: Value, r: Value) -> bool {
    if is_arith(op) { lower_arith_pre(s, op, l, r) } else { lower_compare_pre(s, op, l, r) }
}

/// What the instruction step of a plain binary operator does.
pub open spec fn binop_post(s: Lowering, t: Lowering, op: BinOp, l: Value, r: Value, v: Value) -> bool {
    if is_arith(op) { lower_arith_post(s, t, op, l, r, v) } else { lower_compare_post(s, t, op, l, r, v) }
}

/// The step that clears the divergence flag before an expression statement.
pub open spec fn clear_diverged_post(s: Lowering, t: Lowering) -> bool {
    &&& !t.last_expr_diverged
    &&& t.next_value == s.next_value
    &&& t.next_block == s.next_block
    &&& same_names(t, s)
    &&& same_code(t, s)
    &&& same_context(t, s)
}

// ---------------------------------------------------------------- expressions

/// Every step of lowering `e` in state `s` finds what it needs.
pub open spec fn expr_ok(s: Lowering, e: Expr) -> bool
    decreases e,
{
    match e.kind {
        ExprKind::Number(n) => lower_number_pre(s, n),
        ExprKind::Float(f) => lower_float_bits_pre(s, f),
        ExprKind::Bool(b) => lower_bool_pre(s, b),
        ExprKind::Ident(n) => lookup(s.scopes@, n@) is Some,
        ExprKind::UnaryOp { op, operand } => {
            &&& expr_ok(s, *operand)
            &&& forall|s1: Lowering, v1: Value| #![trigger trace((s1, v1))] expr_run(s, *operand, s1, v1) ==> lower_not_pre(s1, v1)
        },
        ExprKind::BinaryOp { op, left, right } => {
            &&& expr_ok(s, *left)
            &&& forall|s1: Lowering, v1: Value| #![trigger trace((s1, v1))] expr_run(s, *left, s1, v1) ==> {
                if is_plain_binop(op) {
                    &&& expr_ok(s1, *right)
                    &&& forall|s2: Lowering, v2: Value| #![trigger trace((s2, v2))] expr_run(s1, *right, s2, v2) ==> binop_pre(s2, op, v1, v2)
                } else if op is And {
                    &&& short_circuit_and_enter_pre(s1, v1)
                    &&& forall|s2: Lowering, sc: ShortCircuit| #![trigger trace((s2, sc))] short_circuit_and_enter_post(s1, s2, v1, sc) ==> {
                        &&& expr_ok(s2, *right)
                        &&& forall|s3: Lowering, v3: Value| #![trigger trace((s3, v3))] expr_run(s2, *right, s3, v3)
                            ==> short_circuit_and_leave_pre(s3, sc, v3)
                    }
                } else {
                    &&& short_circuit_or_enter_pre(s1, v1)
                    &&& forall|s2: Lowering, sc: ShortCircuit| #![trigger trace((s2, sc))] short_circuit_or_enter_post(s1, s2, v1, sc) ==> {
                        &&& expr_ok(s2, *right)
                        &&& forall|s3: Lowering, v3: Value| #![trigger trace((s3, v3))] expr_run(s2, *right, s3, v3)
                            ==> short_circuit_or_leave_pre(s3, sc, v3)
                    }
                }
            }
        },
        ExprKind::Call { name, type_args, args } => {
            &&& !s.struct_init_calls@.contains(e.id)
            &&& exprs_ok(s, args@)
            &&& forall|s1: Lowering, vs: Seq<Value>| #![trigger trace((s1, vs))] exprs_run(s, args@, s1, vs) ==> s1.next_value < u32::MAX
        },
        ExprKind::Block(b) => forall|s1: Lowering| #![trigger trace(s1)] push_scope_post(s, s1) ==> {
            &&& stmts_ok(s1, b.stmts@)
            &&& forall|s2: Lowering, r: Option<StmtResult>, g: Seq<CfgRegion>| #![trigger trace((s2, r, g))] stmts_run(s1, b.stmts@, s2, r, g)
                ==> r matches Some(StmtResult::Yield(_))
        },
        ExprKind::If { condition, then_block, else_block } => {
            &&& expr_ok(s, *condition)
            &&& forall|s1: Lowering, c: Value| #![trigger trace((s1, c))] expr_run(s, *condition, s1, c) ==> match else_block {
                Some(eb) => {
                    &&& if_else_enter_pre(s1, c)
                    &&& forall|s2: Lowering, h: IfHead| #![trigger trace((s2, h))] if_else_enter_post(s1, s2, c, h) ==> {
                        &&& stmts_ok(s2, then_block.stmts@)
                        &&& forall|s3: Lowering, tr: Option<StmtResult>, tg: Seq<CfgRegion>| #![trigger trace((s3, tr, tg))]
                            stmts_run(s2, then_block.stmts@, s3, tr, tg) ==> forall|s4: Lowering, te: OpenBlock| #![trigger trace((s4, te))]
                            if_else_switch_post(s3, s4, &h, te) ==> {
                                &&& stmts_ok(s4, eb.stmts@)
                                &&& forall|s5: Lowering, er: Option<StmtResult>, eg: Seq<CfgRegion>| #![trigger trace((s5, er, eg))]
                                    stmts_run(s4, eb.stmts@, s5, er, eg) ==> s5.next_value < u32::MAX
                            }
                    }
                },
                None => {
                    &&& if_only_enter_pre(s1, c)
                    &&& forall|s2: Lowering, h: IfHead| #![trigger trace((s2, h))] if_only_enter_post(s1, s2, c, h) ==> {
                        &&& stmts_ok(s2, then_block.stmts@)
                        &&& forall|s3: Lowering, tr: Option<StmtResult>, tg: Seq<CfgRegion>| #![trigger trace((s3, tr, tg))]
                            stmts_run(s2, then_block.stmts@, s3, tr, tg) ==> s3.next_value < u32::MAX
                    }
                },
            }
        },
        ExprKind::While { condition, body, nobreak } => {
            &&& while_enter_pre(s)
            &&& forall|s1: Lowering, h: LoopHead| #![trigger trace((s1, h))] while_enter_post(s, s1, h) ==> {
                &&& expr_ok(s1, *condition)
                &&& forall|s2: Lowering, c: Value| #![trigger trace((s2, c))] expr_run(s1, *condition, s2, c) ==> {
                    &&& while_cond_pre(s2, &h, c, nobreak is Some)
                    &&& forall|s3: Lowering, lc: LoopCond| #![trigger trace((s3, lc))] while_cond_post(s2, s3, &h, c, nobreak is Some, lc) ==> {
                        &&& stmts_ok(s3, body.stmts@)
                        &&& forall|s4: Lowering, br: Option<StmtResult>, bg: Vec<CfgRegion>| #![trigger trace((s4, br, bg))]
                            stmts_run(s3, body.stmts@, s4, br, bg@) ==> {
                            &&& while_body_end_pre(s4, &h, opt_result(br), bg)
                            &&& forall|s5: Lowering, out: (Vec<CfgRegion>, Option<BirType>)| #![trigger trace((s5, out))]
                                while_body_end_post(s4, s5, &h, opt_result(br), bg, out) ==> match nobreak {
                                Some(nb) => forall|s6: Lowering| #![trigger trace(s6)] nobreak_enter_post(s5, s6, lc.bb_nobreak) ==> {
                                    &&& stmts_ok(s6, nb.stmts@)
                                    &&& forall|s7: Lowering, nr: Option<StmtResult>, ng: Seq<CfgRegion>| #![trigger trace((s7, nr, ng))]
                                        stmts_run(s6, nb.stmts@, s7, nr, ng) ==> s7.next_value < u32::MAX
                                },
                                None => s5.next_value < u32::MAX,
                            }
                        }
                    }
                }
            }
        },
        ExprKind::Cast { expr, target_type } => {
            &&& expr_ok(s, *expr)
            &&& forall|s1: Lowering, v1: Value| #![trigger trace((s1, v1))] expr_run(s, *expr, s1, v1) ==> s1.next_value < u32::MAX
        },
        ExprKind::ArrayLiteral { elements } => {
            &&& exprs_ok(s, elements@)
            &&& forall|s1: Lowering, vs: Seq<Value>| #![trigger trace((s1, vs))] exprs_run(s, elements@, s1, vs) ==> s1.next_value < u32::MAX
        },
        ExprKind::IndexAccess { object, index } => {
            &&& expr_ok(s, *object)
            &&& forall|s1: Lowering, a: Value| #![trigger trace((s1, a))] expr_run(s, *object, s1, a) ==> {
                &&& expr_ok(s1, *index)
                &&& forall|s2: Lowering, i: Value| #![trigger trace((s2, i))] expr_run(s1, *index, s2, i) ==> lower_index_get_pre(s2, a, i)
            }
        },
        _ => false,
    }
}

/// Lowering `e` in state `s` leaves state `t` and gives value `v`.
pub open spec fn expr_run(s: Lowering, e: Expr, t: Lowering, v: Value) -> bool
    decreases e,
{
    match e.kind {
        ExprKind::Number(n) => lower_number_post(s, t, n, v),
        ExprKind::Float(f) => lower_float_bits_post(s, t, f, v),
        ExprKind::Bool(b) => lower_bool_post(s, t, b, v),
        ExprKind::Ident(n) => t == s && Some(v) == lookup(s.scopes@, n@),
        ExprKind::UnaryOp { op, operand } => exists|s1: Lowering, v1: Value| #![trigger trace((s1, v1))]
            expr_run(s, *operand, s1, v1) && lower_not_post(s1, t, v1, v),
        ExprKind::BinaryOp { op, left, right } => if is_plain_binop(op) {
            exists|s1: Lowering, v1: Value, s2: Lowering, v2: Value| #![trigger trace((s1, v1, s2, v2))]
                expr_run(s, *left, s1, v1) && expr_run(s1, *right, s2, v2) && binop_post(s2, t, op, v1, v2, v)
        } else if op is And {
            exists|s1: Lowering, v1: Value, s2: Lowering, sc: ShortCircuit, s3: Lowering, v3: Value, s4: Lowering| #![trigger trace((s1, v1, s2, sc, s3, v3, s4))]
                expr_run(s, *left, s1, v1) && short_circuit_and_enter_post(s1, s2, v1, sc) && expr_run(s2, *right, s3, v3)
                && short_circuit_and_leave_post(s3, s4, sc, v3, v) && record_type_post(s4, t, v, BirType::Bool)
        } else {
            exists|s1: Lowering, v1: Value, s2: Lowering, sc: ShortCircuit, s3: Lowering, v3: Value, s4: Lowering| #![trigger trace((s1, v1, s2, sc, s3, v3, s4))]
                expr_run(s, *left, s1, v1) && short_circuit_or_enter_post(s1, s2, v1, sc) && expr_run(s2, *right, s3, v3)
                && short_circuit_or_leave_post(s3, s4, sc, v3, v) && record_type_post(s4, t, v, BirType::Bool)
        },
        ExprKind::Call { name, type_args, args } => exists|s1: Lowering, av: Vec<Value>, ta: Vec<BirType>| #![trigger trace((s1, av, ta))]
            converted(s, effective_call_args(s, e.id, type_args@), ta) && exprs_run(s, args@, s1, av@)
                && lower_call_emit_post(s1, t, &name, av, ta, v),
        ExprKind::Block(b) => exists|s1: Lowering, s2: Lowering, r: StmtResult, g: Vec<CfgRegion>| #![trigger trace((s1, s2, r, g))]
            push_scope_post(s, s1) && stmts_run(s1, b.stmts@, s2, Some(r), g@) && block_expr_leave_post(s2, t, r, g, v),
        ExprKind::If { condition, then_block, else_block } => match else_block {
            Some(eb) => exists|s1: Lowering, c: Value, s2: Lowering, h: IfHead, s3: Lowering, tr: Option<StmtResult>,
                tg: Vec<CfgRegion>, s4: Lowering, te: OpenBlock, s5: Lowering, er: Option<StmtResult>, eg: Vec<CfgRegion>| #![trigger trace((s1, c, s2, h, s3, tr, tg, s4, te, s5, er, eg))]
                expr_run(s, *condition, s1, c) && if_else_enter_post(s1, s2, c, h) && stmts_run(s2, then_block.stmts@, s3, tr, tg@)
                    && if_else_switch_post(s3, s4, &h, te) && stmts_run(s4, eb.stmts@, s5, er, eg@)
                    && if_else_leave_post(s5, t, h, te, opt_result(tr), tg, opt_result(er), eg, v),
            None => exists|s1: Lowering, c: Value, s2: Lowering, h: IfHead, s3: Lowering, tr: Option<StmtResult>, tg: Vec<CfgRegion>| #![trigger trace((s1, c, s2, h, s3, tr, tg))]
                expr_run(s, *condition, s1, c) && if_only_enter_post(s1, s2, c, h) && stmts_run(s2, then_block.stmts@, s3, tr, tg@)
                    && if_only_leave_post(s3, t, h, opt_result(tr), tg, v),
        },
        ExprKind::While { condition, body, nobreak } => exists|s1: Lowering, h: LoopHead, s2: Lowering, c: Value,
            s3: Lowering, lc: LoopCond, s4: Lowering, br: Option<StmtResult>, bg: Vec<CfgRegion>, s5: Lowering,
            out: (Vec<CfgRegion>, Option<BirType>), s6: Lowering, nreg: Vec<CfgRegion>| #![trigger trace((s1, h, s2, c, s3, lc, s4, br, bg, s5, out, s6, nreg))]
            while_enter_post(s, s1, h) && expr_run(s1, *condition, s2, c) && while_cond_post(s2, s3, &h, c, nobreak is Some, lc)
                && stmts_run(s3, body.stmts@, s4, br, bg@) && while_body_end_post(s4, s5, &h, opt_result(br), bg, out)
                && nobreak_run(s5, nobreak, lc.bb_nobreak, h.bb_exit, out.1, s6, nreg)
                && while_exit_post(s6, t, h, lc, out.0, nreg, out.1, v),
        ExprKind::Cast { expr, target_type } => exists|s1: Lowering, v1: Value, tt: BirType| #![trigger trace((s1, v1, tt))]
            expr_run(s, *expr, s1, v1) && tt@ == bir_of(target_type@, names_of(s1.current_type_params@))
                && lower_cast_to_post(s1, t, v1, tt, v),
        ExprKind::ArrayLiteral { elements } => exists|s1: Lowering, av: Vec<Value>| #![trigger trace((s1, av))]
            exprs_run(s, elements@, s1, av@) && lower_array_init_post(s1, t, av, v),
        ExprKind::IndexAccess { object, index } => exists|s1: Lowering, a: Value, s2: Lowering, i: Value| #![trigger trace((s1, a, s2, i))]
            expr_run(s, *object, s1, a) && expr_run(s1, *index, s2, i) && lower_index_get_post(s2, t, a, i, v),
        _ => false,
    }
}

/// The `nobreak` part of a `while`: with a `nobreak` block, its block entered, its statements
/// lowered and its exit sealed, giving region `nreg`; without one, nothing and no region.
pub open spec fn nobreak_run(
    s: Lowering,
    nobreak: Option<Block>,
    bb_nobreak: u32,
    bb_exit: u32,
    break_ty: Option<BirType>,
    t: Lowering,
    nreg: Vec<CfgRegion>,
) -> bool
    decreases nobreak,
{
    match nobreak {
        Some(nb) => exists|s1: Lowering, s2: Lowering, nr: Option<StmtResult>, ng: Vec<CfgRegion>| #![trigger trace((s1, s2, nr, ng))]
            nobreak_enter_post(s, s1, bb_nobreak) && stmts_run(s1, nb.stmts@, s2, nr, ng@)
                && nobreak_leave_post(s2, t, opt_result(nr), ng, bb_nobreak, bb_exit, &break_ty, nreg),
        None => t == s && nreg@.len() == 0,
    }
}

/// Every step of lowering the expressions `es` in order, from state `s`, finds what it needs.
pub open spec fn exprs_ok(s: Lowering, es: Seq<Expr>) -> bool
    decreases es,
{
    if es.len() == 0 {
        true
    } else {
        &&& exprs_ok(s, es.drop_last())
        &&& forall|s1: Lowering, vs: Seq<Value>| #![trigger trace((s1, vs))] exprs_run(s, es.drop_last(), s1, vs) ==> expr_ok(s1, es.last())
    }
}

/// Lowering the expressions `es` in order from state `s` leaves state `t` and gives their values `vs`.
pub open spec fn exprs_run(s: Lowering, es: Seq<Expr>, t: Lowering, vs: Seq<Value>) -> bool
    decreases es,
{
    if es.len() == 0 {
        t == s && vs.len() == 0
    } else {
        exists|s1: Lowering, vs1: Seq<Value>| #![trigger trace((s1, vs1))] exprs_run(s, es.drop_last(), s1, vs1)
            && vs.len() == es.len() && vs.drop_last() == vs1 && expr_run(s1, es.last(), t, vs.last())
    }
}

// ---------------------------------------------------------------- statements

/// Every step of lowering the statements `ss` of a block from state `s` finds what it needs.
pub open spec fn stmts_ok(s: Lowering, ss: Seq<Stmt>) -> bool
    decreases ss,
{
    if ss.len() == 0 {
        true
    } else {
        &&& stmts_ok(s, ss.drop_last())
        &&& forall|s1: Lowering, r: Option<StmtResult>, g: Seq<CfgRegion>| #![trigger trace((s1, r, g))]
            stmts_run(s, ss.drop_last(), s1, r, g) && r is None ==> stmt_ok(s1, ss.last())
    }
}

/// Lowering the statements `ss` of a block from state `s` leaves state `t`; `r` is how the
/// first statement that does not fall through ended (none when all fall through), and `g`
/// the regions the lowered statements built. Statements after that one are not lowered.
pub open spec fn stmts_run(s: Lowering, ss: Seq<Stmt>, t: Lowering, r: Option<StmtResult>, g: Seq<CfgRegion>) -> bool
    decreases ss,
{
    if ss.len() == 0 {
        t == s && r is None && g.len() == 0
    } else {
        exists|s1: Lowering, r1: Option<StmtResult>, g1: Seq<CfgRegion>| #![trigger trace((s1, r1, g1))] stmts_run(s, ss.drop_last(), s1, r1, g1) && {
            if r1 is Some {
                t == s1 && r == r1 && g == g1
            } else {
                exists|s2: Lowering, sr: StmtResult, rv: Vec<CfgRegion>| #![trigger trace((s2, sr, rv))]
                    stmt_run(s1, ss.last(), s2, sr) && take_pending_regions_post(s2, t, rv) && g == g1 + rv@
                        && r == (if sr is Normal { None::<StmtResult> } else { Some(sr) })
            }
        }
    }
}

/// Every step of lowering statement `st` in state `s` finds what it needs.
pub open spec fn stmt_ok(s: Lowering, st: Stmt) -> bool
    decreases st,
{
    match st {
        Stmt::Let { name, ty, value } => expr_ok(s, value),
        Stmt::Var { name, ty, value } => {
            &&& expr_ok(s, value)
            &&& forall|s1: Lowering, v1: Value| #![trigger trace((s1, v1))] expr_run(s, value, s1, v1) ==> declare_var_pre(s1, name, v1)
        },
        Stmt::Assign { name, value } => {
            &&& expr_ok(s, value)
            &&& forall|s1: Lowering, v1: Value| #![trigger trace((s1, v1))] expr_run(s, value, s1, v1) ==> assign_var_pre(s1, &name, v1)
        },
        Stmt::Return(Some(x)) => expr_ok(s, x),
        Stmt::Return(None) => true,
        Stmt::Yield(x) => expr_ok(s, x),
        Stmt::Expr(x) => forall|s1: Lowering| #![trigger trace(s1)] clear_diverged_post(s, s1) ==> expr_ok(s1, x),
        Stmt::Break(Some(x)) => {
            &&& vars_bound(s)
            &&& expr_ok(s, x)
            &&& forall|s1: Lowering, v1: Value| #![trigger trace((s1, v1))] expr_run(s, x, s1, v1) ==> s1.loop_stack@.len() > 0
                && s1.next_block < u32::MAX
        },
        Stmt::Break(None) => vars_bound(s) && s.loop_stack@.len() > 0 && s.next_block < u32::MAX,
        Stmt::Continue => vars_bound(s) && s.loop_stack@.len() > 0 && s.next_block < u32::MAX,
        Stmt::IndexAssign { object, index, value } => match object.kind {
            ExprKind::Ident(name) => {
                &&& expr_ok(s, *index)
                &&& forall|s1: Lowering, i: Value| #![trigger trace((s1, i))] expr_run(s, *index, s1, i) ==> {
                    &&& expr_ok(s1, value)
                    &&& forall|s2: Lowering, v2: Value| #![trigger trace((s2, v2))] expr_run(s1, value, s2, v2) ==> lower_index_set_pre(s2, &name, i, v2)
                }
            },
            _ => false,
        },
        Stmt::FieldAssign { .. } => false,
    }
}

/// The values of the `var` variables that `args` passes, as `collect_mutable_var_values` gives them.
pub open spec fn var_args(s: Lowering, args: Vec<(Value, BirType)>) -> bool {
    passes_vars(args@, s)
}

/// Lowering statement `st` in state `s` leaves state `t` and ends as `r`.
pub open spec fn stmt_run(s: Lowering, st: Stmt, t: Lowering, r: StmtResult) -> bool
    decreases st,
{
    match st {
        Stmt::Let { name, ty, value } => r is Normal && exists|s1: Lowering, v1: Value| #![trigger trace((s1, v1))]
            expr_run(s, value, s1, v1) && define_var_post(s1, t, name, v1),
        Stmt::Var { name, ty, value } => r is Normal && exists|s1: Lowering, v1: Value| #![trigger trace((s1, v1))]
            expr_run(s, value, s1, v1) && declare_var_post(s1, t, name, v1),
        Stmt::Assign { name, value } => r is Normal && exists|s1: Lowering, v1: Value| #![trigger trace((s1, v1))]
            expr_run(s, value, s1, v1) && assign_var_post(s1, t, &name, v1),
        Stmt::Return(Some(x)) => exists|v1: Value| #![trigger trace(v1)] expr_run(s, x, t, v1) && r == StmtResult::Return(v1),
        Stmt::Return(None) => t == s && r is ReturnVoid,
        Stmt::Yield(x) => exists|v1: Value| #![trigger trace(v1)] expr_run(s, x, t, v1) && r == StmtResult::Yield(v1),
        Stmt::Expr(x) => exists|s1: Lowering, v1: Value| #![trigger trace((s1, v1))]
            clear_diverged_post(s, s1) && expr_run(s1, x, t, v1)
                && r == (if t.last_expr_diverged { StmtResult::ReturnVoid } else { StmtResult::Normal }),
        Stmt::Break(Some(x)) => exists|args: Vec<(Value, BirType)>, s1: Lowering, v1: Value| #![trigger trace((args, s1, v1))]
            var_args(s, args) && expr_run(s, x, s1, v1) && break_jump_post(s1, t, args, Some(v1), r),
        Stmt::Break(None) => exists|args: Vec<(Value, BirType)>| #![trigger trace(args)] break_jump_post(s, t, args, None, r) && var_args(s, args),
        Stmt::Continue => exists|args: Vec<(Value, BirType)>| #![trigger trace(args)] continue_jump_post(s, t, args, r) && var_args(s, args),
        Stmt::IndexAssign { object, index, value } => match object.kind {
            ExprKind::Ident(name) => r is Normal && exists|s1: Lowering, i: Value, s2: Lowering, v2: Value, w: Value| #![trigger trace((s1, i, s2, v2, w))]
                expr_run(s, *index, s1, i) && expr_run(s1, value, s2, v2) && lower_index_set_post(s2, t, &name, i, v2, w),
            _ => false,
        },
        Stmt::FieldAssign { .. } => false,
    }
}

// ---------------------------------------------------------------- functions

/// Every step of lowering function `func` from state `s` finds what it needs, and its body
/// ends with a return.
pub open spec fn function_ok(s: Lowering, func: Function) -> bool {
    &&& function_enter_pre(s, &func)
    &&& forall|s1: Lowering, ps: Vec<(Value, BirType)>| #![trigger trace((s1, ps))] function_enter_post(s, s1, &func, ps) ==> {
        &&& stmts_ok(s1, func.body.stmts@)
        &&& forall|s2: Lowering, r: Option<StmtResult>, g: Seq<CfgRegion>| #![trigger trace((s2, r, g))]
            stmts_run(s1, func.body.stmts@, s2, r, g) ==> (r matches Some(StmtResult::Return(_)) || r matches Some(StmtResult::ReturnVoid))
    }
}

/// Lowering function `func` from state `s` leaves state `t` and gives the BIR function `f`:
/// its parameters entered, its body lowered, its last block sealed with the return.
pub open spec fn function_run(s: Lowering, func: Function, t: Lowering, f: BirFunction) -> bool {
    exists|s1: Lowering, ps: Vec<(Value, BirType)>, s2: Lowering, r: StmtResult, g: Vec<CfgRegion>|
        #![trigger trace((s1, ps, s2, r, g))]
        function_enter_post(s, s1, &func, ps) && stmts_run(s1, func.body.stmts@, s2, Some(r), g@)
            && finish_function_post(s2, t, &func, ps, r, g, f)
}

/// The context that lowering a function reads and keeps: the signature tables, the name map,
/// the struct-literal calls, the inferred type arguments and the recorded errors.
pub open spec fn same_tables(a: Lowering, b: Lowering) -> bool {
    &&& a.name_map == b.name_map
    &&& a.lowering_errors == b.lowering_errors
    &&& a.func_sigs == b.func_sigs
    &&& a.func_type_param_names == b.func_type_param_names
    &&& a.struct_init_calls == b.struct_init_calls
    &&& a.inferred_type_args == b.inferred_type_args
}

// ---------------------------------------------------------------- lemmas

/// The expressions of a prefix can be lowered when the whole list can.
pub proof fn lemma_exprs_ok_prefix(s: Lowering, es: Seq<Expr>, k: int)
    requires
        exprs_ok(s, es),
        0 <= k <= es.len(),
    ensures
        exprs_ok(s, es.take(k)),
    decreases es.len() - k,
{
    if k == es.len() {
        assert(es.take(k) =~= es);
    } else {
        lemma_exprs_ok_prefix(s, es, k + 1);
        assert(es.take(k + 1).drop_last() =~= es.take(k));
    }
}

/// The statements of a prefix can be lowered when the whole block can.
pub proof fn lemma_stmts_ok_prefix(s: Lowering, ss: Seq<Stmt>, k: int)
    requires
        stmts_ok(s, ss),
        0 <= k <= ss.len(),
    ensures
        stmts_ok(s, ss.take(k)),
    decreases ss.len() - k,
{
    if k == ss.len() {
        assert(ss.take(k) =~= ss);
    } else {
        lemma_stmts_ok_prefix(s, ss, k + 1);
        assert(ss.take(k + 1).drop_last() =~= ss.take(k));
    }
}

/// Once a statement does not fall through, the statements after it change nothing.
pub proof fn lemma_stmts_stop(s: Lowering, ss: Seq<Stmt>, k: int, t: Lowering, r: StmtResult, g: Seq<CfgRegion>)
    requires
        0 <= k <= ss.len(),
        stmts_run(s, ss.take(k), t, Some(r), g),
    ensures
        stmts_run(s, ss, t, Some(r), g),
    decreases ss.len() - k,
{
    if k == ss.len() {
        assert(ss.take(k) =~= ss);
    } else {
        assert(ss.take(k + 1).drop_last() =~= ss.take(k));
        assert(trace((t, Some(r), g)));
        assert(stmts_run(s, ss.take(k + 1), t, Some(r), g));
        lemma_stmts_stop(s, ss, k + 1, t, r, g);
    }
}

/// A block's statements that all fell through count as a fall-through.
fn opt_result_of(r: Option<StmtResult>) -> (x: StmtResult)
    ensures
        x == opt_result(r),
{
    match r {
        Some(x) => x,
        None => StmtResult::Normal,
    }
}

impl Lowering {
    /// Clears the divergence flag before an expression statement.
    pub fn clear_diverged(&mut self)
        ensures
            clear_diverged_post(*old(self), *final(self)),
    {
        self.last_expr_diverged = false;
    }

    /// The BIR type arguments of a call: those written, else those inferred for it, converted.
    pub fn call_type_args(&self, id: u32, written: &Vec<TypeAnnotation>) -> (ta: Vec<BirType>)
        ensures
            converted(*self, effective_call_args(*self, id, written@), ta),
    {
        if written.len() > 0 {
            return self.convert_types_with_structs(written);
        }
        let mut k: usize = self.inferred_type_args.len();
        assert(self.inferred_type_args@.take(k as int) =~= self.inferred_type_args@);
        while k > 0
            invariant
                k <= self.inferred_type_args@.len(),
                written@.len() == 0,
                inferred_of(self.inferred_type_args@, id) == inferred_of(self.inferred_type_args@.take(k as int), id),
            decreases k,
        {
            assert(self.inferred_type_args@.take(k as int).drop_last() =~= self.inferred_type_args@.take(k - 1));
            if self.inferred_type_args[k - 1].0 == id {
                assert(inferred_of(self.inferred_type_args@.take(k as int), id) == self.inferred_type_args@[k - 1].1@);
                return self.convert_types_with_structs(&self.inferred_type_args[k - 1].1);
            }
            k = k - 1;
        }
        assert(annotation_views(Seq::<TypeAnnotation>::empty()) =~= Seq::empty());
        let r: Vec<BirType> = Vec::new();
        assert(views(r@) =~= Seq::empty());
        r
    }

    /// Lowers the expressions `es` in order, handing back their values.
    pub fn lower_exprs(&mut self, es: &Vec<Expr>) -> (vs: Vec<Value>)
        requires
            exprs_ok(*old(self), es@),
        ensures
            exprs_run(*old(self), es@, *final(self), vs@),
            same_context(*final(self), *old(self)),
        decreases es,
    {
        let ghost s0 = *self;
        let mut vs: Vec<Value> = Vec::new();
        let mut k: usize = 0;
        assert(es@.take(0) =~= Seq::<Expr>::empty());
        while k < es.len()
            invariant
                k <= es@.len(),
                s0 == *old(self),
                same_context(*self, s0),
                exprs_ok(s0, es@),
                exprs_run(s0, es@.take(k as int), *self, vs@),
            decreases es@.len() - k,
        {
            proof {
                lemma_exprs_ok_prefix(s0, es@, k + 1);
                assert(es@.take(k + 1).drop_last() =~= es@.take(k as int));
                assert(es@.take(k + 1).last() == es@[k as int]);
                assert(trace((*self, vs@)));
            }
            assert(decreases_to!(es => es@[k as int]));
            let ghost s1 = *self;
            let ghost vs1 = vs@;
            let v = self.lower_expr(&es[k]);
            vs.push(v);
            proof {
                assert(vs@.drop_last() =~= vs1);
                assert(trace((s1, vs1)));
            }
            k = k + 1;
        }
        assert(es@.take(es@.len() as int) =~= es@);
        vs
    }

    /// Lowers an expression.
    pub fn lower_expr(&mut self, e: &Expr) -> (v: Value)
        requires
            expr_ok(*old(self), *e),
        ensures
            expr_run(*old(self), *e, *final(self), v),
            same_context(*final(self), *old(self)),
        decreases e,
    {
        let ghost s0 = *self;
        match &e.kind {
            ExprKind::Number(n) => self.lower_number(*n),
            ExprKind::Float(f) => self.lower_float_bits(*f),
            ExprKind::Bool(b) => self.lower_bool(*b),
            ExprKind::Ident(name) => {
                let r = self.try_lookup_var(name);
                r.unwrap()
            },
            ExprKind::UnaryOp { op, operand } => {
                let v1 = self.lower_expr(operand);
                assert(trace((*self, v1)));
                self.lower_not(v1)
            },
            ExprKind::BinaryOp { op, left, right } => {
                let lhs = self.lower_expr(left);
                let ghost s1 = *self;
                assert(trace((s1, lhs)));
                match op {
                    BinOp::And => {
                        let sc = self.short_circuit_and_enter(lhs);
                        let ghost scg = sc;
                        let ghost s2 = *self;
                        assert(trace((s2, scg)));
                        let rhs = self.lower_expr(right);
                        let ghost s3 = *self;
                        assert(trace((s3, rhs)));
                        let r = self.short_circuit_and_leave(sc, rhs);
                        let ghost s4 = *self;
                        self.record_type(r, BirType::Bool);
                        assert(trace((s1, lhs, s2, scg, s3, rhs, s4)));
                        r
                    },
                    BinOp::Or => {
                        let sc = self.short_circuit_or_enter(lhs);
                        let ghost scg = sc;
                        let ghost s2 = *self;
                        assert(trace((s2, scg)));
                        let rhs = self.lower_expr(right);
                        let ghost s3 = *self;
                        assert(trace((s3, rhs)));
                        let r = self.short_circuit_or_leave(sc, rhs);
                        let ghost s4 = *self;
                        self.record_type(r, BirType::Bool);
                        assert(trace((s1, lhs, s2, scg, s3, rhs, s4)));
                        r
                    },
                    BinOp::Add | BinOp::Sub | BinOp::Mul | BinOp::Div => {
                        let rhs = self.lower_expr(right);
                        let ghost s2 = *self;
                        assert(trace((s2, rhs)));
                        let r = self.lower_arith(*op, lhs, rhs);
                        assert(trace((s1, lhs, s2, rhs)));
                        r
                    },
                    _ => {
                        let rhs = self.lower_expr(right);
                        let ghost s2 = *self;
                        assert(trace((s2, rhs)));
                        let r = self.lower_compare(*op, lhs, rhs);
                        assert(trace((s1, lhs, s2, rhs)));
                        r
                    },
                }
            },
            ExprKind::Call { name, type_args, args } => {
                let ta = self.call_type_args(e.id, type_args);
                let vals = self.lower_exprs(args);
                let ghost s1 = *self;
                let ghost avg = vals;
                let ghost tag = ta;
                assert(trace((s1, vals@)));
                let r = self.lower_call_emit(name, vals, ta);
                assert(trace((s1, avg, tag)));
                r
            },
            ExprKind::Block(b) => {
                self.push_scope();
                let ghost s1 = *self;
                assert(trace(s1));
                let (res, regs) = self.lower_block_stmts(b);
                let ghost s2 = *self;
                let ghost rg = regs;
                assert(trace((s2, res, regs@)));
                let r = res.unwrap();
                let v = self.block_expr_leave(r, regs);
                assert(trace((s1, s2, r, rg)));
                v
            },
            ExprKind::If { condition, then_block, else_block } => {
                let c = self.lower_expr(condition);
                let ghost s1 = *self;
                assert(trace((s1, c)));
                match else_block {
                    Some(eb) => {
                        let head = self.if_else_enter(c);
                        let ghost h = head;
                        let ghost s2 = *self;
                        assert(trace((s2, h)));
                        let (tr, tg) = self.lower_block_stmts(then_block);
                        let ghost s3 = *self;
                        let ghost tgg = tg;
                        assert(trace((s3, tr, tg@)));
                        let te = self.if_else_switch(&head);
                        let ghost teg = te;
                        let ghost s4 = *self;
                        assert(trace((s4, teg)));
                        let (er, eg) = self.lower_block_stmts(eb);
                        let ghost s5 = *self;
                        let ghost egg = eg;
                        assert(trace((s5, er, eg@)));
                        let v = self.if_else_leave(head, te, opt_result_of(tr), tg, opt_result_of(er), eg);
                        assert(trace((s1, c, s2, h, s3, tr, tgg, s4, teg, s5, er, egg)));
                        v
                    },
                    None => {
                        let head = self.if_only_enter(c);
                        let ghost h = head;
                        let ghost s2 = *self;
                        assert(trace((s2, h)));
                        let (tr, tg) = self.lower_block_stmts(then_block);
                        let ghost s3 = *self;
                        let ghost tgg = tg;
                        assert(trace((s3, tr, tg@)));
                        let v = self.if_only_leave(head, opt_result_of(tr), tg);
                        assert(trace((s1, c, s2, h, s3, tr, tgg)));
                        v
                    },
                }
            },
            ExprKind::While { condition, body, nobreak } => {
                let head = self.while_enter();
                let ghost h = head;
                let ghost s1 = *self;
                assert(trace((s1, h)));
                let c = self.lower_expr(condition);
                let ghost s2 = *self;
                assert(trace((s2, c)));
                let lc = self.while_cond(&head, c, nobreak.is_some());
                let ghost lcg = lc;
                let ghost s3 = *self;
                assert(trace((s3, lcg)));
                let (br, bg) = self.lower_block_stmts(body);
                let ghost s4 = *self;
                let ghost bgg = bg;
                assert(trace((s4, br, bgg)));
                let out = self.while_body_end(&head, opt_result_of(br), bg);
                let ghost outg = out;
                let ghost s5 = *self;
                assert(trace((s5, outg)));
                let (body_region, break_ty) = out;
                let nreg = match nobreak {
                    Some(nb) => {
                        self.nobreak_enter(lc.bb_nobreak);
                        let ghost s6 = *self;
                        assert(trace(s6));
                        let (nr, ng) = self.lower_block_stmts(nb);
                        let ghost s7 = *self;
                        let ghost ngg = ng;
                        assert(trace((s7, nr, ng@)));
                        let r = self.nobreak_leave(opt_result_of(nr), ng, lc.bb_nobreak, head.bb_exit, &break_ty);
                        assert(trace((s6, s7, nr, ngg)));
                        r
                    },
                    None => Vec::new(),
                };
                let ghost s6 = *self;
                let ghost nregg = nreg;
                assert(nobreak_run(s5, *nobreak, lcg.bb_nobreak, h.bb_exit, outg.1, s6, nregg));
                let v = self.while_exit(head, lc, body_region, nreg, break_ty);
                assert(trace((s1, h, s2, c, s3, lcg, s4, br, bgg, s5, outg, s6, nregg)));
                v
            },
            ExprKind::Cast { expr, target_type } => {
                let v1 = self.lower_expr(expr);
                let ghost s1 = *self;
                assert(trace((s1, v1)));
                let tt = self.convert_type_with_structs(target_type);
                let ghost ttg = tt;
                let r = self.lower_cast_to(v1, tt);
                assert(trace((s1, v1, ttg)));
                r
            },
            ExprKind::ArrayLiteral { elements } => {
                let vals = self.lower_exprs(elements);
                let ghost s1 = *self;
                let ghost avg = vals;
                assert(trace((s1, vals@)));
                let r = self.lower_array_init(vals);
                assert(trace((s1, avg)));
                r
            },
            ExprKind::IndexAccess { object, index } => {
                let a = self.lower_expr(object);
                let ghost s1 = *self;
                assert(trace((s1, a)));
                let i = self.lower_expr(index);
                let ghost s2 = *self;
                assert(trace((s2, i)));
                let r = self.lower_index_get(a, i);
                assert(trace((s1, a, s2, i)));
                r
            },
            _ => Value(0),
        }
    }

    /// Lowers the statements of a block in order, up to the first that does not fall
    /// through; hands back how that one ended and the regions the statements built.
    pub fn lower_block_stmts(&mut self, b: &Block) -> (r: (Option<StmtResult>, Vec<CfgRegion>))
        requires
            stmts_ok(*old(self), b.stmts@),
        ensures
            stmts_run(*old(self), b.stmts@, *final(self), r.0, r.1@),
            same_context(*final(self), *old(self)),
        decreases b,
    {
        let ghost s0 = *self;
        let ghost ss = b.stmts@;
        let mut regions: Vec<CfgRegion> = Vec::new();
        let mut k: usize = 0;
        assert(ss.take(0) =~= Seq::<Stmt>::empty());
        assert(regions@ =~= Seq::<CfgRegion>::empty());
        while k < b.stmts.len()
            invariant
                s0 == *old(self),
                same_context(*self, s0),
                ss == b.stmts@,
                k <= ss.len(),
                stmts_ok(s0, ss),
                stmts_run(s0, ss.take(k as int), *self, None, regions@),
            decreases ss.len() - k,
        {
            proof {
                lemma_stmts_ok_prefix(s0, ss, k + 1);
                assert(ss.take(k + 1).drop_last() =~= ss.take(k as int));
                assert(ss.take(k + 1).last() == ss[k as int]);
                assert(trace((*self, None::<StmtResult>, regions@)));
            }
            assert(decreases_to!(b => b.stmts@[k as int]));
            let ghost s1 = *self;
            let ghost g1 = regions@;
            let sr = self.lower_stmt(&b.stmts[k]);
            let ghost s2 = *self;
            let mut taken = self.take_pending_regions();
            let ghost rv = taken;
            regions.append(&mut taken);
            proof {
                assert(trace((s2, sr, rv)));
                assert(regions@ =~= g1 + rv@);
            }
            match sr {
                StmtResult::Normal => {},
                _ => {
                    proof {
                        assert(stmts_run(s0, ss.take(k + 1), *self, Some(sr), regions@));
                        lemma_stmts_stop(s0, ss, k + 1, *self, sr, regions@);
                        assert(stmts_run(s0, b.stmts@, *self, Some(sr), regions@));
                    }
                    return (Some(sr), regions);
                },
            }
            k = k + 1;
        }
        assert(ss.take(ss.len() as int) =~= ss);
        (None, regions)
    }

    /// Lowers a statement and tells how it ended.
    pub fn lower_stmt(&mut self, st: &Stmt) -> (r: StmtResult)
        requires
            stmt_ok(*old(self), *st),
        ensures
            stmt_run(*old(self), *st, *final(self), r),
            same_context(*final(self), *old(self)),
        decreases st,
    {
        let ghost s0 = *self;
        match st {
            Stmt::Let { name, ty, value } => {
                let v = self.lower_expr(value);
                assert(trace((*self, v)));
                self.define_var(name.clone(), v);
                StmtResult::Normal
            },
            Stmt::Var { name, ty, value } => {
                let v = self.lower_expr(value);
                assert(trace((*self, v)));
                self.declare_var(name.clone(), v);
                StmtResult::Normal
            },
            Stmt::Assign { name, value } => {
                let v = self.lower_expr(value);
                assert(trace((*self, v)));
                self.assign_var(name, v);
                StmtResult::Normal
            },
            Stmt::Return(Some(x)) => {
                let v = self.lower_expr(x);
                assert(trace(v));
                StmtResult::Return(v)
            },
            Stmt::Return(None) => StmtResult::ReturnVoid,
            Stmt::Yield(x) => {
                let v = self.lower_expr(x);
                assert(trace(v));
                StmtResult::Yield(v)
            },
            Stmt::Expr(x) => {
                self.clear_diverged();
                let ghost s1 = *self;
                assert(trace(s1));
                let v = self.lower_expr(x);
                assert(trace((s1, v)));
                self.expr_stmt_result()
            },
            Stmt::Break(Some(x)) => {
                let args = self.collect_mutable_var_values();
                let ghost ag = args;
                let v = self.lower_expr(x);
                let ghost s1 = *self;
                assert(trace((s1, v)));
                let r = self.break_jump(args, Some(v));
                assert(trace((ag, s1, v)));
                r
            },
            Stmt::Break(None) => {
                let args = self.collect_mutable_var_values();
                let ghost ag = args;
                let r = self.break_jump(args, None);
                assert(trace(ag));
                r
            },
            Stmt::Continue => {
                let args = self.collect_mutable_var_values();
                let ghost ag = args;
                let r = self.continue_jump(args);
                assert(trace(ag));
                r
            },
            Stmt::IndexAssign { object, index, value } => match &object.kind {
                ExprKind::Ident(name) => {
                    let i = self.lower_expr(index);
                    let ghost s1 = *self;
                    assert(trace((s1, i)));
                    let v = self.lower_expr(value);
                    let ghost s2 = *self;
                    assert(trace((s2, v)));
                    let w = self.lower_index_set(name, i, v);
                    assert(trace((s1, i, s2, v, w)));
                    StmtResult::Normal
                },
                _ => StmtResult::Normal,
            },
            _ => StmtResult::Normal,
        }
    }

    /// Lowers a function: its parameters, its body and its closing return.
    pub fn lower_function(&mut self, func: &Function) -> (f: BirFunction)
        requires
            function_ok(*old(self), *func),
        ensures
            function_run(*old(self), *func, *final(self), f),
            same_tables(*final(self), *old(self)),
    {
        let params = self.function_enter(func);
        let ghost s1 = *self;
        let ghost pg = params;
        assert(trace((s1, pg)));
        let (res, regs) = self.lower_block_stmts(&func.body);
        let ghost s2 = *self;
        let ghost rg = regs;
        assert(trace((s2, res, regs@)));
        let r = res.unwrap();
        let f = self.finish_function(func, params, r, regs);
        assert(trace((s1, pg, s2, r, rg)));
        f
    }
}

} // verus!
