//! Constant folding and dead-literal elimination of BIR.
//!
//! Integer folding is computed here with Rust's wrapping arithmetic. Floating-point
//! operations on constants are computed by the two functions the caller supplies,
//! which take and give the raw bits of the operands (`bool`: whether they are `Float64`).
use vstd::prelude::*;

use super::instruction::{
    BasicBlock, BirBinOp, BirCompareOp, BirFunction, BirModule, BirType, CfgRegion, Instruction, Terminator, Value,
};

verus! {

/// What an integer operation on two constants gives, when it can be folded.
///
/// `Int32` operands are the low 32 bits of the stored values; the result is sign-extended back.
/// Division by zero is not folded.
pub open spec fn int_binop(op: BirBinOp, ty: BirType, lv: i64, rv: i64) -> Option<i64> {
    match ty {
        BirType::I32 => {
            let l = lv as i32;
            let r = rv as i32;
            match op {
                BirBinOp::Add => Some(l.wrapping_add(r) as i64),
                BirBinOp::Sub => Some(l.wrapping_sub(r) as i64),
                BirBinOp::Mul => Some(l.wrapping_mul(r) as i64),
                BirBinOp::Div => if r == 0 {
                    None
                } else {
                    Some(wrapping_div_i32(l, r) as i64)
                },
            }
        },
        BirType::I64 => match op {
            BirBinOp::Add => Some(lv.wrapping_add(rv)),
            BirBinOp::Sub => Some(lv.wrapping_sub(rv)),
            BirBinOp::Mul => Some(lv.wrapping_mul(rv)),
            BirBinOp::Div => if rv == 0 {
                None
            } else {
                Some(wrapping_div_i64(lv, rv))
            },
        },
        _ => None,
    }
}

/// Truncating division that wraps on `MIN / -1`.
pub open spec fn wrapping_div_i32(l: i32, r: i32) -> i32 {
    match l.checked_div(r) {
        Some(q) => q,
        None => l,
    }
}

/// Truncating division that wraps on `MIN / -1`.
pub open spec fn wrapping_div_i64(l: i64, r: i64) -> i64 {
    match l.checked_div(r) {
        Some(q) => q,
        None => l,
    }
}

/// The exact result of `+`, `-` or `*` on two integers.
pub open spec fn exact_arith(op: BirBinOp, a: int, b: int) -> int {
    match op {
        BirBinOp::Add => a + b,
        BirBinOp::Sub => a - b,
        BirBinOp::Mul => a * b,
        BirBinOp::Div => 0,
    }
}

/// `q` is the quotient of `a` by `b` rounded toward zero: `a - q * b` is smaller than `b` in
/// size and is zero or has the sign of `a`.
pub open spec fn is_truncated_quotient(a: int, b: int, q: int) -> bool {
    let m = a - q * b;
    &&& (if b > 0 { -b < m < b } else { b < m < -b })
    &&& (m == 0 || ((m < 0) == (a < 0)))
}

/// Whether `c` is what a BIR arithmetic operator gives on `a` and `b`, computed exactly on
/// integers: the sum, the difference, the product, or the quotient rounded toward zero.
pub open spec fn bir_arith_holds(op: BirBinOp, a: int, b: int, c: int) -> bool {
    match op {
        BirBinOp::Add => c == a + b,
        BirBinOp::Sub => c == a - b,
        BirBinOp::Mul => c == a * b,
        BirBinOp::Div => b != 0 && is_truncated_quotient(a, b, c),
    }
}

/// Folding `+`, `-` or `*` on two integer constants gives the exact result wrapped into the
/// type's range: for `Int32` the operands are the low 32 bits of the constants, and the folded
/// value is an `Int32` that differs from the exact result by a multiple of 2^32; for `Int64`, by
/// a multiple of 2^64.
pub proof fn law_int_fold_wraps(op: BirBinOp, lv: i64, rv: i64)
    requires
        !(op is Div),
    ensures
        int_binop(op, BirType::I32, lv, rv) matches Some(x) && i32::MIN <= x <= i32::MAX
            && (x - exact_arith(op, (lv as i32) as int, (rv as i32) as int)) % 0x1_0000_0000 == 0,
        int_binop(op, BirType::I64, lv, rv) matches Some(x)
            && (x - exact_arith(op, lv as int, rv as int)) % 0x1_0000_0000_0000_0000 == 0,
        forall|ty: BirType| !(ty is I32 || ty is I64) ==> #[trigger] int_binop(op, ty, lv, rv) is None,
{
    let a = lv as i32;
    let b = rv as i32;
    if op is Mul {
        let v = a as int * b as int;
        let w = lv as int * rv as int;
        vstd::arithmetic::div_mod::lemma_fundamental_div_mod(v, 0x1_0000_0000);
        vstd::arithmetic::div_mod::lemma_fundamental_div_mod(w, 0x1_0000_0000_0000_0000);
        vstd::arithmetic::div_mod::lemma_mod_bound(v, 0x1_0000_0000);
        vstd::arithmetic::div_mod::lemma_mod_bound(w, 0x1_0000_0000_0000_0000);
        vstd::arithmetic::div_mod::lemma_mod_multiples_basic(-(v / 0x1_0000_0000), 0x1_0000_0000);
        vstd::arithmetic::div_mod::lemma_mod_multiples_basic(-(v / 0x1_0000_0000) - 1, 0x1_0000_0000);
        vstd::arithmetic::div_mod::lemma_mod_multiples_basic(-(w / 0x1_0000_0000_0000_0000), 0x1_0000_0000_0000_0000);
        vstd::arithmetic::div_mod::lemma_mod_multiples_basic(-(w / 0x1_0000_0000_0000_0000) - 1, 0x1_0000_0000_0000_0000);
    }
}

/// Folding `/` on two integer constants: none when the divisor is zero; else the quotient
/// rounded toward zero, except that the lowest value divided by -1 stays itself.
pub proof fn law_int_fold_divides(lv: i64, rv: i64)
    ensures
        (rv as i32) == 0 ==> int_binop(BirBinOp::Div, BirType::I32, lv, rv) is None,
        (rv as i32) != 0 ==> (int_binop(BirBinOp::Div, BirType::I32, lv, rv) matches Some(x)
            && i32::MIN <= x <= i32::MAX
            && if (lv as i32) == i32::MIN && (rv as i32) == -1 {
                x == i32::MIN
            } else {
                is_truncated_quotient((lv as i32) as int, (rv as i32) as int, x as int)
            }),
        rv == 0 ==> int_binop(BirBinOp::Div, BirType::I64, lv, rv) is None,
        rv != 0 ==> (int_binop(BirBinOp::Div, BirType::I64, lv, rv) matches Some(x)
            && if lv == i64::MIN && rv == -1 {
                x == i64::MIN
            } else {
                is_truncated_quotient(lv as int, rv as int, x as int)
            }),
{
    let a = (lv as i32) as int;
    let b = (rv as i32) as int;
    if b != 0 {
        lemma_truncated_quotient(a, b);
    }
    if rv != 0 {
        lemma_truncated_quotient(lv as int, rv as int);
    }
}

/// The quotient of `x` by `d` that the standard library's checked division computes before its
/// range check.
spec fn rounded_quotient(x: int, d: int) -> int {
    if x == 0 {
        0
    } else if x > 0 && d > 0 {
        x / d
    } else if x < 0 && d < 0 {
        (x * -1) / (d * -1)
    } else if x < 0 {
        ((x * -1) / d) * -1
    } else {
        (x / (d * -1)) * -1
    }
}

/// That quotient is rounded toward zero, and it is no larger in size than `x`, `x` itself for
/// `d == 1`, `-x` for `d == -1`, and at most half of `x` in size otherwise.
proof fn lemma_truncated_quotient(x: int, d: int)
    requires
        d != 0,
    ensures
        is_truncated_quotient(x, d, rounded_quotient(x, d)),
        d == 1 ==> rounded_quotient(x, d) == x,
        d == -1 ==> rounded_quotient(x, d) == -x,
        (d >= 2 || d <= -2) ==> -(if x < 0 { -x } else { x }) <= 2 * rounded_quotient(x, d) <= (if x < 0 { -x } else { x }),
{
    let q = rounded_quotient(x, d);
    if x == 0 {
        assert(x - q * d == 0);
    } else if x > 0 && d > 0 {
        vstd::arithmetic::div_mod::lemma_fundamental_div_mod(x, d);
        vstd::arithmetic::div_mod::lemma_mod_bound(x, d);
        let r = x % d;
        assert(x - q * d == r) by (nonlinear_arith)
            requires q == x / d, x == d * (x / d) + x % d, r == x % d;
    } else if x < 0 && d < 0 {
        vstd::arithmetic::div_mod::lemma_fundamental_div_mod(-x, -d);
        vstd::arithmetic::div_mod::lemma_mod_bound(-x, -d);
        let r = (-x) % (-d);
        assert(x - q * d == -r) by (nonlinear_arith)
            requires q == (x * -1) / (d * -1), -x == (-d) * ((-x) / (-d)) + (-x) % (-d), r == (-x) % (-d);
    } else if x < 0 {
        vstd::arithmetic::div_mod::lemma_fundamental_div_mod(-x, d);
        vstd::arithmetic::div_mod::lemma_mod_bound(-x, d);
        let r = (-x) % d;
        assert(x - q * d == -r) by (nonlinear_arith)
            requires q == ((x * -1) / d) * -1, -x == d * ((-x) / d) + (-x) % d, r == (-x) % d;
    } else {
        vstd::arithmetic::div_mod::lemma_fundamental_div_mod(x, -d);
        vstd::arithmetic::div_mod::lemma_mod_bound(x, -d);
        let r = x % (-d);
        assert(x - q * d == r) by (nonlinear_arith)
            requires q == (x / (d * -1)) * -1, x == (-d) * (x / (-d)) + x % (-d), r == x % (-d);
    }
    assert(is_truncated_quotient(x, d, q));
    lemma_quotient_size(x, d, q);
}

/// A quotient rounded toward zero is `x` for `d == 1`, `-x` for `d == -1`, and at most half of
/// `x` in size for any other divisor.
proof fn lemma_quotient_size(x: int, d: int, q: int)
    requires
        d != 0,
        is_truncated_quotient(x, d, q),
    ensures
        d == 1 ==> q == x,
        d == -1 ==> q == -x,
        (d >= 2 || d <= -2) ==> -(if x < 0 { -x } else { x }) <= 2 * q <= (if x < 0 { -x } else { x }),
{
    let m = x - q * d;
    if d == 1 {
        assert(q * d == q);
    } else if d == -1 {
        assert(q * d == -q);
    } else if d >= 2 {
        if x >= 0 {
            assert(0 <= m < d);
            assert(0 <= 2 * q <= x) by (nonlinear_arith)
                requires m == x - q * d, 0 <= m < d, d >= 2, x >= 0;
        } else {
            assert(-d < m <= 0);
            assert(x <= 2 * q <= 0) by (nonlinear_arith)
                requires m == x - q * d, -d < m <= 0, d >= 2, x < 0;
        }
    } else {
        if x >= 0 {
            assert(0 <= m < -d);
            assert(-x <= 2 * q <= 0) by (nonlinear_arith)
                requires m == x - q * d, 0 <= m < -d, d <= -2, x >= 0;
        } else {
            assert(d < m <= 0);
            assert(0 <= 2 * q <= -x) by (nonlinear_arith)
                requires m == x - q * d, d < m <= 0, d <= -2, x < 0;
        }
    }
}

/// How two integers compare under an operator.
pub open spec fn compare_ints(op: BirCompareOp, l: int, r: int) -> bool {
    match op {
        BirCompareOp::Eq => l == r,
        BirCompareOp::Ne => l != r,
        BirCompareOp::Lt => l < r,
        BirCompareOp::Gt => l > r,
        BirCompareOp::Le => l <= r,
        BirCompareOp::Ge => l >= r,
    }
}

/// What an integer comparison of two constants gives, when it can be folded.
pub open spec fn int_compare(op: BirCompareOp, ty: BirType, lv: i64, rv: i64) -> Option<bool> {
    match ty {
        BirType::I32 => Some(compare_ints(op, (lv as i32) as int, (rv as i32) as int)),
        BirType::I64 => Some(compare_ints(op, lv as int, rv as int)),
        _ => None,
    }
}

/// Folding a comparison of two integer constants gives whether the comparison holds of their
/// values: the low 32 bits read as a signed number for `Int32`, the whole constant for `Int64`.
/// Other types are not folded here.
pub proof fn law_int_fold_compares(op: BirCompareOp, ty: BirType, lv: i64, rv: i64)
    ensures
        ty is I32 ==> int_compare(op, ty, lv, rv) == Some(compare_ints(op, (lv as i32) as int, (rv as i32) as int)),
        ty is I64 ==> int_compare(op, ty, lv, rv) == Some(compare_ints(op, lv as int, rv as int)),
        !(ty is I32 || ty is I64) ==> int_compare(op, ty, lv, rv) is None,
{
}

/// Whether `ty` is one of the floating-point types.
pub open spec fn is_float(ty: BirType) -> bool {
    ty is F32 || ty is F64
}

/// Whether instruction `inst` reads value `%v`.
pub open spec fn instruction_reads(inst: Instruction, v: u32) -> bool {
    match inst {
        Instruction::Literal { .. } => false,
        Instruction::BinaryOp { lhs, rhs, .. } => lhs.0 == v || rhs.0 == v,
        Instruction::Call { args, .. } => exists|i: int| 0 <= i < args@.len() && (#[trigger] args@[i]).0 == v,
        Instruction::Compare { lhs, rhs, .. } => lhs.0 == v || rhs.0 == v,
        Instruction::Not { operand, .. } => operand.0 == v,
        Instruction::Cast { operand, .. } => operand.0 == v,
        Instruction::StructInit { fields, .. } => exists|i: int|
            0 <= i < fields@.len() && (#[trigger] fields@[i]).1.0 == v,
        Instruction::FieldGet { object, .. } => object.0 == v,
        Instruction::FieldSet { object, value, .. } => object.0 == v || value.0 == v,
        Instruction::ArrayInit { elements, .. } => exists|i: int|
            0 <= i < elements@.len() && (#[trigger] elements@[i]).0 == v,
        Instruction::ArrayGet { array, index, .. } => array.0 == v || index.0 == v,
        Instruction::ArraySet { array, index, value, .. } => array.0 == v || index.0 == v || value.0 == v,
    }
}

/// Whether one of the passed arguments is `%v`.
pub open spec fn args_read(args: Seq<(Value, BirType)>, v: u32) -> bool {
    exists|i: int| 0 <= i < args.len() && (#[trigger] args[i]).0.0 == v
}

/// Whether terminator `t` reads value `%v`.
pub open spec fn terminator_reads(t: Terminator, v: u32) -> bool {
    match t {
        Terminator::Return(x) => x.0 == v,
        Terminator::ReturnVoid => false,
        Terminator::Br { args, .. } => args_read(args@, v),
        Terminator::CondBr { cond, .. } => cond.0 == v,
        Terminator::BrBreak { args, value, .. } => args_read(args@, v) || (value matches Some(p) && p.0.0 == v),
        Terminator::BrContinue { args, .. } => args_read(args@, v),
    }
}

/// Whether a control-flow region, or one nested in it, branches on value `%v`.
pub open spec fn region_reads(r: CfgRegion, v: u32) -> bool
    decreases r,
{
    match r {
        CfgRegion::Block(_) => false,
        CfgRegion::IfElse { cond_region, cond_value, then_region, else_region, .. } => cond_value.0 == v
            || (exists|i: int| 0 <= i < cond_region@.len() && region_reads(#[trigger] cond_region@[i], v))
            || (exists|i: int| 0 <= i < then_region@.len() && region_reads(#[trigger] then_region@[i], v))
            || (exists|i: int| 0 <= i < else_region@.len() && region_reads(#[trigger] else_region@[i], v)),
        CfgRegion::IfOnly { cond_region, cond_value, then_region, .. } => cond_value.0 == v
            || (exists|i: int| 0 <= i < cond_region@.len() && region_reads(#[trigger] cond_region@[i], v))
            || (exists|i: int| 0 <= i < then_region@.len() && region_reads(#[trigger] then_region@[i], v)),
        CfgRegion::While { header_region, cond_value, body_region, nobreak_region, .. } => cond_value.0 == v
            || (exists|i: int| 0 <= i < header_region@.len() && region_reads(#[trigger] header_region@[i], v))
            || (exists|i: int| 0 <= i < body_region@.len() && region_reads(#[trigger] body_region@[i], v))
            || (exists|i: int| 0 <= i < nobreak_region@.len() && region_reads(#[trigger] nobreak_region@[i], v)),
    }
}

/// Whether one of the regions branches on value `%v`.
pub open spec fn regions_read(rs: Seq<CfgRegion>, v: u32) -> bool {
    exists|i: int| 0 <= i < rs.len() && region_reads(#[trigger] rs[i], v)
}

/// Whether an instruction of the blocks reads value `%v`.
pub open spec fn instructions_read(blocks: Seq<BasicBlock>, v: u32) -> bool {
    exists|b: int, i: int|
        0 <= b < blocks.len() && 0 <= i < blocks[b].instructions@.len() && #[trigger] instruction_reads(
            blocks[b].instructions@[i],
            v,
        )
}

/// Whether a terminator of the blocks reads value `%v`.
pub open spec fn terminators_read(blocks: Seq<BasicBlock>, v: u32) -> bool {
    exists|b: int| 0 <= b < blocks.len() && #[trigger] terminator_reads(blocks[b].terminator, v)
}

/// Whether a function with these blocks and this control-flow skeleton reads value `%v`.
pub open spec fn function_reads(blocks: Seq<BasicBlock>, body: Seq<CfgRegion>, v: u32) -> bool {
    instructions_read(blocks, v) || terminators_read(blocks, v) || regions_read(body, v)
}


/// Pushing `v` adds exactly `v` to what a list contains.
proof fn lemma_push_contains(s: Seq<u32>, v: u32)
    ensures
        forall|x: u32| #[trigger] s.push(v).contains(x) <==> s.contains(x) || x == v,
{
    assert forall|x: u32| #[trigger] s.push(v).contains(x) <==> s.contains(x) || x == v by {
        if s.contains(x) {
            let i = s.index_of(x);
            assert(s.push(v)[i] == x);
        }
        if x == v {
            assert(s.push(v)[s.len() as int] == x);
        }
        if s.push(v).contains(x) && x != v {
            let i = s.push(v).index_of(x);
            assert(i < s.len());
            assert(s[i] == x);
        }
    }
}

/// Adds value `%v` to the list of read values.
fn note_read(out: &mut Vec<u32>, v: Value)
    ensures
        forall|x: u32| #[trigger] final(out)@.contains(x) <==> old(out)@.contains(x) || x == v.0,
{
    proof { lemma_push_contains(out@, v.0); }
    out.push(v.0);
}

/// Adds the values of a list to the list of read values.
fn note_values(out: &mut Vec<u32>, vs: &Vec<Value>)
    ensures
        forall|x: u32| #[trigger] final(out)@.contains(x) <==> old(out)@.contains(x) || exists|i: int|
            0 <= i < vs@.len() && (#[trigger] vs@[i]).0 == x,
{
    let ghost start = out@;
    let mut k: usize = 0;
    while k < vs.len()
        invariant
            k <= vs@.len(),
            forall|x: u32| #[trigger] out@.contains(x) <==> start.contains(x) || exists|i: int|
                0 <= i < k && (#[trigger] vs@[i]).0 == x,
        decreases vs@.len() - k,
    {
        note_read(out, vs[k]);
        assert forall|x: u32| #[trigger] out@.contains(x) <==> start.contains(x) || exists|i: int|
            0 <= i < k + 1 && (#[trigger] vs@[i]).0 == x by {
            if x == vs@[k as int].0 {
                assert(vs@[k as int].0 == x);
            }
        }
        k = k + 1;
    }
}

/// Adds the values passed with a branch to the list of read values.
fn note_args(out: &mut Vec<u32>, args: &Vec<(Value, BirType)>)
    ensures
        forall|x: u32| #[trigger] final(out)@.contains(x) <==> old(out)@.contains(x) || args_read(args@, x),
{
    let ghost start = out@;
    let mut k: usize = 0;
    while k < args.len()
        invariant
            k <= args@.len(),
            forall|x: u32| #[trigger] out@.contains(x) <==> start.contains(x) || exists|i: int|
                0 <= i < k && (#[trigger] args@[i]).0.0 == x,
        decreases args@.len() - k,
    {
        note_read(out, args[k].0);
        assert forall|x: u32| #[trigger] out@.contains(x) <==> start.contains(x) || exists|i: int|
            0 <= i < k + 1 && (#[trigger] args@[i]).0.0 == x by {
            if x == args@[k as int].0.0 {
                assert(args@[k as int].0.0 == x);
            }
        }
        k = k + 1;
    }
}

/// Adds the values that an instruction reads.
fn note_instruction_reads(out: &mut Vec<u32>, inst: &Instruction)
    ensures
        forall|x: u32| #[trigger] final(out)@.contains(x) <==> old(out)@.contains(x) || instruction_reads(*inst, x),
{
    match inst {
        Instruction::Literal { .. } => {},
        Instruction::BinaryOp { lhs, rhs, .. } => {
            note_read(out, *lhs);
            note_read(out, *rhs);
        },
        Instruction::Call { args, .. } => {
            note_values(out, args);
        },
        Instruction::Compare { lhs, rhs, .. } => {
            note_read(out, *lhs);
            note_read(out, *rhs);
        },
        Instruction::Not { operand, .. } => {
            note_read(out, *operand);
        },
        Instruction::Cast { operand, .. } => {
            note_read(out, *operand);
        },
        Instruction::StructInit { fields, .. } => {
            let ghost start = out@;
            let mut k: usize = 0;
            while k < fields.len()
                invariant
                    k <= fields@.len(),
                    forall|x: u32| #[trigger] out@.contains(x) <==> start.contains(x) || exists|i: int|
                        0 <= i < k && (#[trigger] fields@[i]).1.0 == x,
                decreases fields@.len() - k,
            {
                note_read(out, fields[k].1);
                assert forall|x: u32| #[trigger] out@.contains(x) <==> start.contains(x) || exists|i: int|
                    0 <= i < k + 1 && (#[trigger] fields@[i]).1.0 == x by {
                    if x == fields@[k as int].1.0 {
                        assert(fields@[k as int].1.0 == x);
                    }
                }
                k = k + 1;
            }
        },
        Instruction::FieldGet { object, .. } => {
            note_read(out, *object);
        },
        Instruction::FieldSet { object, value, .. } => {
            note_read(out, *object);
            note_read(out, *value);
        },
        Instruction::ArrayInit { elements, .. } => {
            note_values(out, elements);
        },
        Instruction::ArrayGet { array, index, .. } => {
            note_read(out, *array);
            note_read(out, *index);
        },
        Instruction::ArraySet { array, index, value, .. } => {
            note_read(out, *array);
            note_read(out, *index);
            note_read(out, *value);
        },
    }
}

/// Adds the values that a terminator reads.
fn note_terminator_reads(out: &mut Vec<u32>, t: &Terminator)
    ensures
        forall|x: u32| #[trigger] final(out)@.contains(x) <==> old(out)@.contains(x) || terminator_reads(*t, x),
{
    match t {
        Terminator::Return(x) => {
            note_read(out, *x);
        },
        Terminator::ReturnVoid => {},
        Terminator::Br { args, .. } => {
            note_args(out, args);
        },
        Terminator::CondBr { cond, .. } => {
            note_read(out, *cond);
        },
        Terminator::BrBreak { args, value, .. } => {
            note_args(out, args);
            match value {
                Some(p) => {
                    note_read(out, p.0);
                },
                None => {},
            }
        },
        Terminator::BrContinue { args, .. } => {
            note_args(out, args);
        },
    }
}

/// Adds the values that the regions, and those nested in them, branch on.
fn note_regions_reads(out: &mut Vec<u32>, rs: &Vec<CfgRegion>)
    ensures
        forall|x: u32| #[trigger] final(out)@.contains(x) <==> old(out)@.contains(x) || regions_read(rs@, x),
    decreases rs, 1int,
{
    let ghost start = out@;
    let mut k: usize = 0;
    while k < rs.len()
        invariant
            k <= rs@.len(),
            forall|x: u32| #[trigger] out@.contains(x) <==> start.contains(x) || exists|i: int|
                0 <= i < k && region_reads(#[trigger] rs@[i], x),
        decreases rs@.len() - k,
    {
        note_region_reads(out, &rs[k]);
        assert forall|x: u32| #[trigger] out@.contains(x) <==> start.contains(x) || exists|i: int|
            0 <= i < k + 1 && region_reads(#[trigger] rs@[i], x) by {
            if region_reads(rs@[k as int], x) {
                assert(0 <= k < k + 1);
            }
        }
        k = k + 1;
    }
}

/// Adds the values that a region, and those nested in it, branch on.
fn note_region_reads(out: &mut Vec<u32>, r: &CfgRegion)
    ensures
        forall|x: u32| #[trigger] final(out)@.contains(x) <==> old(out)@.contains(x) || region_reads(*r, x),
    decreases r, 0int,
{
    match r {
        CfgRegion::Block(_) => {},
        CfgRegion::IfElse { cond_region, cond_value, then_region, else_region, .. } => {
            note_read(out, *cond_value);
            note_regions_reads(out, cond_region);
            note_regions_reads(out, then_region);
            note_regions_reads(out, else_region);
        },
        CfgRegion::IfOnly { cond_region, cond_value, then_region, .. } => {
            note_read(out, *cond_value);
            note_regions_reads(out, cond_region);
            note_regions_reads(out, then_region);
        },
        CfgRegion::While { header_region, cond_value, body_region, nobreak_region, .. } => {
            note_read(out, *cond_value);
            note_regions_reads(out, header_region);
            note_regions_reads(out, body_region);
            note_regions_reads(out, nobreak_region);
        },
    }
}

/// The constant value a literal defines, recorded after it.
pub open spec fn record(m: Map<u32, i64>, out: Instruction) -> Map<u32, i64> {
    match out {
        Instruction::Literal { result, value, .. } => m.insert(result.0, value),
        _ => m,
    }
}

/// `out` is what folding makes of `inst` when `m` holds the known constants.
pub open spec fn folds_to<FB, FC>(m: Map<u32, i64>, inst: Instruction, out: Instruction, fb: FB, fc: FC) -> bool where
    FB: Fn(BirBinOp, bool, i64, i64) -> i64,
    FC: Fn(BirCompareOp, bool, i64, i64) -> bool,
 {
    match inst {
        Instruction::BinaryOp { result, op, lhs, rhs, ty } => if m.contains_key(lhs.0) && m.contains_key(rhs.0) {
            let (l, r) = (m[lhs.0], m[rhs.0]);
            if is_float(ty) {
                exists|v: i64| #[trigger] fb.ensures((op, ty is F64, l, r), v) && out == (Instruction::Literal { result, value: v, ty })
            } else {
                match int_binop(op, ty, l, r) {
                    Some(v) => out == (Instruction::Literal { result, value: v, ty }),
                    None => out == inst,
                }
            }
        } else {
            out == inst
        },
        Instruction::Compare { result, op, lhs, rhs, ty } => if m.contains_key(lhs.0) && m.contains_key(rhs.0) {
            let (l, r) = (m[lhs.0], m[rhs.0]);
            if is_float(ty) {
                exists|b: bool| #[trigger] fc.ensures((op, ty is F64, l, r), b) && out == (Instruction::Literal {
                    result,
                    value: if b { 1 } else { 0 },
                    ty: BirType::Bool,
                })
            } else {
                match int_compare(op, ty, l, r) {
                    Some(b) => out == (Instruction::Literal { result, value: if b { 1 } else { 0 }, ty: BirType::Bool }),
                    None => out == inst,
                }
            }
        } else {
            out == inst
        },
        _ => out == inst,
    }
}

/// The constants known after the instructions `outs`, starting from `m`.
pub open spec fn recorded(m: Map<u32, i64>, outs: Seq<Instruction>) -> Map<u32, i64>
    decreases outs.len(),
{
    if outs.len() == 0 {
        m
    } else {
        record(recorded(m, outs.drop_last()), outs.last())
    }
}

/// `outs` is what folding makes of `ins`, instruction by instruction, starting from the constants `m`.
pub open spec fn folds_all<FB, FC>(m: Map<u32, i64>, ins: Seq<Instruction>, outs: Seq<Instruction>, fb: FB, fc: FC) -> bool where
    FB: Fn(BirBinOp, bool, i64, i64) -> i64,
    FC: Fn(BirCompareOp, bool, i64, i64) -> bool,
    decreases ins.len(),
{
    &&& ins.len() == outs.len()
    &&& ins.len() > 0 ==> {
        &&& folds_all(m, ins.drop_last(), outs.drop_last(), fb, fc)
        &&& folds_to(recorded(m, outs.drop_last()), ins.last(), outs.last(), fb, fc)
    }
}

/// All instructions of a list of blocks, block after block.
pub open spec fn all_instructions(bs: Seq<BasicBlock>) -> Seq<Instruction>
    decreases bs.len(),
{
    if bs.len() == 0 {
        Seq::empty()
    } else {
        all_instructions(bs.drop_last()) + bs.last().instructions@
    }
}

/// `after` has the blocks of `before`, each with the same label, parameters and terminator.
pub open spec fn same_shape(before: Seq<BasicBlock>, after: Seq<BasicBlock>) -> bool {
    &&& before.len() == after.len()
    &&& forall|i: int| 0 <= i < before.len() ==> {
        &&& (#[trigger] after[i]).label == before[i].label
        &&& after[i].params == before[i].params
        &&& after[i].terminator == before[i].terminator
        &&& after[i].instructions@.len() == before[i].instructions@.len()
    }
}

/// `after` is `before` with its blocks' instructions folded, constants known across blocks in order.
pub open spec fn folded_blocks<FB, FC>(before: Seq<BasicBlock>, after: Seq<BasicBlock>, fb: FB, fc: FC) -> bool where
    FB: Fn(BirBinOp, bool, i64, i64) -> i64,
    FC: Fn(BirCompareOp, bool, i64, i64) -> bool,
 {
    &&& same_shape(before, after)
    &&& folds_all(Map::empty(), all_instructions(before), all_instructions(after), fb, fc)
}

/// `after` is `before` with every block's instructions folded, then the literals
/// that nothing reads removed; everything else is unchanged.
pub open spec fn optimized_function<FB, FC>(before: BirFunction, after: BirFunction, fb: FB, fc: FC) -> bool where
    FB: Fn(BirBinOp, bool, i64, i64) -> i64,
    FC: Fn(BirCompareOp, bool, i64, i64) -> bool,
 {
    &&& after.name == before.name
    &&& after.type_params == before.type_params
    &&& after.params == before.params
    &&& after.return_type == before.return_type
    &&& after.body == before.body
    &&& exists|folded: Seq<BasicBlock>|
        folded_blocks(before.blocks@, folded, fb, fc) && #[trigger] pruned_blocks(folded, after.blocks@, before.body@)
}


/// What a table of known constants says of `key`; a later entry overrides an earlier one.
pub open spec fn table_lookup(t: Seq<(u32, i64)>, key: u32) -> Option<i64>
    decreases t.len(),
{
    if t.len() == 0 {
        None
    } else if t.last().0 == key {
        Some(t.last().1)
    } else {
        table_lookup(t.drop_last(), key)
    }
}

/// The table `t` holds exactly the constants of `m`.
pub open spec fn table_holds(t: Seq<(u32, i64)>, m: Map<u32, i64>) -> bool {
    forall|key: u32| #[trigger] table_lookup(t, key) == (if m.contains_key(key) { Some(m[key]) } else { None })
}

/// The known constant of value `v`, if any.
fn lookup_constant(table: &Vec<(u32, i64)>, v: Value) -> (r: Option<i64>)
    ensures
        r == table_lookup(table@, v.0),
{
    let mut k: usize = table.len();
    assert(table@.take(k as int) =~= table@);
    while k > 0
        invariant
            k <= table@.len(),
            table_lookup(table@, v.0) == table_lookup(table@.take(k as int), v.0),
        decreases k,
    {
        assert(table@.take(k as int).drop_last() =~= table@.take(k - 1));
        if table[k - 1].0 == v.0 {
            return Some(table[k - 1].1);
        }
        k = k - 1;
    }
    None
}

/// Folds an arithmetic operation on two constants of type `ty`, when it can be folded.
fn fold_binop<FB>(op: BirBinOp, lv: i64, rv: i64, ty: &BirType, float_binop: &FB) -> (r: Option<i64>) where
    FB: Fn(BirBinOp, bool, i64, i64) -> i64,
    requires
        forall|o: BirBinOp, w: bool, a: i64, b: i64| float_binop.requires((o, w, a, b)),
    ensures
        is_float(*ty) ==> (r matches Some(v) && float_binop.ensures((op, *ty is F64, lv, rv), v)),
        !is_float(*ty) ==> r == int_binop(op, *ty, lv, rv),
{
    match ty {
        BirType::I32 => {
            let l = lv as i32;
            let r = rv as i32;
            match op {
                BirBinOp::Add => Some(l.wrapping_add(r) as i64),
                BirBinOp::Sub => Some(l.wrapping_sub(r) as i64),
                BirBinOp::Mul => Some(l.wrapping_mul(r) as i64),
                BirBinOp::Div => {
                    if r == 0 {
                        return None;
                    }
                    match l.checked_div(r) {
                        Some(q) => Some(q as i64),
                        None => Some(l as i64),
                    }
                },
            }
        },
        BirType::I64 => match op {
            BirBinOp::Add => Some(lv.wrapping_add(rv)),
            BirBinOp::Sub => Some(lv.wrapping_sub(rv)),
            BirBinOp::Mul => Some(lv.wrapping_mul(rv)),
            BirBinOp::Div => {
                if rv == 0 {
                    return None;
                }
                match lv.checked_div(rv) {
                    Some(q) => Some(q),
                    None => Some(lv),
                }
            },
        },
        BirType::F32 => Some(float_binop(op, false, lv, rv)),
        BirType::F64 => Some(float_binop(op, true, lv, rv)),
        _ => None,
    }
}

/// Folds a comparison of two constants of type `ty`, when it can be folded.
fn fold_compare<FC>(op: BirCompareOp, lv: i64, rv: i64, ty: &BirType, float_compare: &FC) -> (r: Option<bool>) where
    FC: Fn(BirCompareOp, bool, i64, i64) -> bool,
    requires
        forall|o: BirCompareOp, w: bool, a: i64, b: i64| float_compare.requires((o, w, a, b)),
    ensures
        is_float(*ty) ==> (r matches Some(b) && float_compare.ensures((op, *ty is F64, lv, rv), b)),
        !is_float(*ty) ==> r == int_compare(op, *ty, lv, rv),
{
    match ty {
        BirType::I32 => {
            let l = lv as i32;
            let r = rv as i32;
            Some(
                match op {
                    BirCompareOp::Eq => l == r,
                    BirCompareOp::Ne => l != r,
                    BirCompareOp::Lt => l < r,
                    BirCompareOp::Gt => l > r,
                    BirCompareOp::Le => l <= r,
                    BirCompareOp::Ge => l >= r,
                },
            )
        },
        BirType::I64 => Some(
            match op {
                BirCompareOp::Eq => lv == rv,
                BirCompareOp::Ne => lv != rv,
                BirCompareOp::Lt => lv < rv,
                BirCompareOp::Gt => lv > rv,
                BirCompareOp::Le => lv <= rv,
                BirCompareOp::Ge => lv >= rv,
            },
        ),
        BirType::F32 => Some(float_compare(op, false, lv, rv)),
        BirType::F64 => Some(float_compare(op, true, lv, rv)),
        _ => None,
    }
}

/// Folds one instruction given the known constants, and records the constant it defines.
fn fold_instruction<FB, FC>(
    inst: Instruction,
    table: &mut Vec<(u32, i64)>,
    Ghost(m): Ghost<Map<u32, i64>>,
    float_binop: &FB,
    float_compare: &FC,
) -> (out: Instruction) where
    FB: Fn(BirBinOp, bool, i64, i64) -> i64,
    FC: Fn(BirCompareOp, bool, i64, i64) -> bool,
    requires
        table_holds(old(table)@, m),
        forall|o: BirBinOp, w: bool, a: i64, b: i64| float_binop.requires((o, w, a, b)),
        forall|o: BirCompareOp, w: bool, a: i64, b: i64| float_compare.requires((o, w, a, b)),
    ensures
        folds_to(m, inst, out, *float_binop, *float_compare),
        table_holds(final(table)@, record(m, out)),
{
    let out = match inst {
        Instruction::BinaryOp { result, op, lhs, rhs, ty } => {
            match (lookup_constant(table, lhs), lookup_constant(table, rhs)) {
                (Some(lv), Some(rv)) => match fold_binop(op, lv, rv, &ty, float_binop) {
                    Some(folded) => Instruction::Literal { result, value: folded, ty },
                    None => Instruction::BinaryOp { result, op, lhs, rhs, ty },
                },
                _ => Instruction::BinaryOp { result, op, lhs, rhs, ty },
            }
        },
        Instruction::Compare { result, op, lhs, rhs, ty } => {
            match (lookup_constant(table, lhs), lookup_constant(table, rhs)) {
                (Some(lv), Some(rv)) => match fold_compare(op, lv, rv, &ty, float_compare) {
                    Some(folded) => {
                        let bool_val: i64 = if folded { 1 } else { 0 };
                        Instruction::Literal { result, value: bool_val, ty: BirType::Bool }
                    },
                    None => Instruction::Compare { result, op, lhs, rhs, ty },
                },
                _ => Instruction::Compare { result, op, lhs, rhs, ty },
            }
        },
        other => other,
    };
    let ghost before = table@;
    match &out {
        Instruction::Literal { result, value, .. } => {
            table.push((result.0, *value));
            proof {
                assert forall|key: u32| #[trigger] table_lookup(table@, key) == (if record(m, out).contains_key(key) {
                    Some(record(m, out)[key])
                } else {
                    None
                }) by {
                    assert(table@.drop_last() =~= before);
                    assert(table_lookup(before, key) == (if m.contains_key(key) { Some(m[key]) } else { None }));
                }
            }
        },
        _ => {},
    }
    out
}


/// `folds_all` extends by one instruction at a time.
proof fn lemma_folds_push<FB, FC>(m: Map<u32, i64>, ins: Seq<Instruction>, outs: Seq<Instruction>, i: Instruction, o: Instruction, fb: FB, fc: FC) where
    FB: Fn(BirBinOp, bool, i64, i64) -> i64,
    FC: Fn(BirCompareOp, bool, i64, i64) -> bool,

    requires
        folds_all(m, ins, outs, fb, fc),
        folds_to(recorded(m, outs), i, o, fb, fc),
    ensures
        folds_all(m, ins.push(i), outs.push(o), fb, fc),
        recorded(m, outs.push(o)) == record(recorded(m, outs), o),
{
    assert(ins.push(i).drop_last() =~= ins);
    assert(outs.push(o).drop_last() =~= outs);
}

/// Folds the constants of a list of blocks, in order, keeping what is known from one block to the next.
fn fold_constants<FB, FC>(blocks: Vec<BasicBlock>, float_binop: &FB, float_compare: &FC) -> (r: Vec<BasicBlock>) where
    FB: Fn(BirBinOp, bool, i64, i64) -> i64,
    FC: Fn(BirCompareOp, bool, i64, i64) -> bool,
    requires
        forall|o: BirBinOp, w: bool, a: i64, b: i64| float_binop.requires((o, w, a, b)),
        forall|o: BirCompareOp, w: bool, a: i64, b: i64| float_compare.requires((o, w, a, b)),
    ensures
        folded_blocks(blocks@, r@, *float_binop, *float_compare),
{
    let ghost all = blocks@;
    let ghost fb = *float_binop;
    let ghost fc = *float_compare;
    let mut rest = blocks;
    let mut done: Vec<BasicBlock> = Vec::new();
    let mut table: Vec<(u32, i64)> = Vec::new();
    assert(table_holds(table@, Map::<u32, i64>::empty()));
    assert(all.take(0) =~= Seq::<BasicBlock>::empty());
    while rest.len() > 0
        invariant
            fb == *float_binop,
            fc == *float_compare,
            forall|o: BirBinOp, w: bool, a: i64, b: i64| float_binop.requires((o, w, a, b)),
            forall|o: BirCompareOp, w: bool, a: i64, b: i64| float_compare.requires((o, w, a, b)),
            done@.len() + rest@.len() == all.len(),
            rest@ == all.skip(done@.len() as int),
            same_shape(all.take(done@.len() as int), done@),
            folds_all(Map::empty(), all_instructions(all.take(done@.len() as int)), all_instructions(done@), fb, fc),
            table_holds(table@, recorded(Map::empty(), all_instructions(done@))),
        decreases rest@.len(),
    {
        let ghost n = done@.len() as int;
        let block = rest.remove(0);
        assert(block == all[n]);
        let BasicBlock { label, params, instructions, terminator } = block;
        let ghost ins = instructions@;
        let ghost prev_in = all_instructions(all.take(n));
        let ghost prev_out = all_instructions(done@);
        let mut pending = instructions;
        let mut folded: Vec<Instruction> = Vec::new();
        assert(ins.take(0) =~= Seq::<Instruction>::empty());
        assert(prev_in + ins.take(0) =~= prev_in);
        assert(prev_out + folded@ =~= prev_out);
        while pending.len() > 0
            invariant
                fb == *float_binop,
                fc == *float_compare,
                forall|o: BirBinOp, w: bool, a: i64, b: i64| float_binop.requires((o, w, a, b)),
                forall|o: BirCompareOp, w: bool, a: i64, b: i64| float_compare.requires((o, w, a, b)),
                folded@.len() + pending@.len() == ins.len(),
                pending@ == ins.skip(folded@.len() as int),
                folds_all(Map::empty(), prev_in + ins.take(folded@.len() as int), prev_out + folded@, fb, fc),
                table_holds(table@, recorded(Map::empty(), prev_out + folded@)),
            decreases pending@.len(),
        {
            let ghost j = folded@.len() as int;
            let inst = pending.remove(0);
            assert(inst == ins[j]);
            let ghost m = recorded(Map::empty(), prev_out + folded@);
            let out = fold_instruction(inst, &mut table, Ghost(m), float_binop, float_compare);
            proof {
                lemma_folds_push(Map::empty(), prev_in + ins.take(j), prev_out + folded@, ins[j], out, fb, fc);
                assert((prev_in + ins.take(j)).push(ins[j]) =~= prev_in + ins.take(j + 1));
                assert((prev_out + folded@).push(out) =~= prev_out + folded@.push(out));
            }
            folded.push(out);
            assert(pending@ =~= ins.skip(folded@.len() as int));
        }
        assert(ins.take(ins.len() as int) =~= ins);
        let ghost folded_v = folded@;
        let ghost old_done = done@;
        assert(folds_all(Map::empty(), prev_in + ins, prev_out + folded_v, fb, fc));
        assert(table_holds(table@, recorded(Map::empty(), prev_out + folded_v)));
        done.push(BasicBlock { label, params, instructions: folded, terminator });
        proof {
            assert(all.take(n + 1).drop_last() =~= all.take(n));
            assert(done@.drop_last() =~= old_done);
            assert(all_instructions(all.take(n + 1)) == prev_in + ins);
            assert(all_instructions(done@) == prev_out + folded_v);
            assert(rest@ =~= all.skip(n + 1));
            assert forall|i: int| 0 <= i < n + 1 implies {
                &&& (#[trigger] done@[i]).label == all.take(n + 1)[i].label
                &&& done@[i].params == all.take(n + 1)[i].params
                &&& done@[i].terminator == all.take(n + 1)[i].terminator
                &&& done@[i].instructions@.len() == all.take(n + 1)[i].instructions@.len()
            } by {
                if i < n {
                    assert(all.take(n)[i] == all.take(n + 1)[i]);
                }
            }
        }
    }
    assert(all.take(all.len() as int) =~= all);
    done
}

/// The values that a function with these blocks and this control-flow skeleton reads.
fn collect_reads(blocks: &Vec<BasicBlock>, body: &Vec<CfgRegion>) -> (r: Vec<u32>)
    ensures
        forall|x: u32| #[trigger] r@.contains(x) <==> function_reads(blocks@, body@, x),
{
    let mut out: Vec<u32> = Vec::new();
    let mut b: usize = 0;
    while b < blocks.len()
        invariant
            b <= blocks@.len(),
            forall|x: u32| #[trigger] out@.contains(x) <==> (exists|c: int, i: int|
                0 <= c < b && 0 <= i < blocks@[c].instructions@.len() && #[trigger] instruction_reads(
                    blocks@[c].instructions@[i],
                    x,
                )) || (exists|c: int| 0 <= c < b && #[trigger] terminator_reads(blocks@[c].terminator, x)),
        decreases blocks@.len() - b,
    {
        let block = &blocks[b];
        let ghost before_block = out@;
        let mut i: usize = 0;
        while i < block.instructions.len()
            invariant
                b < blocks@.len(),
                *block == blocks@[b as int],
                i <= block.instructions@.len(),
                forall|x: u32| #[trigger] out@.contains(x) <==> before_block.contains(x) || exists|j: int|
                    0 <= j < i && #[trigger] instruction_reads(block.instructions@[j], x),
            decreases block.instructions@.len() - i,
        {
            note_instruction_reads(&mut out, &block.instructions[i]);
            assert forall|x: u32| #[trigger] out@.contains(x) <==> before_block.contains(x) || exists|j: int|
                0 <= j < i + 1 && #[trigger] instruction_reads(block.instructions@[j], x) by {
                if instruction_reads(block.instructions@[i as int], x) {
                    assert(0 <= i < i + 1);
                }
            }
            i = i + 1;
        }
        note_terminator_reads(&mut out, &block.terminator);
        assert forall|x: u32| #[trigger] out@.contains(x) <==> (exists|c: int, i: int|
            0 <= c < b + 1 && 0 <= i < blocks@[c].instructions@.len() && #[trigger] instruction_reads(
                blocks@[c].instructions@[i],
                x,
            )) || (exists|c: int| 0 <= c < b + 1 && #[trigger] terminator_reads(blocks@[c].terminator, x)) by {
            if exists|j: int| 0 <= j < block.instructions@.len() && #[trigger] instruction_reads(block.instructions@[j], x) {
                let j = choose|j: int| 0 <= j < block.instructions@.len() && #[trigger] instruction_reads(block.instructions@[j], x);
                assert(instruction_reads(blocks@[b as int].instructions@[j], x));
            }
            if terminator_reads(block.terminator, x) {
                assert(terminator_reads(blocks@[b as int].terminator, x));
            }
            if exists|c: int, i: int|
                0 <= c < b + 1 && 0 <= i < blocks@[c].instructions@.len() && #[trigger] instruction_reads(
                    blocks@[c].instructions@[i],
                    x,
                ) {
                let (c, j) = choose|c: int, i: int|
                    0 <= c < b + 1 && 0 <= i < blocks@[c].instructions@.len() && #[trigger] instruction_reads(
                        blocks@[c].instructions@[i],
                        x,
                    );
                if c == b {
                    assert(instruction_reads(block.instructions@[j], x));
                }
            }
        }
        b = b + 1;
    }
    let ghost body_start = out@;
    note_regions_reads(&mut out, body);
    out
}

/// Whether the list holds `v`.
fn has_value(vs: &Vec<u32>, v: u32) -> (r: bool)
    ensures
        r == vs@.contains(v),
{
    let mut k: usize = 0;
    while k < vs.len()
        invariant
            k <= vs@.len(),
            forall|i: int| 0 <= i < k ==> vs@[i] != v,
        decreases vs@.len() - k,
    {
        if vs[k] == v {
            return true;
        }
        k = k + 1;
    }
    false
}

/// A literal whose value nothing in the function reads.
pub open spec fn is_dead_literal(inst: Instruction, blocks: Seq<BasicBlock>, body: Seq<CfgRegion>) -> bool {
    inst matches Instruction::Literal { result, .. } && !function_reads(blocks, body, result.0)
}

/// The instructions that dead-literal elimination keeps.
pub open spec fn live(blocks: Seq<BasicBlock>, body: Seq<CfgRegion>) -> spec_fn(Instruction) -> bool {
    |inst: Instruction| !is_dead_literal(inst, blocks, body)
}

/// `after` is `before` without the literals that nothing in the function reads;
/// each block keeps its label, parameters and terminator, and its other
/// instructions in order.
pub open spec fn pruned_blocks(before: Seq<BasicBlock>, after: Seq<BasicBlock>, body: Seq<CfgRegion>) -> bool {
    &&& before.len() == after.len()
    &&& forall|b: int| 0 <= b < before.len() ==> {
        &&& (#[trigger] after[b]).label == before[b].label
        &&& after[b].params == before[b].params
        &&& after[b].terminator == before[b].terminator
        &&& after[b].instructions@ == before[b].instructions@.filter(live(before, body))
    }
}

/// Removes the literals whose values nothing in the function reads.
fn prune_dead_literals(blocks: Vec<BasicBlock>, body: &Vec<CfgRegion>) -> (r: Vec<BasicBlock>)
    ensures
        pruned_blocks(blocks@, r@, body@),
{
    let used = collect_reads(&blocks, body);
    let ghost all = blocks@;
    let ghost pred = live(all, body@);
    let mut rest = blocks;
    let mut done: Vec<BasicBlock> = Vec::new();
    while rest.len() > 0
        invariant
            pred == live(all, body@),
            forall|x: u32| #[trigger] used@.contains(x) <==> function_reads(all, body@, x),
            done@.len() + rest@.len() == all.len(),
            rest@ == all.skip(done@.len() as int),
            forall|b: int| 0 <= b < done@.len() ==> {
                &&& (#[trigger] done@[b]).label == all[b].label
                &&& done@[b].params == all[b].params
                &&& done@[b].terminator == all[b].terminator
                &&& done@[b].instructions@ == all[b].instructions@.filter(pred)
            },
        decreases rest@.len(),
    {
        let ghost n = done@.len() as int;
        let block = rest.remove(0);
        assert(block == all[n]);
        let BasicBlock { label, params, instructions, terminator } = block;
        let ghost ins = instructions@;
        let mut kept: Vec<Instruction> = Vec::new();
        let mut pending = instructions;
        assert(ins.take(0) =~= Seq::<Instruction>::empty());
        assert(Seq::<Instruction>::empty().filter(pred) =~= Seq::<Instruction>::empty()) by {
            reveal(Seq::filter);
        }
        let ghost mut j: int = 0;
        while pending.len() > 0
            invariant
                pred == live(all, body@),
                forall|x: u32| #[trigger] used@.contains(x) <==> function_reads(all, body@, x),
                0 <= j <= ins.len(),
                pending@ == ins.skip(j),
                kept@ == ins.take(j).filter(pred),
            decreases pending@.len(),
        {
            let inst = pending.remove(0);
            assert(inst == ins[j]);
            proof {
                ins.take(j).lemma_filter_push(inst, pred);
                assert(ins.take(j).push(inst) =~= ins.take(j + 1));
            }
            let dead = match &inst {
                Instruction::Literal { result, .. } => !has_value(&used, result.0),
                _ => false,
            };
            if !dead {
                kept.push(inst);
            }
            proof { j = j + 1; }
            assert(pending@ =~= ins.skip(j));
        }
        assert(ins.take(ins.len() as int) =~= ins);
        done.push(BasicBlock { label, params, instructions: kept, terminator });
        assert(rest@ =~= all.skip(n + 1));
    }
    done
}

/// An instruction that folding leaves as it is under the constants `m`: a
/// binary operation or comparison on two known constants only where it is an
/// integer one that cannot be folded.
pub open spec fn settled(m: Map<u32, i64>, inst: Instruction) -> bool {
    match inst {
        Instruction::BinaryOp { op, lhs, rhs, ty, .. } => m.contains_key(lhs.0) && m.contains_key(rhs.0) ==> !is_float(ty)
            && int_binop(op, ty, m[lhs.0], m[rhs.0]) is None,
        Instruction::Compare { op, lhs, rhs, ty, .. } => m.contains_key(lhs.0) && m.contains_key(rhs.0) ==> !is_float(ty)
            && int_compare(op, ty, m[lhs.0], m[rhs.0]) is None,
        _ => true,
    }
}

/// The folding relation, read at one instruction.
proof fn lemma_folds_at<FB, FC>(m: Map<u32, i64>, ins: Seq<Instruction>, outs: Seq<Instruction>, fb: FB, fc: FC, k: int) where
    FB: Fn(BirBinOp, bool, i64, i64) -> i64,
    FC: Fn(BirCompareOp, bool, i64, i64) -> bool,

    requires
        folds_all(m, ins, outs, fb, fc),
        0 <= k < ins.len(),
    ensures
        ins.len() == outs.len(),
        folds_to(recorded(m, outs.take(k)), ins[k], outs[k], fb, fc),
    decreases ins.len(),
{
    if k == ins.len() - 1 {
        assert(outs.take(k) =~= outs.drop_last());
    } else {
        lemma_folds_at(m, ins.drop_last(), outs.drop_last(), fb, fc, k);
        assert(outs.drop_last().take(k) =~= outs.take(k));
    }
}

/// Folding leaves a settled instruction as it is.
proof fn lemma_settled_fold<FB, FC>(m: Map<u32, i64>, inst: Instruction, out: Instruction, fb: FB, fc: FC) where
    FB: Fn(BirBinOp, bool, i64, i64) -> i64,
    FC: Fn(BirCompareOp, bool, i64, i64) -> bool,

    requires
        settled(m, inst),
        folds_to(m, inst, out, fb, fc),
    ensures
        out == inst,
{
}

/// Folding changes nothing in a list whose instructions are all settled.
proof fn lemma_settled_folds_to_itself<FB, FC>(m: Map<u32, i64>, ins: Seq<Instruction>, outs: Seq<Instruction>, fb: FB, fc: FC) where
    FB: Fn(BirBinOp, bool, i64, i64) -> i64,
    FC: Fn(BirCompareOp, bool, i64, i64) -> bool,

    requires
        forall|k: int| 0 <= k < ins.len() ==> settled(recorded(m, ins.take(k)), #[trigger] ins[k]),
        folds_all(m, ins, outs, fb, fc),
    ensures
        outs == ins,
    decreases ins.len(),
{
    if ins.len() > 0 {
        let n = ins.len() - 1;
        assert forall|k: int| 0 <= k < ins.drop_last().len() implies settled(
            recorded(m, ins.drop_last().take(k)),
            #[trigger] ins.drop_last()[k],
        ) by {
            assert(ins.drop_last().take(k) =~= ins.take(k));
            assert(settled(recorded(m, ins.take(k)), ins[k]));
        }
        lemma_settled_folds_to_itself(m, ins.drop_last(), outs.drop_last(), fb, fc);
        assert(ins.take(n) =~= ins.drop_last());
        assert(settled(recorded(m, ins.take(n)), ins[n]));
        assert(folds_to(recorded(m, outs.drop_last()), ins.last(), outs.last(), fb, fc));
        lemma_settled_fold(recorded(m, outs.drop_last()), ins.last(), outs.last(), fb, fc);
        assert forall|i: int| 0 <= i < ins.len() implies outs[i] == ins[i] by {
            if i < n {
                assert(outs.drop_last()[i] == ins.drop_last()[i]);
            }
        }
        assert(outs =~= ins);
    } else {
        assert(outs =~= ins);
    }
}

/// Folding a list of settled instructions gives the list itself.
proof fn lemma_settled_folds_all<FB, FC>(m: Map<u32, i64>, ins: Seq<Instruction>, fb: FB, fc: FC) where
    FB: Fn(BirBinOp, bool, i64, i64) -> i64,
    FC: Fn(BirCompareOp, bool, i64, i64) -> bool,

    requires
        forall|k: int| 0 <= k < ins.len() ==> settled(recorded(m, ins.take(k)), #[trigger] ins[k]),
    ensures
        folds_all(m, ins, ins, fb, fc),
    decreases ins.len(),
{
    if ins.len() > 0 {
        let n = ins.len() - 1;
        assert forall|k: int| 0 <= k < ins.drop_last().len() implies settled(
            recorded(m, ins.drop_last().take(k)),
            #[trigger] ins.drop_last()[k],
        ) by {
            assert(ins.drop_last().take(k) =~= ins.take(k));
            assert(settled(recorded(m, ins.take(k)), ins[k]));
        }
        lemma_settled_folds_all(m, ins.drop_last(), fb, fc);
        assert(ins.take(n) =~= ins.drop_last());
        assert(settled(recorded(m, ins.take(n)), ins[n]));
    }
}

/// The constants known of a value that the function reads are the same whether
/// or not the unread literals before it are counted.
proof fn lemma_recorded_filter(
    m: Map<u32, i64>,
    s: Seq<Instruction>,
    blocks: Seq<BasicBlock>,
    body: Seq<CfgRegion>,
    x: u32,
)
    requires
        function_reads(blocks, body, x),
    ensures
        recorded(m, s.filter(live(blocks, body))).contains_key(x) == recorded(m, s).contains_key(x),
        recorded(m, s).contains_key(x) ==> recorded(m, s.filter(live(blocks, body)))[x] == recorded(m, s)[x],
    decreases s.len(),
{
    let pred = live(blocks, body);
    if s.len() > 0 {
        lemma_recorded_filter(m, s.drop_last(), blocks, body, x);
        s.drop_last().lemma_filter_push(s.last(), pred);
        assert(s.drop_last().push(s.last()) =~= s);
        let t = s.drop_last().filter(pred);
        if pred(s.last()) {
            assert(s.filter(pred) == t.push(s.last()));
            assert(t.push(s.last()).drop_last() =~= t);
        }
    } else {
        assert(s.filter(pred) =~= s) by {
            reveal(Seq::filter);
        }
    }
}

/// An element of a filtered list, found in the list: the part before it filters to
/// the part of the filtered list before it.
proof fn lemma_filter_index(s: Seq<Instruction>, pred: spec_fn(Instruction) -> bool, k: int) -> (j: int)
    requires
        0 <= k < s.filter(pred).len(),
    ensures
        0 <= j < s.len(),
        s[j] == s.filter(pred)[k],
        s.take(j).filter(pred) == s.filter(pred).take(k),
    decreases s.len(),
{
    reveal(Seq::filter);
    let t = s.drop_last();
    assert(t.push(s.last()) =~= s);
    t.lemma_filter_push(s.last(), pred);
    if pred(s.last()) && k == t.filter(pred).len() {
        assert(s.take(t.len() as int) =~= t);
        assert(s.filter(pred).take(k) =~= t.filter(pred));
        t.len() as int
    } else {
        if !pred(s.last()) {
            assert(s.filter(pred) == t.filter(pred));
        }
        let j = lemma_filter_index(t, pred, k);
        assert(t.take(j) =~= s.take(j));
        assert(t.filter(pred).take(k) =~= s.filter(pred).take(k));
        j
    }
}

/// An instruction of the concatenated blocks is an instruction of one block.
proof fn lemma_all_instructions_index(bs: Seq<BasicBlock>, j: int) -> (bi: (int, int))
    requires
        0 <= j < all_instructions(bs).len(),
    ensures
        0 <= bi.0 < bs.len(),
        0 <= bi.1 < bs[bi.0].instructions@.len(),
        all_instructions(bs)[j] == bs[bi.0].instructions@[bi.1],
    decreases bs.len(),
{
    let prev = all_instructions(bs.drop_last());
    if j < prev.len() {
        let (b, i) = lemma_all_instructions_index(bs.drop_last(), j);
        (b, i)
    } else {
        (bs.len() - 1, j - prev.len())
    }
}

/// The instructions of a prefix of the blocks, each block filtered, are those of
/// the prefix filtered.
proof fn lemma_all_instructions_filter(
    before: Seq<BasicBlock>,
    after: Seq<BasicBlock>,
    pred: spec_fn(Instruction) -> bool,
    n: int,
)
    requires
        before.len() == after.len(),
        0 <= n <= before.len(),
        forall|b: int| 0 <= b < before.len() ==> (#[trigger] after[b]).instructions@ == before[b].instructions@.filter(pred),
    ensures
        all_instructions(after.take(n)) == all_instructions(before.take(n)).filter(pred),
    decreases n,
{
    if n == 0 {
        assert(all_instructions(before.take(0)) =~= Seq::<Instruction>::empty());
        assert(all_instructions(after.take(0)) =~= Seq::<Instruction>::empty());
        assert(Seq::<Instruction>::empty().filter(pred) =~= Seq::<Instruction>::empty()) by {
            reveal(Seq::filter);
        }
    } else {
        lemma_all_instructions_filter(before, after, pred, n - 1);
        assert(before.take(n).drop_last() =~= before.take(n - 1));
        assert(after.take(n).drop_last() =~= after.take(n - 1));
        assert(after[n - 1].instructions@ == before[n - 1].instructions@.filter(pred));
        Seq::filter_distributes_over_add(all_instructions(before.take(n - 1)), before[n - 1].instructions@, pred);
    }
}

/// After folding and dead-literal elimination every instruction is settled.
proof fn lemma_optimized_settled<FB, FC>(
    before: Seq<BasicBlock>,
    folded: Seq<BasicBlock>,
    after: Seq<BasicBlock>,
    body: Seq<CfgRegion>,
    fb: FB,
    fc: FC,
) where
    FB: Fn(BirBinOp, bool, i64, i64) -> i64,
    FC: Fn(BirCompareOp, bool, i64, i64) -> bool,

    requires
        folded_blocks(before, folded, fb, fc),
        pruned_blocks(folded, after, body),
    ensures
        forall|k: int|
            0 <= k < all_instructions(after).len() ==> settled(
                recorded(Map::empty(), all_instructions(after).take(k)),
                #[trigger] all_instructions(after)[k],
            ),
{
    let pred = live(folded, body);
    let all_f = all_instructions(folded);
    let all_p = all_instructions(after);
    lemma_all_instructions_filter(folded, after, pred, folded.len() as int);
    assert(folded.take(folded.len() as int) =~= folded);
    assert(after.take(after.len() as int) =~= after);
    assert(all_p == all_f.filter(pred));
    assert forall|k: int| 0 <= k < all_p.len() implies settled(
        recorded(Map::empty(), all_p.take(k)),
        #[trigger] all_p[k],
    ) by {
        let j = lemma_filter_index(all_f, pred, k);
        lemma_folds_at(Map::empty(), all_instructions(before), all_f, fb, fc, j);
        let mf = recorded(Map::empty(), all_f.take(j));
        let mp = recorded(Map::empty(), all_p.take(k));
        assert(settled(mf, all_f[j]));
        let (b, i) = lemma_all_instructions_index(folded, j);
        match all_f[j] {
            Instruction::BinaryOp { lhs, rhs, .. } => {
                assert(instruction_reads(folded[b].instructions@[i], lhs.0));
                assert(instruction_reads(folded[b].instructions@[i], rhs.0));
                lemma_recorded_filter(Map::empty(), all_f.take(j), folded, body, lhs.0);
                lemma_recorded_filter(Map::empty(), all_f.take(j), folded, body, rhs.0);
            },
            Instruction::Compare { lhs, rhs, .. } => {
                assert(instruction_reads(folded[b].instructions@[i], lhs.0));
                assert(instruction_reads(folded[b].instructions@[i], rhs.0));
                lemma_recorded_filter(Map::empty(), all_f.take(j), folded, body, lhs.0);
                lemma_recorded_filter(Map::empty(), all_f.take(j), folded, body, rhs.0);
            },
            _ => {},
        }
    }
}

/// Blocks with instruction lists of the same lengths give concatenations of the same length.
proof fn lemma_all_instructions_len(p: Seq<BasicBlock>, q: Seq<BasicBlock>)
    requires
        p.len() == q.len(),
        forall|b: int| 0 <= b < p.len() ==> (#[trigger] q[b]).instructions@.len() == p[b].instructions@.len(),
    ensures
        all_instructions(p).len() == all_instructions(q).len(),
    decreases p.len(),
{
    if p.len() > 0 {
        assert forall|b: int| 0 <= b < p.drop_last().len() implies (#[trigger] q.drop_last()[b]).instructions@.len()
            == p.drop_last()[b].instructions@.len() by {
            assert(q[b].instructions@.len() == p[b].instructions@.len());
        }
        lemma_all_instructions_len(p.drop_last(), q.drop_last());
        assert(q[q.len() - 1].instructions@.len() == p[p.len() - 1].instructions@.len());
    }
}

/// Blocks with instruction lists of the same lengths and the same concatenation
/// have the same instructions, block by block.
proof fn lemma_same_block_instructions(p: Seq<BasicBlock>, q: Seq<BasicBlock>)
    requires
        p.len() == q.len(),
        forall|b: int| 0 <= b < p.len() ==> (#[trigger] q[b]).instructions@.len() == p[b].instructions@.len(),
        all_instructions(q) == all_instructions(p),
    ensures
        forall|b: int| 0 <= b < p.len() ==> (#[trigger] q[b]).instructions@ == p[b].instructions@,
    decreases p.len(),
{
    if p.len() > 0 {
        let n = p.len() - 1;
        assert forall|b: int| 0 <= b < p.drop_last().len() implies (#[trigger] q.drop_last()[b]).instructions@.len()
            == p.drop_last()[b].instructions@.len() by {
            assert(q[b].instructions@.len() == p[b].instructions@.len());
        }
        lemma_all_instructions_len(p.drop_last(), q.drop_last());
        let a = all_instructions(p.drop_last());
        let a2 = all_instructions(q.drop_last());
        let l = p[n].instructions@;
        let l2 = q[n].instructions@;
        assert(a + l == a2 + l2);
        assert(a =~= (a + l).take(a.len() as int));
        assert(a2 =~= (a2 + l2).take(a2.len() as int));
        assert(l =~= (a + l).skip(a.len() as int));
        assert(l2 =~= (a2 + l2).skip(a2.len() as int));
        lemma_same_block_instructions(p.drop_last(), q.drop_last());
        assert forall|b: int| 0 <= b < p.len() implies (#[trigger] q[b]).instructions@ == p[b].instructions@ by {
            if b < n {
                assert(q.drop_last()[b].instructions@ == p.drop_last()[b].instructions@);
            }
        }
    }
}

/// Filtering a list whose elements all pass leaves it as it is.
proof fn lemma_filter_keeps_all(s: Seq<Instruction>, pred: spec_fn(Instruction) -> bool)
    requires
        forall|i: int| 0 <= i < s.len() ==> pred(#[trigger] s[i]),
    ensures
        s.filter(pred) == s,
    decreases s.len(),
{
    reveal(Seq::filter);
    if s.len() > 0 {
        assert forall|i: int| 0 <= i < s.drop_last().len() implies pred(#[trigger] s.drop_last()[i]) by {
            assert(pred(s[i]));
        }
        lemma_filter_keeps_all(s.drop_last(), pred);
        assert(pred(s[s.len() - 1]));
        assert(s.drop_last().push(s.last()) =~= s);
    } else {
        assert(s.filter(pred) =~= s);
    }
}

/// Dead-literal elimination keeps every value that the function reads read.
proof fn lemma_pruned_reads(folded: Seq<BasicBlock>, after: Seq<BasicBlock>, body: Seq<CfgRegion>, x: u32)
    requires
        pruned_blocks(folded, after, body),
        function_reads(folded, body, x),
    ensures
        function_reads(after, body, x),
{
    let pred = live(folded, body);
    if instructions_read(folded, x) {
        let (b, i) = choose|b: int, i: int|
            0 <= b < folded.len() && 0 <= i < folded[b].instructions@.len() && #[trigger] instruction_reads(
                folded[b].instructions@[i],
                x,
            );
        let inst = folded[b].instructions@[i];
        assert(pred(inst));
        folded[b].instructions@.lemma_filter_contains(pred, i);
        assert(after[b].instructions@ == folded[b].instructions@.filter(pred));
        let i2 = after[b].instructions@.index_of(inst);
        assert(instruction_reads(after[b].instructions@[i2], x));
    } else if terminators_read(folded, x) {
        let b = choose|b: int| 0 <= b < folded.len() && #[trigger] terminator_reads(folded[b].terminator, x);
        assert(after[b].terminator == folded[b].terminator);
        assert(terminator_reads(after[b].terminator, x));
    }
}

/// Optimizing an optimized function changes nothing more: a second pass keeps
/// its name, signature and skeleton, and every block's label, parameters,
/// terminator and instructions.
pub proof fn law_optimize_idempotent<FB, FC>(f0: BirFunction, f1: BirFunction, f2: BirFunction, fb: FB, fc: FC) where
    FB: Fn(BirBinOp, bool, i64, i64) -> i64,
    FC: Fn(BirCompareOp, bool, i64, i64) -> bool,

    requires
        optimized_function(f0, f1, fb, fc),
        optimized_function(f1, f2, fb, fc),
    ensures
        f2.name == f1.name,
        f2.type_params == f1.type_params,
        f2.params == f1.params,
        f2.return_type == f1.return_type,
        f2.body == f1.body,
        f2.blocks@.len() == f1.blocks@.len(),
        forall|b: int|
            0 <= b < f1.blocks@.len() ==> {
                &&& (#[trigger] f2.blocks@[b]).label == f1.blocks@[b].label
                &&& f2.blocks@[b].params == f1.blocks@[b].params
                &&& f2.blocks@[b].terminator == f1.blocks@[b].terminator
                &&& f2.blocks@[b].instructions@ == f1.blocks@[b].instructions@
            },
{
    let body = f1.body@;
    let p = f1.blocks@;
    let f = choose|folded: Seq<BasicBlock>|
        folded_blocks(f0.blocks@, folded, fb, fc) && #[trigger] pruned_blocks(folded, f1.blocks@, f0.body@);
    let q = choose|folded: Seq<BasicBlock>|
        folded_blocks(f1.blocks@, folded, fb, fc) && #[trigger] pruned_blocks(folded, f2.blocks@, f1.body@);
    assert(f0.body@ == body);
    lemma_optimized_settled(f0.blocks@, f, p, body, fb, fc);
    lemma_settled_folds_to_itself(Map::empty(), all_instructions(p), all_instructions(q), fb, fc);
    lemma_same_block_instructions(p, q);
    assert forall|b: int| 0 <= b < p.len() implies (#[trigger] q[b].instructions@).filter(live(q, body)) == p[b].instructions@ by {
        let ins = p[b].instructions@;
        assert forall|i: int| 0 <= i < ins.len() implies live(q, body)(#[trigger] ins[i]) by {
            if ins[i] is Literal {
                let pf = live(f, body);
                assert(ins == f[b].instructions@.filter(pf));
                f[b].instructions@.lemma_filter_pred(pf, i);
                assert(pf(ins[i]));
                let r = ins[i]->Literal_result;
                assert(function_reads(f, body, r.0));
                lemma_pruned_reads(f, p, body, r.0);
                assert(function_reads(p, body, r.0));
                if instructions_read(p, r.0) {
                    let (c, j) = choose|c: int, j: int|
                        0 <= c < p.len() && 0 <= j < p[c].instructions@.len() && #[trigger] instruction_reads(
                            p[c].instructions@[j],
                            r.0,
                        );
                    assert(q[c].instructions@ == p[c].instructions@);
                    assert(instruction_reads(q[c].instructions@[j], r.0));
                } else if terminators_read(p, r.0) {
                    let c = choose|c: int| 0 <= c < p.len() && #[trigger] terminator_reads(p[c].terminator, r.0);
                    assert(terminator_reads(q[c].terminator, r.0));
                }
                assert(function_reads(q, body, r.0));
            }
        }
        assert(q[b].instructions@ == ins);
        lemma_filter_keeps_all(ins, live(q, body));
    }
}

/// `after` is `before` with every function optimized and the tables unchanged.
pub open spec fn optimized_module<FB, FC>(before: BirModule, after: BirModule, fb: FB, fc: FC) -> bool where
    FB: Fn(BirBinOp, bool, i64, i64) -> i64,
    FC: Fn(BirCompareOp, bool, i64, i64) -> bool,
 {
    &&& after.struct_layouts == before.struct_layouts
    &&& after.struct_type_params == before.struct_type_params
    &&& after.conformance_map == before.conformance_map
    &&& after.functions@.len() == before.functions@.len()
    &&& forall|i: int| 0 <= i < before.functions@.len() ==> optimized_function(
        #[trigger] before.functions@[i],
        after.functions@[i],
        fb,
        fc,
    )
}

/// The same function: name, signature, skeleton, and every block's label,
/// parameters, terminator and instructions.
pub open spec fn same_function(f: BirFunction, g: BirFunction) -> bool {
    &&& f.name == g.name
    &&& f.type_params == g.type_params
    &&& f.params == g.params
    &&& f.return_type == g.return_type
    &&& f.body == g.body
    &&& f.blocks@.len() == g.blocks@.len()
    &&& forall|b: int|
        0 <= b < g.blocks@.len() ==> {
            &&& (#[trigger] f.blocks@[b]).label == g.blocks@[b].label
            &&& f.blocks@[b].params == g.blocks@[b].params
            &&& f.blocks@[b].terminator == g.blocks@[b].terminator
            &&& f.blocks@[b].instructions@ == g.blocks@[b].instructions@
        }
}

/// Optimizing an optimized module changes nothing more: the tables stay, and
/// every function stays the same.
pub proof fn law_optimize_module_idempotent<FB, FC>(m0: BirModule, m1: BirModule, m2: BirModule, fb: FB, fc: FC) where
    FB: Fn(BirBinOp, bool, i64, i64) -> i64,
    FC: Fn(BirCompareOp, bool, i64, i64) -> bool,

    requires
        optimized_module(m0, m1, fb, fc),
        optimized_module(m1, m2, fb, fc),
    ensures
        m2.struct_layouts == m1.struct_layouts,
        m2.struct_type_params == m1.struct_type_params,
        m2.conformance_map == m1.conformance_map,
        m2.functions@.len() == m1.functions@.len(),
        forall|i: int| 0 <= i < m1.functions@.len() ==> same_function(#[trigger] m2.functions@[i], m1.functions@[i]),
{
    assert forall|i: int| 0 <= i < m1.functions@.len() implies same_function(#[trigger] m2.functions@[i], m1.functions@[i]) by {
        assert(optimized_function(m0.functions@[i], m1.functions@[i], fb, fc));
        assert(optimized_function(m1.functions@[i], m2.functions@[i], fb, fc));
        law_optimize_idempotent(m0.functions@[i], m1.functions@[i], m2.functions@[i], fb, fc);
    }
}


/// Folds constants in every function of a module, then removes the literals
/// whose values nothing in their function reads (dead code).
///
/// Integer operations are folded with wrapping arithmetic; `float_binop` and `float_compare`
/// compute floating-point operations on the raw bits of two constants (their `bool` is `true`
/// for `Float64`, `false` for `Float32`).
pub fn optimize_module<FB, FC>(module: &mut BirModule, float_binop: &FB, float_compare: &FC) where
    FB: Fn(BirBinOp, bool, i64, i64) -> i64,
    FC: Fn(BirCompareOp, bool, i64, i64) -> bool,
    requires
        forall|o: BirBinOp, w: bool, a: i64, b: i64| float_binop.requires((o, w, a, b)),
        forall|o: BirCompareOp, w: bool, a: i64, b: i64| float_compare.requires((o, w, a, b)),
    ensures
        optimized_module(*old(module), *final(module), *float_binop, *float_compare),
{
    let mut rest: Vec<BirFunction> = Vec::new();
    std::mem::swap(&mut rest, &mut module.functions);
    let ghost all = rest@;
    let mut done: Vec<BirFunction> = Vec::new();
    while rest.len() > 0
        invariant
            forall|o: BirBinOp, w: bool, a: i64, b: i64| float_binop.requires((o, w, a, b)),
            forall|o: BirCompareOp, w: bool, a: i64, b: i64| float_compare.requires((o, w, a, b)),
            done@.len() + rest@.len() == all.len(),
            rest@ == all.skip(done@.len() as int),
            forall|i: int| 0 <= i < done@.len() ==> optimized_function(all[i], #[trigger] done@[i], *float_binop, *float_compare),
        decreases rest@.len(),
    {
        let ghost n = done@.len() as int;
        let func = rest.remove(0);
        assert(func == all[n]);
        let BirFunction { name, type_params, params, return_type, blocks, body } = func;
        let ghost before_blocks = blocks@;
        let folded = fold_constants(blocks, float_binop, float_compare);
        let ghost folded_v = folded@;
        let blocks = prune_dead_literals(folded, &body);
        assert(folded_blocks(before_blocks, folded_v, *float_binop, *float_compare)
            && pruned_blocks(folded_v, blocks@, body@));
        let f = BirFunction { name, type_params, params, return_type, blocks, body };
        assert(folded_blocks(all[n].blocks@, folded_v, *float_binop, *float_compare));
        assert(pruned_blocks(folded_v, f.blocks@, all[n].body@));
        assert(optimized_function(all[n], f, *float_binop, *float_compare));
        let ghost old_done = done@;
        done.push(f);
        assert forall|i: int| 0 <= i < done@.len() implies optimized_function(all[i], #[trigger] done@[i], *float_binop, *float_compare) by {
            if i < n {
                assert(done@[i] == old_done[i]);
            }
        }
        assert(rest@ =~= all.skip(n + 1));
    }
    module.functions = done;
}

} // verus!
