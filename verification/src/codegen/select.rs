//! Choosing the machine operation for each arithmetic BIR instruction.
use vstd::prelude::*;

use crate::bir::instruction::{lemma_views, views, BirBinOp, BirCompareOp, BirModule, BirType, TypeV, Value};
use crate::bir::optimize::{bir_arith_holds, compare_ints, is_truncated_quotient};
use crate::bir::mono::{instance_subst, resolve, resolve_bir_type_lenient, strings_view, subst_view, Instance};
use crate::codegen::types::{find_layout, layout_named, types_view};
use crate::error::BengalError;
use crate::mangle::args_code;
use crate::text::push_str;
use std::collections::HashMap;

verus! {

/// A machine arithmetic operation.
#[derive(Debug, Clone, Copy, PartialEq, Eq, Structural)]
pub enum BinOpKind {
    IntAdd,
    IntSub,
    IntMul,
    IntSignedDiv,
    FloatAdd,
    FloatSub,
    FloatMul,
    FloatDiv,
}

/// The operation for an arithmetic operator on values of a type; none for a
/// type that is neither an integer nor a float.
pub open spec fn binop_kind(op: BirBinOp, ty: TypeV) -> Option<BinOpKind> {
    match ty {
        TypeV::I32 | TypeV::I64 => Some(
            match op {
                BirBinOp::Add => BinOpKind::IntAdd,
                BirBinOp::Sub => BinOpKind::IntSub,
                BirBinOp::Mul => BinOpKind::IntMul,
                BirBinOp::Div => BinOpKind::IntSignedDiv,
            },
        ),
        TypeV::F32 | TypeV::F64 => Some(
            match op {
                BirBinOp::Add => BinOpKind::FloatAdd,
                BirBinOp::Sub => BinOpKind::FloatSub,
                BirBinOp::Mul => BinOpKind::FloatMul,
                BirBinOp::Div => BinOpKind::FloatDiv,
            },
        ),
        _ => None,
    }
}

/// Whether `c` is what a machine operation gives on `a` and `b`, computed exactly: integer
/// division is signed and rounds toward zero, float division is exact.
pub open spec fn kind_holds(k: BinOpKind, a: int, b: int, c: int) -> bool {
    match k {
        BinOpKind::IntAdd | BinOpKind::FloatAdd => c == a + b,
        BinOpKind::IntSub | BinOpKind::FloatSub => c == a - b,
        BinOpKind::IntMul | BinOpKind::FloatMul => c == a * b,
        BinOpKind::IntSignedDiv => b != 0 && is_truncated_quotient(a, b, c),
        BinOpKind::FloatDiv => b != 0 && c * b == a,
    }
}

/// Whether a machine operation works on integers.
pub open spec fn is_int_kind(k: BinOpKind) -> bool {
    k is IntAdd || k is IntSub || k is IntMul || k is IntSignedDiv
}

/// The machine operation chosen for a BIR arithmetic operator computes what the operator does:
/// on integer types an integer operation with the same result on every pair of operands, on
/// float types a float operation with the same result (division exact where the quotient is);
/// other types get none.
pub proof fn law_arith_plan_keeps_its_meaning(op: BirBinOp, ty: TypeV, a: int, b: int, c: int)
    ensures
        (ty is I32 || ty is I64) ==> (binop_kind(op, ty) matches Some(k) && is_int_kind(k)
            && kind_holds(k, a, b, c) == bir_arith_holds(op, a, b, c)),
        (ty is F32 || ty is F64) ==> (binop_kind(op, ty) matches Some(k) && !is_int_kind(k)
            && (!(op is Div) ==> kind_holds(k, a, b, c) == bir_arith_holds(op, a, b, c))
            && (op is Div <==> k is FloatDiv)),
        !(ty is I32 || ty is I64 || ty is F32 || ty is F64) ==> binop_kind(op, ty) is None,
{
}

/// The operation for an arithmetic operator on values of a type.
pub fn select_binop(op: BirBinOp, ty: &BirType) -> (r: Option<BinOpKind>)
    ensures
        r == binop_kind(op, ty@),
{
    match ty {
        BirType::I32 | BirType::I64 => Some(
            match op {
                BirBinOp::Add => BinOpKind::IntAdd,
                BirBinOp::Sub => BinOpKind::IntSub,
                BirBinOp::Mul => BinOpKind::IntMul,
                BirBinOp::Div => BinOpKind::IntSignedDiv,
            },
        ),
        BirType::F32 | BirType::F64 => Some(
            match op {
                BirBinOp::Add => BinOpKind::FloatAdd,
                BirBinOp::Sub => BinOpKind::FloatSub,
                BirBinOp::Mul => BinOpKind::FloatMul,
                BirBinOp::Div => BinOpKind::FloatDiv,
            },
        ),
        _ => None,
    }
}

/// A comparison of integers, signed.
#[derive(Debug, Clone, Copy, PartialEq, Eq, Structural)]
pub enum IntPredicate {
    Eq,
    Ne,
    Slt,
    Sgt,
    Sle,
    Sge,
}

/// An ordered comparison of floats: false when either side is NaN.
#[derive(Debug, Clone, Copy, PartialEq, Eq, Structural)]
pub enum FloatPredicate {
    Oeq,
    One,
    Olt,
    Ogt,
    Ole,
    Oge,
}

/// How two values are compared.
#[derive(Debug, Clone, Copy, PartialEq, Eq, Structural)]
pub enum ComparePlan {
    Int(IntPredicate),
    Float(FloatPredicate),
}

/// The comparison for a comparison operator on values of a type: integers and
/// booleans compare as signed integers, floats with ordered predicates; none
/// for other types.
pub open spec fn compare_plan(op: BirCompareOp, ty: TypeV) -> Option<ComparePlan> {
    match ty {
        TypeV::I32 | TypeV::I64 | TypeV::Bool => Some(
            ComparePlan::Int(
                match op {
                    BirCompareOp::Eq => IntPredicate::Eq,
                    BirCompareOp::Ne => IntPredicate::Ne,
                    BirCompareOp::Lt => IntPredicate::Slt,
                    BirCompareOp::Gt => IntPredicate::Sgt,
                    BirCompareOp::Le => IntPredicate::Sle,
                    BirCompareOp::Ge => IntPredicate::Sge,
                },
            ),
        ),
        TypeV::F32 | TypeV::F64 => Some(
            ComparePlan::Float(
                match op {
                    BirCompareOp::Eq => FloatPredicate::Oeq,
                    BirCompareOp::Ne => FloatPredicate::One,
                    BirCompareOp::Lt => FloatPredicate::Olt,
                    BirCompareOp::Gt => FloatPredicate::Ogt,
                    BirCompareOp::Le => FloatPredicate::Ole,
                    BirCompareOp::Ge => FloatPredicate::Oge,
                },
            ),
        ),
        _ => None,
    }
}

/// Whether a signed integer predicate holds of two integers.
pub open spec fn int_predicate_holds(p: IntPredicate, l: int, r: int) -> bool {
    match p {
        IntPredicate::Eq => l == r,
        IntPredicate::Ne => l != r,
        IntPredicate::Slt => l < r,
        IntPredicate::Sgt => l > r,
        IntPredicate::Sle => l <= r,
        IntPredicate::Sge => l >= r,
    }
}

/// Whether an ordered float predicate holds of two operands, `None` standing for NaN:
/// false when either is NaN, else the comparison of the two numbers.
pub open spec fn float_predicate_holds(p: FloatPredicate, l: Option<int>, r: Option<int>) -> bool {
    match (l, r) {
        (Some(a), Some(b)) => match p {
            FloatPredicate::Oeq => a == b,
            FloatPredicate::One => a != b,
            FloatPredicate::Olt => a < b,
            FloatPredicate::Ogt => a > b,
            FloatPredicate::Ole => a <= b,
            FloatPredicate::Oge => a >= b,
        },
        _ => false,
    }
}

/// The machine comparison chosen for a BIR comparison holds of two operands exactly when the
/// BIR comparison does: integers and booleans get a signed integer predicate, floats an
/// ordered one that agrees on every pair of numbers; other types get none.
pub proof fn law_comparison_plan_keeps_its_meaning(op: BirCompareOp, ty: TypeV, l: int, r: int)
    ensures
        (ty is I32 || ty is I64 || ty is Bool) ==> (compare_plan(op, ty) matches Some(ComparePlan::Int(p))
            && int_predicate_holds(p, l, r) == compare_ints(op, l, r)),
        (ty is F32 || ty is F64) ==> (compare_plan(op, ty) matches Some(ComparePlan::Float(p))
            && float_predicate_holds(p, Some(l), Some(r)) == compare_ints(op, l, r)),
        !(ty is I32 || ty is I64 || ty is Bool || ty is F32 || ty is F64) ==> compare_plan(op, ty) is None,
{
}

/// The comparison for a comparison operator on values of a type.
pub fn select_compare(op: BirCompareOp, ty: &BirType) -> (r: Option<ComparePlan>)
    ensures
        r == compare_plan(op, ty@),
{
    match ty {
        BirType::I32 | BirType::I64 | BirType::Bool => Some(
            ComparePlan::Int(
                match op {
                    BirCompareOp::Eq => IntPredicate::Eq,
                    BirCompareOp::Ne => IntPredicate::Ne,
                    BirCompareOp::Lt => IntPredicate::Slt,
                    BirCompareOp::Gt => IntPredicate::Sgt,
                    BirCompareOp::Le => IntPredicate::Sle,
                    BirCompareOp::Ge => IntPredicate::Sge,
                },
            ),
        ),
        BirType::F32 | BirType::F64 => Some(
            ComparePlan::Float(
                match op {
                    BirCompareOp::Eq => FloatPredicate::Oeq,
                    BirCompareOp::Ne => FloatPredicate::One,
                    BirCompareOp::Lt => FloatPredicate::Olt,
                    BirCompareOp::Gt => FloatPredicate::Ogt,
                    BirCompareOp::Le => FloatPredicate::Ole,
                    BirCompareOp::Ge => FloatPredicate::Oge,
                },
            ),
        ),
        _ => None,
    }
}

/// How a value is converted from one type to another.
#[derive(Debug, Clone, Copy, PartialEq, Eq, Structural)]
pub enum CastPlan {
    /// The types are the same: the value is kept.
    Keep,
    SignExtend,
    Truncate,
    SignedIntToFloat,
    FloatToSignedInt,
    FloatExtend,
    FloatTruncate,
    ZeroExtend,
}

/// The conversion between two types; none for a pair that cannot be converted.
pub open spec fn cast_plan(from: TypeV, to: TypeV) -> Option<CastPlan> {
    if from == to {
        Some(CastPlan::Keep)
    } else {
        match (from, to) {
            (TypeV::I32, TypeV::I64) => Some(CastPlan::SignExtend),
            (TypeV::I64, TypeV::I32) => Some(CastPlan::Truncate),
            (TypeV::I32, TypeV::F32) | (TypeV::I32, TypeV::F64) | (TypeV::I64, TypeV::F32) | (TypeV::I64, TypeV::F64) => Some(
                CastPlan::SignedIntToFloat,
            ),
            (TypeV::F32, TypeV::I32) | (TypeV::F32, TypeV::I64) | (TypeV::F64, TypeV::I32) | (TypeV::F64, TypeV::I64) => Some(
                CastPlan::FloatToSignedInt,
            ),
            (TypeV::F32, TypeV::F64) => Some(CastPlan::FloatExtend),
            (TypeV::F64, TypeV::F32) => Some(CastPlan::FloatTruncate),
            (TypeV::Bool, TypeV::I32) | (TypeV::Bool, TypeV::I64) => Some(CastPlan::ZeroExtend),
            _ => None,
        }
    }
}

/// The conversion between two types.
pub fn select_cast(from: &BirType, to: &BirType) -> (r: Option<CastPlan>)
    ensures
        r == cast_plan(from@, to@),
{
    if from.same(to) {
        return Some(CastPlan::Keep);
    }
    match (from, to) {
        (BirType::I32, BirType::I64) => Some(CastPlan::SignExtend),
        (BirType::I64, BirType::I32) => Some(CastPlan::Truncate),
        (BirType::I32, BirType::F32) | (BirType::I32, BirType::F64) | (BirType::I64, BirType::F32) | (
            BirType::I64,
            BirType::F64,
        ) => Some(CastPlan::SignedIntToFloat),
        (BirType::F32, BirType::I32) | (BirType::F32, BirType::I64) | (BirType::F64, BirType::I32) | (
            BirType::F64,
            BirType::I64,
        ) => Some(CastPlan::FloatToSignedInt),
        (BirType::F32, BirType::F64) => Some(CastPlan::FloatExtend),
        (BirType::F64, BirType::F32) => Some(CastPlan::FloatTruncate),
        (BirType::Bool, BirType::I32) | (BirType::Bool, BirType::I64) => Some(CastPlan::ZeroExtend),
        _ => None,
    }
}

/// The constant a literal stands for.
#[derive(Debug, Clone, Copy, PartialEq, Eq, Structural)]
pub enum LiteralPlan {
    /// A literal of type `()` produces nothing.
    Nothing,
    /// A 32-bit integer, from the low 32 bits of the value.
    Int32(u64),
    /// A 64-bit integer, sign-extended.
    Int64(u64),
    /// A 32-bit float whose bits are the low 32 bits of the value.
    Float32Bits(u32),
    /// A 64-bit float whose bits are those of the value.
    Float64Bits(u64),
    Bool(u64),
    /// Structs and arrays have no literal constant.
    Unsupported,
}

/// Whether a type can appear in generated code: no type parameter or error type at the top.
pub open spec fn is_codegen_type(t: TypeV) -> bool {
    !(t is TypeParam) && !(t is Error)
}

/// The constant for a literal of a type: the BIR literal carries the raw bits of floats.
pub open spec fn literal_plan(value: i64, ty: TypeV) -> LiteralPlan {
    match ty {
        TypeV::Unit => LiteralPlan::Nothing,
        TypeV::I32 => LiteralPlan::Int32((value as u32) as u64),
        TypeV::I64 => LiteralPlan::Int64(value as u64),
        TypeV::F32 => LiteralPlan::Float32Bits(value as u32),
        TypeV::F64 => LiteralPlan::Float64Bits(value as u64),
        TypeV::Bool => LiteralPlan::Bool(value as u64),
        _ => LiteralPlan::Unsupported,
    }
}

/// The constant for a literal of a type, which must be resolved and not the error type.
pub fn select_literal(value: i64, ty: &BirType) -> (r: LiteralPlan)
    requires
        is_codegen_type(ty@),
    ensures
        r == literal_plan(value, ty@),
{
    match ty {
        BirType::Unit => LiteralPlan::Nothing,
        BirType::I32 => LiteralPlan::Int32((value as u32) as u64),
        BirType::I64 => LiteralPlan::Int64(value as u64),
        BirType::F32 => LiteralPlan::Float32Bits(value as u32),
        BirType::F64 => LiteralPlan::Float64Bits(value as u64),
        BirType::Bool => LiteralPlan::Bool(value as u64),
        _ => LiteralPlan::Unsupported,
    }
}


/// The position of the first function called `name`.
pub open spec fn first_function_named(fns: Seq<crate::bir::instruction::BirFunction>, name: Seq<char>) -> Option<int>
    decreases fns.len(),
{
    if fns.len() == 0 {
        None
    } else {
        match first_function_named(fns.drop_last(), name) {
            Some(i) => Some(i),
            None => if fns.last().name@ == name {
                Some(fns.len() - 1)
            } else {
                None
            },
        }
    }
}

/// The function a call goes to and the type it returns: a call with type
/// arguments goes to the instance's symbol and returns its type resolved
/// through the type parameters of the first function of that name, if any.
pub open spec fn call_target_of(
    fns: Seq<crate::bir::instruction::BirFunction>,
    func_name: Seq<char>,
    type_args: Seq<TypeV>,
    ty: TypeV,
) -> (Seq<char>, TypeV) {
    if type_args.len() == 0 {
        (func_name, ty)
    } else {
        let s = match first_function_named(fns, func_name) {
            Some(i) => instance_subst(strings_view(fns[i].type_params@), type_args),
            None => Seq::empty(),
        };
        (func_name + args_code(type_args), resolve(ty, s))
    }
}

/// The position of the first function called `name`.
fn find_first_function(fns: &Vec<crate::bir::instruction::BirFunction>, name: &String) -> (r: Option<usize>)
    ensures
        match r {
            Some(i) => first_function_named(fns@, name@) == Some(i as int) && i < fns@.len(),
            None => first_function_named(fns@, name@) is None,
        },
{
    let mut k: usize = 0;
    assert(fns@.take(0) =~= Seq::<crate::bir::instruction::BirFunction>::empty());
    while k < fns.len()
        invariant
            k <= fns@.len(),
            first_function_named(fns@.take(k as int), name@) is None,
        decreases fns@.len() - k,
    {
        assert(fns@.take(k + 1).drop_last() =~= fns@.take(k as int));
        if fns[k].name.eq(name) {
            proof { lemma_first_prefix(fns@, name@, k as int + 1); }
            return Some(k);
        }
        k = k + 1;
    }
    assert(fns@.take(fns@.len() as int) =~= fns@);
    None
}

/// A function found in a prefix is found at the same position in the whole list.
proof fn lemma_first_prefix(fns: Seq<crate::bir::instruction::BirFunction>, name: Seq<char>, k: int)
    requires
        0 <= k <= fns.len(),
    ensures
        first_function_named(fns.take(k), name) matches Some(i) ==> first_function_named(fns, name) == Some(i),
    decreases fns.len() - k,
{
    if k < fns.len() {
        assert(fns.take(k + 1).drop_last() =~= fns.take(k));
        lemma_first_prefix(fns, name, k + 1);
    } else {
        assert(fns.take(k) =~= fns);
    }
}

/// The function a call goes to and the type it returns.
pub fn call_target(
    bir_module: &BirModule,
    func_name: &String,
    type_args: &Vec<BirType>,
    ty: &BirType,
) -> (r: (String, BirType))
    ensures
        (r.0@, r.1@) == call_target_of(bir_module.functions@, func_name@, views(type_args@), ty@),
{
    proof { lemma_views(type_args@); }
    if type_args.len() == 0 {
        return (func_name.clone(), ty.copy());
    }
    let mut subst: Vec<(String, BirType)> = Vec::new();
    match find_first_function(&bir_module.functions, func_name) {
        Some(i) => {
            let instance = Instance {
                func_name: func_name.clone(),
                type_args: crate::bir::instruction::copy_types(type_args),
            };
            proof { lemma_views(instance.type_args@); }
            assert(views(instance.type_args@) =~= views(type_args@));
            subst = instance.substitution_map(bir_module.functions[i].type_params.as_slice());
        },
        None => {
            assert(subst_view(subst@) =~= Seq::<(Seq<char>, TypeV)>::empty());
        },
    }
    let instance = Instance { func_name: func_name.clone(), type_args: crate::bir::instruction::copy_types(type_args) };
    proof { lemma_views(instance.type_args@); }
    assert(views(instance.type_args@) =~= views(type_args@));
    (instance.mangled_name(), resolve_bir_type_lenient(ty, &subst))
}

/// The arguments of a call that are passed: those whose type is known and is not `()`.
pub open spec fn passed_args(args: Seq<Value>, types: Map<u32, TypeV>) -> Seq<Value>
    decreases args.len(),
{
    if args.len() == 0 {
        Seq::empty()
    } else {
        let rest = passed_args(args.drop_last(), types);
        let a = args.last();
        if types.contains_key(a.0) && types[a.0] != TypeV::Unit {
            rest.push(a)
        } else {
            rest
        }
    }
}

/// The arguments of a call that are passed: those whose type is known and is not `()`.
pub fn call_arg_values(args: &Vec<Value>, value_types: &HashMap<u32, BirType>) -> (r: Vec<Value>)
    ensures
        r@ == passed_args(args@, types_view(value_types@)),
{
    broadcast use vstd::std_specs::hash::group_hash_axioms;

    let mut r: Vec<Value> = Vec::new();
    let mut k: usize = 0;
    assert(args@.take(0) =~= Seq::<Value>::empty());
    while k < args.len()
        invariant
            k <= args@.len(),
            r@ == passed_args(args@.take(k as int), types_view(value_types@)),
        decreases args@.len() - k,
    {
        assert(args@.take(k + 1).drop_last() =~= args@.take(k as int));
        assert(args@.take(k + 1).last() == args@[k as int]);
        match value_types.get(&args[k].0) {
            Some(t) => {
                assert(types_view(value_types@)[args@[k as int].0] == t@);
                match t {
                    BirType::Unit => {},
                    _ => {
                        r.push(args[k]);
                    },
                }
            },
            None => {},
        }
        k = k + 1;
    }
    assert(args@.take(args@.len() as int) =~= args@);
    r
}

/// The position of the first field called `field`.
pub open spec fn field_position(fs: Seq<(String, BirType)>, field: Seq<char>) -> Option<int>
    decreases fs.len(),
{
    if fs.len() == 0 {
        None
    } else {
        match field_position(fs.drop_last(), field) {
            Some(i) => Some(i),
            None => if fs.last().0@ == field {
                Some(fs.len() - 1)
            } else {
                None
            },
        }
    }
}

/// The message for a struct without a layout.
pub open spec fn no_layout_message(st: Seq<char>) -> Seq<char> {
    "no layout for struct: "@ + st
}

/// The message for a field that a struct's layout does not have.
pub open spec fn unknown_field_message(field: Seq<char>, st: Seq<char>) -> Seq<char> {
    "unknown field "@ + field + " in struct "@ + st
}

/// `r` is a code generation error with the message `msg`.
pub open spec fn codegen_error(r: BengalError, msg: Seq<char>) -> bool {
    r matches BengalError::CodegenError { message } && message@ == msg
}

/// The position of a field in the layout of its struct, as the generated code addresses it.
pub fn field_index(bir_module: &BirModule, struct_name: &String, field: &String) -> (r: Result<usize, BengalError>)
    ensures
        match layout_named(bir_module.struct_layouts@, struct_name@) {
            None => r matches Err(e) && codegen_error(e, no_layout_message(struct_name@)),
            Some(j) => match field_position(bir_module.struct_layouts@[j].1@, field@) {
                Some(i) => r == Ok::<usize, BengalError>(i as usize),
                None => r matches Err(e) && codegen_error(e, unknown_field_message(field@, struct_name@)),
            },
        },
{
    match find_layout(&bir_module.struct_layouts, struct_name) {
        None => {
            let mut message = String::new();
            push_str(&mut message, "no layout for struct: ");
            push_str(&mut message, struct_name.as_str());
            Err(BengalError::CodegenError { message })
        },
        Some(j) => {
            let fs = &bir_module.struct_layouts[j].1;
            let mut k: usize = 0;
            assert(fs@.take(0) =~= Seq::<(String, BirType)>::empty());
            while k < fs.len()
                invariant
                    fs@ == bir_module.struct_layouts@[j as int].1@,
                    layout_named(bir_module.struct_layouts@, struct_name@) == Some(j as int),
                    k <= fs@.len(),
                    field_position(fs@.take(k as int), field@) is None,
                decreases fs@.len() - k,
            {
                assert(fs@.take(k + 1).drop_last() =~= fs@.take(k as int));
                if fs[k].0.eq(field) {
                    assert(fs@.take(k + 1).last() == fs@[k as int]);
                    assert(field_position(fs@.take(k + 1), field@) == Some(k as int));
                    proof { lemma_field_prefix(fs@, field@, k as int + 1); }
                    return Ok(k);
                }
                k = k + 1;
            }
            assert(fs@.take(fs@.len() as int) =~= fs@);
            let mut message = String::new();
            push_str(&mut message, "unknown field ");
            push_str(&mut message, field.as_str());
            push_str(&mut message, " in struct ");
            push_str(&mut message, struct_name.as_str());
            Err(BengalError::CodegenError { message })
        },
    }
}

/// A field found in a prefix is found at the same position in the whole layout.
proof fn lemma_field_prefix(fs: Seq<(String, BirType)>, field: Seq<char>, k: int)
    requires
        0 <= k <= fs.len(),
    ensures
        field_position(fs.take(k), field) matches Some(i) ==> field_position(fs, field) == Some(i),
    decreases fs.len() - k,
{
    if k < fs.len() {
        assert(fs.take(k + 1).drop_last() =~= fs.take(k));
        lemma_field_prefix(fs, field, k + 1);
    } else {
        assert(fs.take(k) =~= fs);
    }
}

} // verus!
