//! Turning a generic function into one of its concrete instances.
use vstd::prelude::*;

use crate::bir::instruction::{lemma_views, views, BasicBlock, BirFunction, BirType, Instruction, Terminator, TypeV, Value};
use crate::bir::mono::{
    all_bound, all_bound_all, inst_types, instance_subst, lemma_all_bound_all, lemma_resolve_all, pair_types, resolve,
    resolve_all, resolve_bir_type, strings_view, subst_view, term_types, Instance,
};
use crate::mangle::args_code;
use super::types::{has_type_param, has_type_param_any};
use crate::bir::mono::lookup;

verus! {

/// The model of a conformance table: a protocol method and a conforming type, and the function that implements it.
pub open spec fn conformance_view(c: Seq<((String, BirType), String)>) -> Seq<((Seq<char>, TypeV), Seq<char>)> {
    Seq::new(c.len(), |i: int| ((c[i].0.0@, c[i].0.1@), c[i].1@))
}

/// The function a conformance table gives for a key; a later entry overrides an earlier one with the same key.
pub open spec fn conformance_lookup(c: Seq<((Seq<char>, TypeV), Seq<char>)>, key: (Seq<char>, TypeV)) -> Option<Seq<char>>
    decreases c.len(),
{
    if c.len() == 0 {
        None
    } else if c.last().0 == key {
        Some(c.last().1)
    } else {
        conformance_lookup(c.drop_last(), key)
    }
}

/// The name and type arguments of a call once its type arguments `rta` are resolved: the
/// implementing function of a protocol method when the table has one for the first type
/// argument, otherwise the instance's symbol.
pub open spec fn call_target(
    func_name: Seq<char>,
    rta: Seq<TypeV>,
    conf: Seq<((Seq<char>, TypeV), Seq<char>)>,
) -> (Seq<char>, Seq<TypeV>) {
    if rta.len() > 0 && conformance_lookup(conf, (func_name, rta[0])) is Some {
        (conformance_lookup(conf, (func_name, rta[0]))->0, Seq::empty())
    } else if rta.len() == 0 {
        (func_name, Seq::empty())
    } else {
        (func_name + args_code(rta), rta)
    }
}

/// The names and values of struct fields.
pub open spec fn fields_view(fs: Seq<(String, Value)>) -> Seq<(Seq<char>, Value)> {
    Seq::new(fs.len(), |i: int| (fs[i].0@, fs[i].1))
}

/// `r` is the list of pairs `a` with each type resolved.
pub open spec fn resolved_pairs(a: Seq<(Value, BirType)>, r: Seq<(Value, BirType)>, s: Seq<(Seq<char>, TypeV)>) -> bool {
    &&& r.len() == a.len()
    &&& forall|i: int| 0 <= i < a.len() ==> (#[trigger] r[i]).0 == a[i].0 && r[i].1@ == resolve(a[i].1@, s)
}

/// `r` is the instruction `inst` with its types resolved by `s` and its call, if any,
/// directed by the conformance table `conf`.
pub open spec fn resolved_instruction(
    inst: Instruction,
    r: Instruction,
    s: Seq<(Seq<char>, TypeV)>,
    conf: Seq<((Seq<char>, TypeV), Seq<char>)>,
) -> bool {
    match (inst, r) {
        (Instruction::Literal { result, value, ty }, Instruction::Literal { result: r2, value: v2, ty: t2 }) => r2 == result
            && v2 == value && t2@ == resolve(ty@, s),
        (
            Instruction::BinaryOp { result, op, lhs, rhs, ty },
            Instruction::BinaryOp { result: r2, op: o2, lhs: l2, rhs: h2, ty: t2 },
        ) => r2 == result && o2 == op && l2 == lhs && h2 == rhs && t2@ == resolve(ty@, s),
        (
            Instruction::Call { result, func_name, args, type_args, ty },
            Instruction::Call { result: r2, func_name: f2, args: a2, type_args: ta2, ty: t2 },
        ) => r2 == result && a2@ == args@ && t2@ == resolve(ty@, s) && (f2@, views(ta2@)) == call_target(
            func_name@,
            resolve_all(views(type_args@), s),
            conf,
        ),
        (
            Instruction::Compare { result, op, lhs, rhs, ty },
            Instruction::Compare { result: r2, op: o2, lhs: l2, rhs: h2, ty: t2 },
        ) => r2 == result && o2 == op && l2 == lhs && h2 == rhs && t2@ == resolve(ty@, s),
        (Instruction::Not { result, operand }, Instruction::Not { result: r2, operand: o2 }) => r2 == result && o2
            == operand,
        (
            Instruction::Cast { result, operand, from_ty, to_ty },
            Instruction::Cast { result: r2, operand: o2, from_ty: f2, to_ty: t2 },
        ) => r2 == result && o2 == operand && f2@ == resolve(from_ty@, s) && t2@ == resolve(to_ty@, s),
        (
            Instruction::StructInit { result, struct_name, fields, type_args, ty },
            Instruction::StructInit { result: r2, struct_name: n2, fields: f2, type_args: ta2, ty: t2 },
        ) => r2 == result && n2@ == struct_name@ && fields_view(f2@) == fields_view(fields@) && views(ta2@) == resolve_all(
            views(type_args@),
            s,
        ) && t2@ == resolve(ty@, s),
        (
            Instruction::FieldGet { result, object, field, object_ty, ty },
            Instruction::FieldGet { result: r2, object: o2, field: f2, object_ty: ot2, ty: t2 },
        ) => r2 == result && o2 == object && f2@ == field@ && ot2@ == resolve(object_ty@, s) && t2@ == resolve(ty@, s),
        (
            Instruction::FieldSet { result, object, field, value, ty },
            Instruction::FieldSet { result: r2, object: o2, field: f2, value: v2, ty: t2 },
        ) => r2 == result && o2 == object && f2@ == field@ && v2 == value && t2@ == resolve(ty@, s),
        (
            Instruction::ArrayInit { result, ty, elements },
            Instruction::ArrayInit { result: r2, ty: t2, elements: e2 },
        ) => r2 == result && t2@ == resolve(ty@, s) && e2@ == elements@,
        (
            Instruction::ArrayGet { result, ty, array, index, array_size },
            Instruction::ArrayGet { result: r2, ty: t2, array: a2, index: i2, array_size: z2 },
        ) => r2 == result && t2@ == resolve(ty@, s) && a2 == array && i2 == index && z2 == array_size,
        (
            Instruction::ArraySet { result, ty, array, index, value, array_size },
            Instruction::ArraySet { result: r2, ty: t2, array: a2, index: i2, value: v2, array_size: z2 },
        ) => r2 == result && t2@ == resolve(ty@, s) && a2 == array && i2 == index && v2 == value && z2 == array_size,
        _ => false,
    }
}

/// `r` is the terminator `t` with its types resolved by `s`.
pub open spec fn resolved_terminator(t: Terminator, r: Terminator, s: Seq<(Seq<char>, TypeV)>) -> bool {
    match (t, r) {
        (Terminator::Return(v), Terminator::Return(v2)) => v2 == v,
        (Terminator::ReturnVoid, Terminator::ReturnVoid) => true,
        (Terminator::Br { target, args }, Terminator::Br { target: t2, args: a2 }) => t2 == target && resolved_pairs(
            args@,
            a2@,
            s,
        ),
        (
            Terminator::CondBr { cond, then_bb, else_bb },
            Terminator::CondBr { cond: c2, then_bb: t2, else_bb: e2 },
        ) => c2 == cond && t2 == then_bb && e2 == else_bb,
        (
            Terminator::BrBreak { header_bb, exit_bb, args, value },
            Terminator::BrBreak { header_bb: h2, exit_bb: x2, args: a2, value: v2 },
        ) => h2 == header_bb && x2 == exit_bb && resolved_pairs(args@, a2@, s) && match (value, v2) {
            (Some(p), Some(q)) => q.0 == p.0 && q.1@ == resolve(p.1@, s),
            (None, None) => true,
            _ => false,
        },
        (Terminator::BrContinue { header_bb, args }, Terminator::BrContinue { header_bb: h2, args: a2 }) => h2
            == header_bb && resolved_pairs(args@, a2@, s),
        _ => false,
    }
}

/// `r` is the block `b` with its types resolved by `s` and its calls directed by `conf`.
pub open spec fn resolved_block(
    b: BasicBlock,
    r: BasicBlock,
    s: Seq<(Seq<char>, TypeV)>,
    conf: Seq<((Seq<char>, TypeV), Seq<char>)>,
) -> bool {
    &&& r.label == b.label
    &&& resolved_pairs(b.params@, r.params@, s)
    &&& r.instructions@.len() == b.instructions@.len()
    &&& forall|i: int|
        0 <= i < b.instructions@.len() ==> resolved_instruction(b.instructions@[i], #[trigger] r.instructions@[i], s, conf)
    &&& resolved_terminator(b.terminator, r.terminator, s)
}

/// Every type parameter of the block's types is bound by `s`.
pub open spec fn block_bound(b: BasicBlock, s: Seq<(Seq<char>, TypeV)>) -> bool {
    &&& all_bound_all(pair_types(b.params@), s)
    &&& forall|i: int| 0 <= i < b.instructions@.len() ==> all_bound_all(inst_types(#[trigger] b.instructions@[i]), s)
    &&& all_bound_all(term_types(b.terminator), s)
}

/// Every type parameter of the function's types is bound by `s`.
pub open spec fn function_bound(f: BirFunction, s: Seq<(Seq<char>, TypeV)>) -> bool {
    &&& all_bound_all(pair_types(f.params@), s)
    &&& all_bound(f.return_type@, s)
    &&& forall|i: int| 0 <= i < f.blocks@.len() ==> block_bound(#[trigger] f.blocks@[i], s)
}


/// `all_bound_all` of a list with one more type.
proof fn lemma_bound_push(ts: Seq<TypeV>, t: TypeV, s: Seq<(Seq<char>, TypeV)>)
    ensures
        all_bound_all(ts.push(t), s) == (all_bound_all(ts, s) && all_bound(t, s)),
{
    assert(ts.push(t).drop_last() =~= ts);
}

/// `all_bound_all` of one or two types.
proof fn lemma_bound_small(a: TypeV, b: TypeV, s: Seq<(Seq<char>, TypeV)>)
    ensures
        all_bound_all(seq![a], s) == all_bound(a, s),
        all_bound_all(seq![a, b], s) == (all_bound(a, s) && all_bound(b, s)),
{
    lemma_bound_push(Seq::empty(), a, s);
    assert(Seq::<TypeV>::empty().push(a) =~= seq![a]);
    lemma_bound_push(seq![a], b, s);
    assert(seq![a].push(b) =~= seq![a, b]);
}

/// Each type of a list resolved by `subst`.
fn resolve_list(ts: &Vec<BirType>, subst: &Vec<(String, BirType)>) -> (r: Vec<BirType>)
    requires
        all_bound_all(views(ts@), subst_view(subst@)),
    ensures
        views(r@) == resolve_all(views(ts@), subst_view(subst@)),
{
    let ghost sv = subst_view(subst@);
    proof {
        lemma_views(ts@);
        lemma_all_bound_all(views(ts@), sv);
        lemma_resolve_all(views(ts@), sv);
        assert forall|i: int| 0 <= i < ts@.len() implies all_bound(#[trigger] ts@[i]@, sv) by {
            assert(views(ts@)[i] == ts@[i]@);
        }
    }
    let mut r: Vec<BirType> = Vec::new();
    let mut k: usize = 0;
    while k < ts.len()
        invariant
            sv == subst_view(subst@),
            k <= ts@.len(),
            r@.len() == k,
            forall|i: int| 0 <= i < ts@.len() ==> all_bound(#[trigger] ts@[i]@, sv),
            forall|i: int| 0 <= i < k ==> (#[trigger] r@[i])@ == resolve(ts@[i]@, sv),
        decreases ts@.len() - k,
    {
        r.push(resolve_bir_type(&ts[k], subst));
        k = k + 1;
    }
    proof { lemma_views(r@); }
    assert(views(r@) =~= resolve_all(views(ts@), sv));
    r
}

/// Each (value, type) pair with its type resolved by `subst`.
fn resolve_pairs(ps: &Vec<(Value, BirType)>, subst: &Vec<(String, BirType)>) -> (r: Vec<(Value, BirType)>)
    requires
        all_bound_all(pair_types(ps@), subst_view(subst@)),
    ensures
        resolved_pairs(ps@, r@, subst_view(subst@)),
{
    let ghost sv = subst_view(subst@);
    proof { lemma_all_bound_all(pair_types(ps@), sv); }
    let mut r: Vec<(Value, BirType)> = Vec::new();
    let mut k: usize = 0;
    while k < ps.len()
        invariant
            sv == subst_view(subst@),
            k <= ps@.len(),
            r@.len() == k,
            forall|i: int| 0 <= i < ps@.len() ==> all_bound(#[trigger] pair_types(ps@)[i], sv),
            forall|i: int| 0 <= i < k ==> (#[trigger] r@[i]).0 == ps@[i].0 && r@[i].1@ == resolve(ps@[i].1@, sv),
        decreases ps@.len() - k,
    {
        assert(pair_types(ps@)[k as int] == ps@[k as int].1@);
        r.push((ps[k].0, resolve_bir_type(&ps[k].1, subst)));
        k = k + 1;
    }
    r
}

/// A copy of a list of values.
fn copy_values(v: &Vec<Value>) -> (r: Vec<Value>)
    ensures
        r@ == v@,
{
    let mut r: Vec<Value> = Vec::new();
    let mut k: usize = 0;
    while k < v.len()
        invariant
            k <= v@.len(),
            r@ == v@.take(k as int),
        decreases v@.len() - k,
    {
        r.push(v[k]);
        k = k + 1;
        assert(r@ =~= v@.take(k as int));
    }
    assert(v@.take(v@.len() as int) =~= v@);
    r
}

/// A copy of a list of struct fields.
fn copy_fields(fs: &Vec<(String, Value)>) -> (r: Vec<(String, Value)>)
    ensures
        fields_view(r@) == fields_view(fs@),
{
    let mut r: Vec<(String, Value)> = Vec::new();
    let mut k: usize = 0;
    while k < fs.len()
        invariant
            k <= fs@.len(),
            r@.len() == k,
            forall|i: int| 0 <= i < k ==> (#[trigger] r@[i]).0@ == fs@[i].0@ && r@[i].1 == fs@[i].1,
        decreases fs@.len() - k,
    {
        r.push((fs[k].0.clone(), fs[k].1));
        k = k + 1;
    }
    assert(fields_view(r@) =~= fields_view(fs@));
    r
}

/// The position of the entry that `conformance_lookup` finds for `(name, ty)`, searching from the end.
fn find_conformance(conf: &Vec<((String, BirType), String)>, name: &String, ty: &BirType) -> (r: Option<usize>)
    ensures
        match r {
            Some(i) => i < conf@.len() && conformance_lookup(conformance_view(conf@), (name@, ty@)) == Some(
                conf@[i as int].1@,
            ),
            None => conformance_lookup(conformance_view(conf@), (name@, ty@)) is None,
        },
{
    let ghost cv = conformance_view(conf@);
    let mut k: usize = conf.len();
    assert(cv.take(k as int) =~= cv);
    while k > 0
        invariant
            k <= conf@.len(),
            cv == conformance_view(conf@),
            conformance_lookup(cv, (name@, ty@)) == conformance_lookup(cv.take(k as int), (name@, ty@)),
        decreases k,
    {
        let ghost t = cv.take(k as int);
        assert(t.drop_last() =~= cv.take(k - 1));
        if conf[k - 1].0.0.eq(name) && conf[k - 1].0.1.same(ty) {
            return Some(k - 1);
        }
        k = k - 1;
    }
    assert(cv.take(0) =~= Seq::<((Seq<char>, TypeV), Seq<char>)>::empty());
    None
}


/// The instruction with every type resolved through `subst`; a call whose first
/// resolved type argument has an entry in the conformance table for its
/// function becomes a plain call of the implementing function, and any other
/// call with type arguments calls the instance's symbol.
pub fn resolve_instruction(
    inst: &Instruction,
    subst: &Vec<(String, BirType)>,
    conformance_map: &Vec<((String, BirType), String)>,
) -> (r: Instruction)
    requires
        all_bound_all(inst_types(*inst), subst_view(subst@)),
    ensures
        resolved_instruction(*inst, r, subst_view(subst@), conformance_view(conformance_map@)),
{
    let ghost sv = subst_view(subst@);
    match inst {
        Instruction::Literal { result, value, ty } => {
            proof { lemma_bound_small(ty@, ty@, sv); }
            Instruction::Literal { result: *result, value: *value, ty: resolve_bir_type(ty, subst) }
        },
        Instruction::BinaryOp { result, op, lhs, rhs, ty } => {
            proof { lemma_bound_small(ty@, ty@, sv); }
            Instruction::BinaryOp { result: *result, op: *op, lhs: *lhs, rhs: *rhs, ty: resolve_bir_type(ty, subst) }
        },
        Instruction::Call { result, func_name, args, type_args, ty } => {
            proof { lemma_bound_push(views(type_args@), ty@, sv); }
            let resolved_type_args = resolve_list(type_args, subst);
            let ghost rta = resolve_all(views(type_args@), sv);
            proof {
                lemma_resolve_all(views(type_args@), sv);
                lemma_views(type_args@);
                lemma_views(resolved_type_args@);
            }
            if resolved_type_args.len() > 0 {
                assert(rta[0] == resolved_type_args@[0]@);
                match find_conformance(conformance_map, func_name, &resolved_type_args[0]) {
                    Some(k) => {
                        let r = Instruction::Call {
                            result: *result,
                            func_name: conformance_map[k].1.clone(),
                            args: copy_values(args),
                            type_args: Vec::new(),
                            ty: resolve_bir_type(ty, subst),
                        };
                        proof { lemma_views(Seq::<BirType>::empty()); }
                        assert(views(Seq::<BirType>::empty()) =~= Seq::<TypeV>::empty());
                        return r;
                    },
                    None => {},
                }
            }
            let resolved_func_name = if resolved_type_args.len() == 0 {
                func_name.clone()
            } else {
                let instance = Instance { func_name: func_name.clone(), type_args: copy_type_args(&resolved_type_args) };
                instance.mangled_name()
            };
            Instruction::Call {
                result: *result,
                func_name: resolved_func_name,
                args: copy_values(args),
                type_args: resolved_type_args,
                ty: resolve_bir_type(ty, subst),
            }
        },
        Instruction::Compare { result, op, lhs, rhs, ty } => {
            proof { lemma_bound_small(ty@, ty@, sv); }
            Instruction::Compare { result: *result, op: *op, lhs: *lhs, rhs: *rhs, ty: resolve_bir_type(ty, subst) }
        },
        Instruction::Not { result, operand } => Instruction::Not { result: *result, operand: *operand },
        Instruction::Cast { result, operand, from_ty, to_ty } => {
            proof { lemma_bound_small(from_ty@, to_ty@, sv); }
            Instruction::Cast {
                result: *result,
                operand: *operand,
                from_ty: resolve_bir_type(from_ty, subst),
                to_ty: resolve_bir_type(to_ty, subst),
            }
        },
        Instruction::StructInit { result, struct_name, fields, type_args, ty } => {
            proof { lemma_bound_push(views(type_args@), ty@, sv); }
            Instruction::StructInit {
                result: *result,
                struct_name: struct_name.clone(),
                fields: copy_fields(fields),
                type_args: resolve_list(type_args, subst),
                ty: resolve_bir_type(ty, subst),
            }
        },
        Instruction::FieldGet { result, object, field, object_ty, ty } => {
            proof { lemma_bound_small(object_ty@, ty@, sv); }
            Instruction::FieldGet {
                result: *result,
                object: *object,
                field: field.clone(),
                object_ty: resolve_bir_type(object_ty, subst),
                ty: resolve_bir_type(ty, subst),
            }
        },
        Instruction::FieldSet { result, object, field, value, ty } => {
            proof { lemma_bound_small(ty@, ty@, sv); }
            Instruction::FieldSet {
                result: *result,
                object: *object,
                field: field.clone(),
                value: *value,
                ty: resolve_bir_type(ty, subst),
            }
        },
        Instruction::ArrayInit { result, ty, elements } => {
            proof { lemma_bound_small(ty@, ty@, sv); }
            Instruction::ArrayInit { result: *result, ty: resolve_bir_type(ty, subst), elements: copy_values(elements) }
        },
        Instruction::ArrayGet { result, ty, array, index, array_size } => {
            proof { lemma_bound_small(ty@, ty@, sv); }
            Instruction::ArrayGet {
                result: *result,
                ty: resolve_bir_type(ty, subst),
                array: *array,
                index: *index,
                array_size: *array_size,
            }
        },
        Instruction::ArraySet { result, ty, array, index, value, array_size } => {
            proof { lemma_bound_small(ty@, ty@, sv); }
            Instruction::ArraySet {
                result: *result,
                ty: resolve_bir_type(ty, subst),
                array: *array,
                index: *index,
                value: *value,
                array_size: *array_size,
            }
        },
    }
}

/// A copy of a list of types.
fn copy_type_args(ts: &Vec<BirType>) -> (r: Vec<BirType>)
    ensures
        views(r@) == views(ts@),
{
    let r = crate::bir::instruction::copy_types(ts);
    proof {
        lemma_views(r@);
        lemma_views(ts@);
    }
    assert(views(r@) =~= views(ts@));
    r
}


/// The terminator with every type resolved through `subst`.
pub fn resolve_terminator(term: &Terminator, subst: &Vec<(String, BirType)>) -> (r: Terminator)
    requires
        all_bound_all(term_types(*term), subst_view(subst@)),
    ensures
        resolved_terminator(*term, r, subst_view(subst@)),
{
    let ghost sv = subst_view(subst@);
    match term {
        Terminator::Return(v) => Terminator::Return(*v),
        Terminator::ReturnVoid => Terminator::ReturnVoid,
        Terminator::Br { target, args } => Terminator::Br { target: *target, args: resolve_pairs(args, subst) },
        Terminator::CondBr { cond, then_bb, else_bb } => Terminator::CondBr {
            cond: *cond,
            then_bb: *then_bb,
            else_bb: *else_bb,
        },
        Terminator::BrBreak { header_bb, exit_bb, args, value } => {
            let resolved_value = match value {
                Some(p) => {
                    proof { lemma_bound_push(pair_types(args@), p.1@, sv); }
                    Some((p.0, resolve_bir_type(&p.1, subst)))
                },
                None => None,
            };
            Terminator::BrBreak {
                header_bb: *header_bb,
                exit_bb: *exit_bb,
                args: resolve_pairs(args, subst),
                value: resolved_value,
            }
        },
        Terminator::BrContinue { header_bb, args } => Terminator::BrContinue {
            header_bb: *header_bb,
            args: resolve_pairs(args, subst),
        },
    }
}

/// The block with every type resolved through `subst` and its calls directed by the conformance table.
pub fn resolve_basic_block(
    block: &BasicBlock,
    subst: &Vec<(String, BirType)>,
    conformance_map: &Vec<((String, BirType), String)>,
) -> (r: BasicBlock)
    requires
        block_bound(*block, subst_view(subst@)),
    ensures
        resolved_block(*block, r, subst_view(subst@), conformance_view(conformance_map@)),
{
    let ghost sv = subst_view(subst@);
    let ghost cv = conformance_view(conformance_map@);
    let mut instructions: Vec<Instruction> = Vec::new();
    let mut k: usize = 0;
    while k < block.instructions.len()
        invariant
            sv == subst_view(subst@),
            cv == conformance_view(conformance_map@),
            block_bound(*block, sv),
            k <= block.instructions@.len(),
            instructions@.len() == k,
            forall|i: int|
                0 <= i < k ==> resolved_instruction(block.instructions@[i], #[trigger] instructions@[i], sv, cv),
        decreases block.instructions@.len() - k,
    {
        assert(all_bound_all(inst_types(block.instructions@[k as int]), sv));
        instructions.push(resolve_instruction(&block.instructions[k], subst, conformance_map));
        k = k + 1;
    }
    BasicBlock {
        label: block.label,
        params: resolve_pairs(&block.params, subst),
        instructions,
        terminator: resolve_terminator(&block.terminator, subst),
    }
}

/// The substitution that an instance gives a generic function: its type parameters bound to the instance's type arguments.
pub open spec fn instance_subst_of(f: BirFunction, instance: Instance) -> Seq<(Seq<char>, TypeV)> {
    instance_subst(strings_view(f.type_params@), instance@.1)
}

/// The concrete function of an instance of a generic function: named by the
/// instance's symbol, without type parameters, with every type resolved through
/// the instance's substitution and every protocol call directed by the
/// conformance table.
pub fn resolve_function(
    generic_func: &BirFunction,
    instance: &Instance,
    conformance_map: &Vec<((String, BirType), String)>,
) -> (r: BirFunction)
    requires
        function_bound(*generic_func, instance_subst_of(*generic_func, *instance)),
    ensures
        r.name@ == instance.func_name@ + args_code(instance@.1),
        r.type_params@.len() == 0,
        resolved_pairs(generic_func.params@, r.params@, instance_subst_of(*generic_func, *instance)),
        r.return_type@ == resolve(generic_func.return_type@, instance_subst_of(*generic_func, *instance)),
        r.blocks@.len() == generic_func.blocks@.len(),
        forall|i: int|
            0 <= i < generic_func.blocks@.len() ==> resolved_block(
                generic_func.blocks@[i],
                #[trigger] r.blocks@[i],
                instance_subst_of(*generic_func, *instance),
                conformance_view(conformance_map@),
            ),
        r.body@.len() == 0,
{
    let subst = instance.substitution_map(generic_func.type_params.as_slice());
    let ghost sv = subst_view(subst@);
    let ghost cv = conformance_view(conformance_map@);
    assert(sv == instance_subst_of(*generic_func, *instance));
    let mut blocks: Vec<BasicBlock> = Vec::new();
    let mut k: usize = 0;
    while k < generic_func.blocks.len()
        invariant
            sv == subst_view(subst@),
            cv == conformance_view(conformance_map@),
            function_bound(*generic_func, sv),
            k <= generic_func.blocks@.len(),
            blocks@.len() == k,
            forall|i: int| 0 <= i < k ==> resolved_block(generic_func.blocks@[i], #[trigger] blocks@[i], sv, cv),
        decreases generic_func.blocks@.len() - k,
    {
        assert(block_bound(generic_func.blocks@[k as int], sv));
        blocks.push(resolve_basic_block(&generic_func.blocks[k], &subst, conformance_map));
        k = k + 1;
    }
    BirFunction {
        name: instance.mangled_name(),
        type_params: Vec::new(),
        params: resolve_pairs(&generic_func.params, &subst),
        return_type: resolve_bir_type(&generic_func.return_type, &subst),
        blocks,
        body: Vec::new(),
    }
}


/// Every type that a substitution binds is free of type parameters.
pub open spec fn concrete_subst(s: Seq<(Seq<char>, TypeV)>) -> bool {
    forall|i: int| 0 <= i < s.len() ==> !has_type_param(#[trigger] s[i].1)
}

/// What a concrete substitution binds a name to is concrete.
proof fn lemma_lookup_concrete(s: Seq<(Seq<char>, TypeV)>, name: Seq<char>)
    requires
        concrete_subst(s),
    ensures
        lookup(s, name) matches Some(v) ==> !has_type_param(v),
    decreases s.len(),
{
    if s.len() > 0 && s.last().0 != name {
        assert forall|i: int| 0 <= i < s.drop_last().len() implies !has_type_param(#[trigger] s.drop_last()[i].1) by {
            assert(s.drop_last()[i] == s[i]);
        }
        lemma_lookup_concrete(s.drop_last(), name);
    } else if s.len() > 0 {
        assert(s.last() == s[s.len() - 1]);
    }
}

/// Resolving a type whose parameters a concrete substitution all binds leaves no type parameter.
pub proof fn law_resolution_is_concrete(t: TypeV, s: Seq<(Seq<char>, TypeV)>)
    requires
        all_bound(t, s),
        concrete_subst(s),
    ensures
        !has_type_param(resolve(t, s)),
    decreases t,
{
    match t {
        TypeV::TypeParam(name) => lemma_lookup_concrete(s, name),
        TypeV::Array { element, .. } => law_resolution_is_concrete(*element, s),
        TypeV::Struct { type_args, .. } => lemma_resolve_all_concrete(type_args, s),
        _ => {},
    }
}

/// Resolving a list of types whose parameters a concrete substitution all binds leaves no type parameter.
proof fn lemma_resolve_all_concrete(ts: Seq<TypeV>, s: Seq<(Seq<char>, TypeV)>)
    requires
        all_bound_all(ts, s),
        concrete_subst(s),
    ensures
        !has_type_param_any(resolve_all(ts, s)),
    decreases ts,
{
    if ts.len() > 0 {
        lemma_resolve_all_concrete(ts.drop_last(), s);
        law_resolution_is_concrete(ts[ts.len() - 1], s);
        assert(resolve_all(ts, s).drop_last() =~= resolve_all(ts.drop_last(), s));
    }
}

/// The substitution of an instance whose type arguments are concrete is concrete.
pub proof fn law_instance_subst_concrete(params: Seq<Seq<char>>, args: Seq<TypeV>)
    requires
        forall|i: int| 0 <= i < args.len() ==> !has_type_param(#[trigger] args[i]),
    ensures
        concrete_subst(instance_subst(params, args)),
{
    let s = instance_subst(params, args);
    assert forall|i: int| 0 <= i < s.len() implies !has_type_param(#[trigger] s[i].1) by {
        assert(s[i].1 == args[i]);
    }
}

} // verus!
