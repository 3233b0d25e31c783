//! Types in code generation: type parameters, struct layouts, the types of values.
use vstd::prelude::*;
use std::collections::HashMap;

use crate::bir::instruction::{lemma_views, views, BasicBlock, BirFunction, BirModule, BirType, Instruction, TypeV, Value};
use crate::bir::mono::{
    all_bound, all_bound_all, find_function, function_named, instance_subst, lemma_all_bound_all, resolve,
    resolve_bir_type, resolve_bir_type_lenient, strings_view, subst_view, Instance, MonoCollectResult,
};
use crate::mangle::args_code;

verus! {

/// Whether a type parameter occurs in a type.
pub open spec fn has_type_param(t: TypeV) -> bool
    decreases t,
{
    match t {
        TypeV::TypeParam(_) => true,
        TypeV::Array { element, .. } => has_type_param(*element),
        TypeV::Struct { type_args, .. } => has_type_param_any(type_args),
        _ => false,
    }
}

/// Whether a type parameter occurs in one of a list of types.
pub open spec fn has_type_param_any(ts: Seq<TypeV>) -> bool
    decreases ts,
{
    if ts.len() == 0 {
        false
    } else {
        has_type_param_any(ts.drop_last()) || has_type_param(ts[ts.len() - 1])
    }
}

/// The type parameters of a type, in order of occurrence, with repetitions.
pub open spec fn params_in(t: TypeV) -> Seq<Seq<char>>
    decreases t,
{
    match t {
        TypeV::TypeParam(name) => seq![name],
        TypeV::Array { element, .. } => params_in(*element),
        TypeV::Struct { type_args, .. } => params_in_all(type_args),
        _ => Seq::empty(),
    }
}

/// The type parameters of a list of types, in order of occurrence, with repetitions.
pub open spec fn params_in_all(ts: Seq<TypeV>) -> Seq<Seq<char>>
    decreases ts,
{
    if ts.len() == 0 {
        Seq::empty()
    } else {
        params_in_all(ts.drop_last()) + params_in(ts[ts.len() - 1])
    }
}

/// The names `ns` followed by those of `occ` not yet among them, each once, in order of first occurrence.
pub open spec fn add_new(ns: Seq<Seq<char>>, occ: Seq<Seq<char>>) -> Seq<Seq<char>>
    decreases occ.len(),
{
    if occ.len() == 0 {
        ns
    } else {
        let before = add_new(ns, occ.drop_last());
        if before.contains(occ.last()) {
            before
        } else {
            before.push(occ.last())
        }
    }
}

/// Adding the names of two lists is adding those of the first, then those of the second.
pub proof fn lemma_add_new_concat(ns: Seq<Seq<char>>, a: Seq<Seq<char>>, b: Seq<Seq<char>>)
    ensures
        add_new(ns, a + b) == add_new(add_new(ns, a), b),
    decreases b.len(),
{
    if b.len() == 0 {
        assert(a + b =~= a);
    } else {
        assert((a + b).drop_last() =~= a + b.drop_last());
        assert((a + b).last() == b.last());
        lemma_add_new_concat(ns, a, b.drop_last());
    }
}

/// Whether a type parameter occurs in a type.
pub fn contains_type_param(ty: &BirType) -> (r: bool)
    ensures
        r == has_type_param(ty@),
    decreases ty,
{
    match ty {
        BirType::TypeParam(_) => true,
        BirType::Array { element, .. } => contains_type_param(element),
        BirType::Struct { type_args, .. } => contains_type_param_any(type_args),
        _ => false,
    }
}

/// Whether a type parameter occurs in one of a list of types.
fn contains_type_param_any(ts: &Vec<BirType>) -> (r: bool)
    ensures
        r == has_type_param_any(views(ts@)),
    decreases ts,
{
    proof { lemma_views(ts@); }
    let ghost vs = views(ts@);
    let mut k: usize = 0;
    assert(vs.take(0) =~= Seq::<TypeV>::empty());
    while k < ts.len()
        invariant
            vs == views(ts@),
            vs.len() == ts@.len(),
            forall|i: int| 0 <= i < ts@.len() ==> #[trigger] vs[i] == ts@[i]@,
            k <= ts@.len(),
            !has_type_param_any(vs.take(k as int)),
        decreases ts@.len() - k,
    {
        assert(decreases_to!(ts => ts@[k as int]));
        assert(vs.take(k + 1).drop_last() =~= vs.take(k as int));
        if contains_type_param(&ts[k]) {
            assert(has_type_param_any(vs.take(k + 1)));
            proof { lemma_any_prefix(vs, k + 1); }
            return true;
        }
        k = k + 1;
    }
    assert(vs.take(vs.len() as int) =~= vs);
    false
}

/// A type parameter in a prefix of a list is in the list.
proof fn lemma_any_prefix(ts: Seq<TypeV>, k: int)
    requires
        0 <= k <= ts.len(),
        has_type_param_any(ts.take(k)),
    ensures
        has_type_param_any(ts),
    decreases ts.len() - k,
{
    if k < ts.len() {
        assert(ts.take(k + 1).drop_last() =~= ts.take(k));
        lemma_any_prefix(ts, k + 1);
    } else {
        assert(ts.take(k) =~= ts);
    }
}

/// Whether a list of names holds `name`.
fn holds_name(names: &Vec<String>, name: &String) -> (r: bool)
    ensures
        r == strings_view(names@).contains(name@),
{
    let mut k: usize = 0;
    while k < names.len()
        invariant
            k <= names@.len(),
            forall|i: int| 0 <= i < k ==> names@[i]@ != name@,
        decreases names@.len() - k,
    {
        if names[k].eq(name) {
            assert(strings_view(names@)[k as int] == name@);
            return true;
        }
        k = k + 1;
    }
    proof {
        if strings_view(names@).contains(name@) {
            let i = choose|i: int| 0 <= i < strings_view(names@).len() && strings_view(names@)[i] == name@;
            assert(names@[i]@ == name@);
        }
    }
    false
}

/// Appends the type parameters of a type that `names` does not hold yet, in order of first occurrence.
pub fn collect_type_params(ty: &BirType, names: &mut Vec<String>)
    ensures
        strings_view(final(names)@) == add_new(strings_view(old(names)@), params_in(ty@)),
    decreases ty,
{
    match ty {
        BirType::TypeParam(name) => {
            let ghost before = strings_view(names@);
            let ghost occ = seq![name@];
            assert(occ.drop_last() =~= Seq::<Seq<char>>::empty());
            assert(add_new(before, occ.drop_last()) == before);
            assert(params_in(ty@) == occ);
            if !holds_name(names, name) {
                names.push(name.clone());
                assert(strings_view(names@) =~= before.push(name@));
            }
        },
        BirType::Array { element, .. } => {
            collect_type_params(element, names);
        },
        BirType::Struct { type_args, .. } => {
            collect_type_params_all(type_args, names);
        },
        _ => {},
    }
}

/// Appends the type parameters of a list of types that `names` does not hold yet, in order of first occurrence.
fn collect_type_params_all(ts: &Vec<BirType>, names: &mut Vec<String>)
    ensures
        strings_view(final(names)@) == add_new(strings_view(old(names)@), params_in_all(views(ts@))),
    decreases ts,
{
    proof { lemma_views(ts@); }
    let ghost vs = views(ts@);
    let ghost start = strings_view(names@);
    let mut k: usize = 0;
    assert(vs.take(0) =~= Seq::<TypeV>::empty());
    while k < ts.len()
        invariant
            vs == views(ts@),
            vs.len() == ts@.len(),
            forall|i: int| 0 <= i < ts@.len() ==> #[trigger] vs[i] == ts@[i]@,
            k <= ts@.len(),
            strings_view(names@) == add_new(start, params_in_all(vs.take(k as int))),
        decreases ts@.len() - k,
    {
        assert(decreases_to!(ts => ts@[k as int]));
        assert(vs.take(k + 1).drop_last() =~= vs.take(k as int));
        proof { lemma_add_new_concat(start, params_in_all(vs.take(k as int)), params_in(vs[k as int])); }
        collect_type_params(&ts[k], names);
        k = k + 1;
    }
    assert(vs.take(vs.len() as int) =~= vs);
}


/// The types of a struct's fields.
pub open spec fn field_types(fs: Seq<(String, BirType)>) -> Seq<TypeV> {
    Seq::new(fs.len(), |i: int| fs[i].1@)
}

/// Whether no field of a layout has a type parameter in its type.
pub open spec fn is_concrete_layout(fs: Seq<(String, BirType)>) -> bool {
    forall|i: int| 0 <= i < fs.len() ==> !has_type_param(#[trigger] fs[i].1@)
}

/// The positions of the layouts without type parameters, in order.
pub open spec fn concrete_positions(ls: Seq<(String, Vec<(String, BirType)>)>) -> Seq<int>
    decreases ls.len(),
{
    if ls.len() == 0 {
        Seq::empty()
    } else if is_concrete_layout(ls.last().1@) {
        concrete_positions(ls.drop_last()).push(ls.len() - 1)
    } else {
        concrete_positions(ls.drop_last())
    }
}

/// Whether no field of a layout has a type parameter in its type.
fn layout_is_concrete(fs: &Vec<(String, BirType)>) -> (r: bool)
    ensures
        r == is_concrete_layout(fs@),
{
    let mut k: usize = 0;
    while k < fs.len()
        invariant
            k <= fs@.len(),
            forall|i: int| 0 <= i < k ==> !has_type_param(#[trigger] fs@[i].1@),
        decreases fs@.len() - k,
    {
        if contains_type_param(&fs[k].1) {
            return false;
        }
        k = k + 1;
    }
    true
}

/// The struct layouts of a module that are not generic templates: those whose
/// fields have no type parameter, in the module's order.
pub fn concrete_struct_layouts(bir_module: &BirModule) -> (r: Vec<&(String, Vec<(String, BirType)>)>)
    ensures
        r@.len() == concrete_positions(bir_module.struct_layouts@).len(),
        forall|i: int|
            0 <= i < r@.len() ==> *(#[trigger] r@[i]) == bir_module.struct_layouts@[concrete_positions(
                bir_module.struct_layouts@,
            )[i]],
{
    let ghost ls = bir_module.struct_layouts@;
    let mut r: Vec<&(String, Vec<(String, BirType)>)> = Vec::new();
    let mut k: usize = 0;
    assert(ls.take(0) =~= Seq::<(String, Vec<(String, BirType)>)>::empty());
    while k < bir_module.struct_layouts.len()
        invariant
            ls == bir_module.struct_layouts@,
            k <= ls.len(),
            r@.len() == concrete_positions(ls.take(k as int)).len(),
            forall|i: int| 0 <= i < r@.len() ==> *(#[trigger] r@[i]) == ls[concrete_positions(ls.take(k as int))[i]],
            forall|i: int|
                0 <= i < concrete_positions(ls.take(k as int)).len() ==> 0 <= #[trigger] concrete_positions(
                    ls.take(k as int),
                )[i] < k,
        decreases ls.len() - k,
    {
        let ghost before = concrete_positions(ls.take(k as int));
        assert(ls.take(k + 1).drop_last() =~= ls.take(k as int));
        assert(ls.take(k + 1).last() == ls[k as int]);
        if layout_is_concrete(&bir_module.struct_layouts[k].1) {
            r.push(&bir_module.struct_layouts[k]);
            assert(concrete_positions(ls.take(k + 1)) == before.push(k as int));
        } else {
            assert(concrete_positions(ls.take(k + 1)) == before);
        }
        k = k + 1;
    }
    assert(ls.take(ls.len() as int) =~= ls);
    r
}

/// The position of the layout of struct `name`; a later layout of that name takes precedence.
pub open spec fn layout_named(ls: Seq<(String, Vec<(String, BirType)>)>, name: Seq<char>) -> Option<int>
    decreases ls.len(),
{
    if ls.len() == 0 {
        None
    } else if ls.last().0@ == name {
        Some(ls.len() - 1)
    } else {
        layout_named(ls.drop_last(), name)
    }
}

/// The type parameters of a generic layout, in order of first occurrence in its fields.
pub open spec fn layout_params(fs: Seq<(String, BirType)>) -> Seq<Seq<char>> {
    add_new(Seq::empty(), params_in_all(field_types(fs)))
}

/// The substitution of a struct instance: the layout's type parameters bound to its type arguments.
pub open spec fn layout_subst(fs: Seq<(String, BirType)>, args: Seq<TypeV>) -> Seq<(Seq<char>, TypeV)> {
    instance_subst(layout_params(fs), args)
}

/// `r` is the layout `fs` with each field's type resolved by `s`.
pub open spec fn resolved_fields(fs: Seq<(String, BirType)>, r: Seq<(String, BirType)>, s: Seq<(Seq<char>, TypeV)>) -> bool {
    &&& r.len() == fs.len()
    &&& forall|i: int| 0 <= i < fs.len() ==> (#[trigger] r[i]).0@ == fs[i].0@ && r[i].1@ == resolve(fs[i].1@, s)
}

/// The positions of the struct instances whose struct has a layout, in order.
pub open spec fn laid_out_positions(
    ls: Seq<(String, Vec<(String, BirType)>)>,
    insts: Seq<(String, Vec<BirType>)>,
) -> Seq<int>
    decreases insts.len(),
{
    if insts.len() == 0 {
        Seq::empty()
    } else if layout_named(ls, insts.last().0@) is Some {
        laid_out_positions(ls, insts.drop_last()).push(insts.len() - 1)
    } else {
        laid_out_positions(ls, insts.drop_last())
    }
}

/// Every type parameter of each generic struct instance's layout is bound by its type arguments.
pub open spec fn instances_bound(ls: Seq<(String, Vec<(String, BirType)>)>, insts: Seq<(String, Vec<BirType>)>) -> bool {
    forall|i: int|
        0 <= i < insts.len() && #[trigger] layout_named(ls, insts[i].0@) is Some ==> {
            let fs = ls[layout_named(ls, insts[i].0@)->0].1@;
            all_bound_all(field_types(fs), layout_subst(fs, views(insts[i].1@)))
        }
}

/// `r` is the concrete layout of the struct instance `inst` whose generic layout is `fs`:
/// named by the instance's symbol, with the field types resolved.
pub open spec fn instance_layout(
    r: (String, Vec<(String, BirType)>),
    inst: (String, Vec<BirType>),
    fs: Seq<(String, BirType)>,
) -> bool {
    &&& r.0@ == inst.0@ + args_code(views(inst.1@))
    &&& resolved_fields(fs, r.1@, layout_subst(fs, views(inst.1@)))
}

/// The position of the layout of struct `name`, searching from the end.
pub(crate) fn find_layout(ls: &Vec<(String, Vec<(String, BirType)>)>, name: &String) -> (r: Option<usize>)
    ensures
        match r {
            Some(i) => layout_named(ls@, name@) == Some(i as int) && i < ls@.len(),
            None => layout_named(ls@, name@) is None,
        },
{
    let mut k: usize = ls.len();
    assert(ls@.take(k as int) =~= ls@);
    while k > 0
        invariant
            k <= ls@.len(),
            layout_named(ls@, name@) == layout_named(ls@.take(k as int), name@),
        decreases k,
    {
        assert(ls@.take(k as int).drop_last() =~= ls@.take(k - 1));
        if ls[k - 1].0.eq(name) {
            return Some(k - 1);
        }
        k = k - 1;
    }
    None
}

/// Whether `layout_named` of a prefix agrees with the whole list where the prefix finds a layout.
proof fn lemma_layout_named_prefix(ls: Seq<(String, Vec<(String, BirType)>)>, name: Seq<char>, k: int)
    requires
        0 <= k <= ls.len(),
    ensures
        layout_named(ls.take(k), name) matches Some(j) ==> 0 <= j < k,
    decreases k,
{
    if k > 0 {
        assert(ls.take(k).drop_last() =~= ls.take(k - 1));
        lemma_layout_named_prefix(ls, name, k - 1);
    }
}

/// The type parameters of a layout's fields, in order of first occurrence.
fn layout_type_params(fs: &Vec<(String, BirType)>) -> (r: Vec<String>)
    ensures
        strings_view(r@) == layout_params(fs@),
{
    let mut names: Vec<String> = Vec::new();
    let mut k: usize = 0;
    assert(field_types(fs@).take(0) =~= Seq::<TypeV>::empty());
    assert(strings_view(names@) =~= Seq::<Seq<char>>::empty());
    while k < fs.len()
        invariant
            k <= fs@.len(),
            strings_view(names@) == add_new(Seq::empty(), params_in_all(field_types(fs@).take(k as int))),
        decreases fs@.len() - k,
    {
        let ghost ft = field_types(fs@);
        assert(ft.take(k + 1).drop_last() =~= ft.take(k as int));
        assert(ft.take(k + 1).last() == fs@[k as int].1@);
        proof { lemma_add_new_concat(Seq::empty(), params_in_all(ft.take(k as int)), params_in(fs@[k as int].1@)); }
        collect_type_params(&fs[k].1, &mut names);
        k = k + 1;
    }
    assert(field_types(fs@).take(fs@.len() as int) =~= field_types(fs@));
    names
}

/// The concrete layout of a generic struct instance.
fn instance_layout_of(
    fs: &Vec<(String, BirType)>,
    name: &String,
    args: &Vec<BirType>,
) -> (r: (String, Vec<(String, BirType)>))
    requires
        all_bound_all(field_types(fs@), layout_subst(fs@, views(args@))),
    ensures
        instance_layout(r, (*name, *args), fs@),
{
    let params = layout_type_params(fs);
    let instance = Instance { func_name: name.clone(), type_args: crate::bir::instruction::copy_types(args) };
    proof {
        lemma_views(args@);
        lemma_views(instance.type_args@);
    }
    assert(views(instance.type_args@) =~= views(args@));
    let subst = instance.substitution_map(params.as_slice());
    let ghost sv = subst_view(subst@);
    assert(sv == layout_subst(fs@, views(args@)));
    proof { lemma_all_bound_all(field_types(fs@), sv); }
    let mut fields: Vec<(String, BirType)> = Vec::new();
    let mut k: usize = 0;
    while k < fs.len()
        invariant
            sv == subst_view(subst@),
            forall|i: int| 0 <= i < fs@.len() ==> all_bound(#[trigger] field_types(fs@)[i], sv),
            k <= fs@.len(),
            fields@.len() == k,
            forall|i: int| 0 <= i < k ==> (#[trigger] fields@[i]).0@ == fs@[i].0@ && fields@[i].1@ == resolve(fs@[i].1@, sv),
        decreases fs@.len() - k,
    {
        assert(field_types(fs@)[k as int] == fs@[k as int].1@);
        fields.push((fs[k].0.clone(), resolve_bir_type(&fs[k].1, &subst)));
        k = k + 1;
    }
    (instance.mangled_name(), fields)
}

/// The concrete layouts of the generic struct instances that monomorphization
/// found, for those whose struct has a layout in the module, in the order of the
/// instances: each named by the instance's symbol, with the type parameters of
/// the layout (in order of first occurrence in its fields) bound to the
/// instance's type arguments.
pub fn generic_struct_layouts(
    bir_module: &BirModule,
    mono_result: &MonoCollectResult,
) -> (r: Vec<(String, Vec<(String, BirType)>)>)
    requires
        instances_bound(bir_module.struct_layouts@, mono_result.struct_instances@),
    ensures
        r@.len() == laid_out_positions(bir_module.struct_layouts@, mono_result.struct_instances@).len(),
        forall|i: int|
            0 <= i < r@.len() ==> {
                let p = laid_out_positions(bir_module.struct_layouts@, mono_result.struct_instances@)[i];
                let inst = mono_result.struct_instances@[p];
                instance_layout(
                    #[trigger] r@[i],
                    inst,
                    bir_module.struct_layouts@[layout_named(bir_module.struct_layouts@, inst.0@)->0].1@,
                )
            },
{
    let ghost ls = bir_module.struct_layouts@;
    let ghost insts = mono_result.struct_instances@;
    let mut r: Vec<(String, Vec<(String, BirType)>)> = Vec::new();
    let mut k: usize = 0;
    assert(insts.take(0) =~= Seq::<(String, Vec<BirType>)>::empty());
    while k < mono_result.struct_instances.len()
        invariant
            ls == bir_module.struct_layouts@,
            insts == mono_result.struct_instances@,
            instances_bound(ls, insts),
            k <= insts.len(),
            r@.len() == laid_out_positions(ls, insts.take(k as int)).len(),
            forall|i: int|
                0 <= i < laid_out_positions(ls, insts.take(k as int)).len() ==> 0
                    <= #[trigger] laid_out_positions(ls, insts.take(k as int))[i] < k,
            forall|i: int|
                0 <= i < r@.len() ==> {
                    let p = laid_out_positions(ls, insts.take(k as int))[i];
                    let inst = insts[p];
                    instance_layout(#[trigger] r@[i], inst, ls[layout_named(ls, inst.0@)->0].1@)
                },
        decreases insts.len() - k,
    {
        let ghost before = laid_out_positions(ls, insts.take(k as int));
        assert(insts.take(k + 1).drop_last() =~= insts.take(k as int));
        assert(insts.take(k + 1).last() == insts[k as int]);
        let (name, args) = &mono_result.struct_instances[k];
        match find_layout(&bir_module.struct_layouts, name) {
            Some(j) => {
                assert(layout_named(ls, insts[k as int].0@) is Some);
                let layout = instance_layout_of(&bir_module.struct_layouts[j].1, name, args);
                r.push(layout);
                assert(laid_out_positions(ls, insts.take(k + 1)) == before.push(k as int));
            },
            None => {
                assert(laid_out_positions(ls, insts.take(k + 1)) == before);
            },
        }
        k = k + 1;
    }
    assert(insts.take(insts.len() as int) =~= insts);
    r
}


/// The types of a map of values, by the number of each value.
pub open spec fn types_view(m: Map<u32, BirType>) -> Map<u32, TypeV> {
    m.map_values(|t: BirType| t@)
}

/// The substitution of a call of `name` with type arguments `args`: the callee's
/// type parameters bound to them, or nothing when the module has no such function.
pub open spec fn callee_subst(fns: Seq<BirFunction>, name: Seq<char>, args: Seq<TypeV>) -> Seq<(Seq<char>, TypeV)> {
    match function_named(fns, name) {
        Some(j) => instance_subst(strings_view(fns[j].type_params@), args),
        None => Seq::empty(),
    }
}

/// The position of the type parameter list of struct `name`; a later entry takes precedence.
pub open spec fn struct_params_named(sps: Seq<(String, Vec<String>)>, name: Seq<char>) -> Option<int>
    decreases sps.len(),
{
    if sps.len() == 0 {
        None
    } else if sps.last().0@ == name {
        Some(sps.len() - 1)
    } else {
        struct_params_named(sps.drop_last(), name)
    }
}

/// The substitution of a struct type: the struct's type parameters bound to its type
/// arguments, or nothing when the module lists no parameters for it.
pub open spec fn struct_subst(sps: Seq<(String, Vec<String>)>, name: Seq<char>, args: Seq<TypeV>) -> Seq<(Seq<char>, TypeV)> {
    match struct_params_named(sps, name) {
        Some(j) => instance_subst(strings_view(sps[j].1@), args),
        None => Seq::empty(),
    }
}

/// The value an instruction defines and its type, given the types known so far:
/// a generic call's type is resolved through the callee's type parameters, and a
/// field read whose type has type parameters through those of the object's struct.
pub open spec fn inst_entry(inst: Instruction, m: Map<u32, TypeV>, module: BirModule) -> (u32, TypeV) {
    match inst {
        Instruction::Literal { result, ty, .. } => (result.0, ty@),
        Instruction::BinaryOp { result, ty, .. } => (result.0, ty@),
        Instruction::Compare { result, .. } => (result.0, TypeV::Bool),
        Instruction::Not { result, .. } => (result.0, TypeV::Bool),
        Instruction::Cast { result, to_ty, .. } => (result.0, to_ty@),
        Instruction::Call { result, func_name, type_args, ty, .. } => if type_args@.len() == 0 {
            (result.0, ty@)
        } else {
            (result.0, resolve(ty@, callee_subst(module.functions@, func_name@, views(type_args@))))
        },
        Instruction::StructInit { result, ty, .. } => (result.0, ty@),
        Instruction::FieldGet { result, object, ty, .. } => if has_type_param(ty@) && m.contains_key(object.0)
            && m[object.0] is Struct {
            (result.0, resolve(ty@, struct_subst(module.struct_type_params@, m[object.0]->name, m[object.0]->type_args)))
        } else {
            (result.0, ty@)
        },
        Instruction::FieldSet { result, ty, .. } => (result.0, ty@),
        Instruction::ArrayInit { result, ty, .. } => (result.0, ty@),
        Instruction::ArrayGet { result, ty, .. } => (result.0, ty@),
        Instruction::ArraySet { result, ty, .. } => (result.0, ty@),
    }
}

/// The types known after a list of instructions, each entry replacing any earlier one for its value.
pub open spec fn insts_value_types(is: Seq<Instruction>, m: Map<u32, TypeV>, module: BirModule) -> Map<u32, TypeV>
    decreases is.len(),
{
    if is.len() == 0 {
        m
    } else {
        let before = insts_value_types(is.drop_last(), m, module);
        let e = inst_entry(is.last(), before, module);
        before.insert(e.0, e.1)
    }
}

/// The types known after a list of (value, type) pairs.
pub open spec fn pairs_value_types(ps: Seq<(Value, BirType)>, m: Map<u32, TypeV>) -> Map<u32, TypeV>
    decreases ps.len(),
{
    if ps.len() == 0 {
        m
    } else {
        pairs_value_types(ps.drop_last(), m).insert(ps.last().0.0, ps.last().1@)
    }
}

/// The types known after a list of blocks: each block's parameters, then its instructions.
pub open spec fn blocks_value_types(bs: Seq<BasicBlock>, m: Map<u32, TypeV>, module: BirModule) -> Map<u32, TypeV>
    decreases bs.len(),
{
    if bs.len() == 0 {
        m
    } else {
        let before = blocks_value_types(bs.drop_last(), m, module);
        insts_value_types(bs.last().instructions@, pairs_value_types(bs.last().params@, before), module)
    }
}

/// The type of each value of a function: its parameters, then block by block.
pub open spec fn function_value_types(f: BirFunction, module: BirModule) -> Map<u32, TypeV> {
    blocks_value_types(f.blocks@, pairs_value_types(f.params@, Map::empty()), module)
}

/// Binds each name to the type at the same position; extra ones on either side are dropped.
fn zip_subst(params: &Vec<String>, args: &Vec<BirType>) -> (r: Vec<(String, BirType)>)
    ensures
        subst_view(r@) == instance_subst(strings_view(params@), views(args@)),
{
    proof { lemma_views(args@); }
    let mut r: Vec<(String, BirType)> = Vec::new();
    let mut k: usize = 0;
    while k < params.len() && k < args.len()
        invariant
            k <= params@.len(),
            k <= args@.len(),
            r@.len() == k,
            views(args@).len() == args@.len(),
            forall|i: int| 0 <= i < args@.len() ==> #[trigger] views(args@)[i] == args@[i]@,
            forall|i: int| 0 <= i < k ==> (#[trigger] r@[i]).0@ == params@[i]@ && r@[i].1@ == args@[i]@,
        decreases params@.len() - k,
    {
        r.push((params[k].clone(), args[k].copy()));
        k = k + 1;
    }
    assert(subst_view(r@) =~= instance_subst(strings_view(params@), views(args@)));
    r
}

/// The position of the type parameter list of struct `name`, searching from the end.
fn find_struct_params(sps: &Vec<(String, Vec<String>)>, name: &String) -> (r: Option<usize>)
    ensures
        match r {
            Some(i) => struct_params_named(sps@, name@) == Some(i as int) && i < sps@.len(),
            None => struct_params_named(sps@, name@) is None,
        },
{
    let mut k: usize = sps.len();
    assert(sps@.take(k as int) =~= sps@);
    while k > 0
        invariant
            k <= sps@.len(),
            struct_params_named(sps@, name@) == struct_params_named(sps@.take(k as int), name@),
        decreases k,
    {
        assert(sps@.take(k as int).drop_last() =~= sps@.take(k - 1));
        if sps[k - 1].0.eq(name) {
            return Some(k - 1);
        }
        k = k - 1;
    }
    None
}

/// The value an instruction defines and its type, given the types known so far.
fn instruction_entry(inst: &Instruction, known: &HashMap<u32, BirType>, module: &BirModule) -> (r: (u32, BirType))
    ensures
        (r.0, r.1@) == inst_entry(*inst, types_view(known@), *module),
{
    broadcast use vstd::std_specs::hash::group_hash_axioms;

    match inst {
        Instruction::Literal { result, ty, .. } => (result.0, ty.copy()),
        Instruction::BinaryOp { result, ty, .. } => (result.0, ty.copy()),
        Instruction::Compare { result, .. } => (result.0, BirType::Bool),
        Instruction::Not { result, .. } => (result.0, BirType::Bool),
        Instruction::Cast { result, to_ty, .. } => (result.0, to_ty.copy()),
        Instruction::Call { result, func_name, type_args, ty, .. } => {
            if type_args.len() == 0 {
                (result.0, ty.copy())
            } else {
                let subst = match find_function(&module.functions, func_name) {
                    Some(j) => zip_subst(&module.functions[j].type_params, type_args),
                    None => Vec::new(),
                };
                assert(subst_view(subst@) =~= callee_subst(module.functions@, func_name@, views(type_args@)));
                (result.0, resolve_bir_type_lenient(ty, &subst))
            }
        },
        Instruction::StructInit { result, ty, .. } => (result.0, ty.copy()),
        Instruction::FieldGet { result, object, ty, .. } => {
            if contains_type_param(ty) {
                match known.get(&object.0) {
                    Some(BirType::Struct { name, type_args }) => {
                        assert(types_view(known@)[object.0] == known@[object.0]@);
                        let subst = match find_struct_params(&module.struct_type_params, name) {
                            Some(j) => zip_subst(&module.struct_type_params[j].1, type_args),
                            None => Vec::new(),
                        };
                        assert(subst_view(subst@) =~= struct_subst(module.struct_type_params@, name@, views(type_args@)));
                        (result.0, resolve_bir_type_lenient(ty, &subst))
                    },
                    Some(other) => {
                        assert(types_view(known@)[object.0] == known@[object.0]@);
                        (result.0, ty.copy())
                    },
                    None => (result.0, ty.copy()),
                }
            } else {
                (result.0, ty.copy())
            }
        },
        Instruction::FieldSet { result, ty, .. } => (result.0, ty.copy()),
        Instruction::ArrayInit { result, ty, .. } => (result.0, ty.copy()),
        Instruction::ArrayGet { result, ty, .. } => (result.0, ty.copy()),
        Instruction::ArraySet { result, ty, .. } => (result.0, ty.copy()),
    }
}


/// Records the types of a list of (value, type) pairs.
fn insert_pairs(known: &mut HashMap<u32, BirType>, ps: &Vec<(Value, BirType)>)
    ensures
        types_view(final(known)@) == pairs_value_types(ps@, types_view(old(known)@)),
{
    broadcast use vstd::std_specs::hash::group_hash_axioms;

    let ghost start = types_view(known@);
    let mut k: usize = 0;
    assert(ps@.take(0) =~= Seq::<(Value, BirType)>::empty());
    while k < ps.len()
        invariant
            k <= ps@.len(),
            types_view(known@) == pairs_value_types(ps@.take(k as int), start),
        decreases ps@.len() - k,
    {
        assert(ps@.take(k + 1).drop_last() =~= ps@.take(k as int));
        assert(ps@.take(k + 1).last() == ps@[k as int]);
        let ghost before = known@;
        known.insert(ps[k].0.0, ps[k].1.copy());
        assert(types_view(known@) =~= types_view(before).insert(ps@[k as int].0.0, ps@[k as int].1@));
        k = k + 1;
    }
    assert(ps@.take(ps@.len() as int) =~= ps@);
}

/// The type of each value of a function, keyed by the value's number: its
/// parameters, the parameters of each block and the result of each instruction,
/// in order, a later entry replacing an earlier one for the same value. The
/// result type of a generic call is resolved through the callee's type
/// parameters, and that of a field read with type parameters through those of
/// the struct of the object as known at that point.
pub fn collect_value_types(func: &BirFunction, bir_module: &BirModule) -> (r: HashMap<u32, BirType>)
    ensures
        types_view(r@) == function_value_types(*func, *bir_module),
{
    broadcast use vstd::std_specs::hash::group_hash_axioms;

    let mut known: HashMap<u32, BirType> = HashMap::new();
    assert(types_view(known@) =~= Map::<u32, TypeV>::empty());
    insert_pairs(&mut known, &func.params);
    let ghost start = types_view(known@);
    let mut b: usize = 0;
    assert(func.blocks@.take(0) =~= Seq::<BasicBlock>::empty());
    while b < func.blocks.len()
        invariant
            b <= func.blocks@.len(),
            start == pairs_value_types(func.params@, Map::empty()),
            types_view(known@) == blocks_value_types(func.blocks@.take(b as int), start, *bir_module),
        decreases func.blocks@.len() - b,
    {
        assert(func.blocks@.take(b + 1).drop_last() =~= func.blocks@.take(b as int));
        assert(func.blocks@.take(b + 1).last() == func.blocks@[b as int]);
        let block = &func.blocks[b];
        insert_pairs(&mut known, &block.params);
        let ghost after_params = types_view(known@);
        let mut k: usize = 0;
        assert(block.instructions@.take(0) =~= Seq::<Instruction>::empty());
        while k < block.instructions.len()
            invariant
                k <= block.instructions@.len(),
                types_view(known@) == insts_value_types(block.instructions@.take(k as int), after_params, *bir_module),
            decreases block.instructions@.len() - k,
        {
            let ghost is = block.instructions@;
            assert(is.take(k + 1).drop_last() =~= is.take(k as int));
            assert(is.take(k + 1).last() == is[k as int]);
            let entry = instruction_entry(&block.instructions[k], &known, bir_module);
            let ghost before = known@;
            known.insert(entry.0, entry.1);
            assert(types_view(known@) =~= types_view(before).insert(entry.0, entry.1@));
            k = k + 1;
        }
        assert(block.instructions@.take(block.instructions@.len() as int) =~= block.instructions@);
        b = b + 1;
    }
    assert(func.blocks@.take(func.blocks@.len() as int) =~= func.blocks@);
    known
}

} // verus!
