//! Which functions a module compiles to: its non-generic functions and the
//! concrete functions of its generic instances.
use vstd::prelude::*;

use super::generic_resolution::{
    conformance_view, function_bound, instance_subst_of, resolve_function, resolved_block, resolved_pairs,
};
use crate::bir::instruction::{BirFunction, BirModule, TypeV};
use crate::bir::mono::{find_function, function_named, resolve, Instance, MonoCollectResult};
use crate::mangle::args_code;

verus! {

/// The positions of the module's non-generic functions, in order.
pub open spec fn non_generic_positions(fns: Seq<BirFunction>) -> Seq<int>
    decreases fns.len(),
{
    if fns.len() == 0 {
        Seq::empty()
    } else if fns.last().type_params@.len() == 0 {
        non_generic_positions(fns.drop_last()).push(fns.len() - 1)
    } else {
        non_generic_positions(fns.drop_last())
    }
}

/// The functions of a module that have no type parameters, in the module's order.
pub fn non_generic_functions(bir_module: &BirModule) -> (r: Vec<&BirFunction>)
    ensures
        r@.len() == non_generic_positions(bir_module.functions@).len(),
        forall|i: int|
            0 <= i < r@.len() ==> *(#[trigger] r@[i]) == bir_module.functions@[non_generic_positions(
                bir_module.functions@,
            )[i]],
{
    let ghost fns = bir_module.functions@;
    let mut r: Vec<&BirFunction> = Vec::new();
    let mut k: usize = 0;
    assert(fns.take(0) =~= Seq::<BirFunction>::empty());
    while k < bir_module.functions.len()
        invariant
            fns == bir_module.functions@,
            k <= fns.len(),
            r@.len() == non_generic_positions(fns.take(k as int)).len(),
            forall|i: int| 0 <= i < r@.len() ==> *(#[trigger] r@[i]) == fns[non_generic_positions(fns.take(k as int))[i]],
            forall|i: int|
                0 <= i < non_generic_positions(fns.take(k as int)).len() ==> 0 <= #[trigger] non_generic_positions(
                    fns.take(k as int),
                )[i] < k,
        decreases fns.len() - k,
    {
        let ghost before = non_generic_positions(fns.take(k as int));
        assert(fns.take(k + 1).drop_last() =~= fns.take(k as int));
        assert(fns.take(k + 1).last() == fns[k as int]);
        if bir_module.functions[k].type_params.len() == 0 {
            r.push(&bir_module.functions[k]);
            assert(non_generic_positions(fns.take(k + 1)) == before.push(k as int));
        } else {
            assert(non_generic_positions(fns.take(k + 1)) == before);
        }
        k = k + 1;
    }
    assert(fns.take(fns.len() as int) =~= fns);
    r
}

/// The positions of the instances whose function the module defines, in order.
pub open spec fn defined_positions(fns: Seq<BirFunction>, insts: Seq<Instance>) -> Seq<int>
    decreases insts.len(),
{
    if insts.len() == 0 {
        Seq::empty()
    } else if function_named(fns, insts.last().func_name@) is Some {
        defined_positions(fns, insts.drop_last()).push(insts.len() - 1)
    } else {
        defined_positions(fns, insts.drop_last())
    }
}

/// `r` is the concrete function of instance `inst` of the generic function `f`, as `resolve_function` makes it.
pub open spec fn instance_function(
    r: BirFunction,
    f: BirFunction,
    inst: Instance,
    conf: Seq<((Seq<char>, TypeV), Seq<char>)>,
) -> bool {
    &&& r.name@ == inst.func_name@ + args_code(inst@.1)
    &&& r.type_params@.len() == 0
    &&& resolved_pairs(f.params@, r.params@, instance_subst_of(f, inst))
    &&& r.return_type@ == resolve(f.return_type@, instance_subst_of(f, inst))
    &&& r.blocks@.len() == f.blocks@.len()
    &&& forall|i: int|
        0 <= i < f.blocks@.len() ==> resolved_block(f.blocks@[i], #[trigger] r.blocks@[i], instance_subst_of(f, inst), conf)
    &&& r.body@.len() == 0
}

/// Every instance whose function the module defines binds each type parameter of that function.
pub open spec fn instances_resolvable(fns: Seq<BirFunction>, insts: Seq<Instance>) -> bool {
    forall|i: int|
        0 <= i < insts.len() && #[trigger] function_named(fns, insts[i].func_name@) is Some ==> function_bound(
            fns[function_named(fns, insts[i].func_name@)->0],
            instance_subst_of(fns[function_named(fns, insts[i].func_name@)->0], insts[i]),
        )
}

/// The concrete functions of the generic instances that monomorphization found,
/// for those whose function the module defines, in the order of the instances.
pub fn resolve_instances(bir_module: &BirModule, mono_result: &MonoCollectResult) -> (r: Vec<BirFunction>)
    requires
        instances_resolvable(bir_module.functions@, mono_result.func_instances@),
    ensures
        r@.len() == defined_positions(bir_module.functions@, mono_result.func_instances@).len(),
        forall|i: int|
            0 <= i < r@.len() ==> {
                let p = defined_positions(bir_module.functions@, mono_result.func_instances@)[i];
                let inst = mono_result.func_instances@[p];
                instance_function(
                    #[trigger] r@[i],
                    bir_module.functions@[function_named(bir_module.functions@, inst.func_name@)->0],
                    inst,
                    conformance_view(bir_module.conformance_map@),
                )
            },
{
    let ghost fns = bir_module.functions@;
    let ghost insts = mono_result.func_instances@;
    let ghost cv = conformance_view(bir_module.conformance_map@);
    let mut r: Vec<BirFunction> = Vec::new();
    let mut k: usize = 0;
    assert(insts.take(0) =~= Seq::<Instance>::empty());
    while k < mono_result.func_instances.len()
        invariant
            fns == bir_module.functions@,
            insts == mono_result.func_instances@,
            cv == conformance_view(bir_module.conformance_map@),
            instances_resolvable(fns, insts),
            k <= insts.len(),
            r@.len() == defined_positions(fns, insts.take(k as int)).len(),
            forall|i: int|
                0 <= i < defined_positions(fns, insts.take(k as int)).len() ==> 0
                    <= #[trigger] defined_positions(fns, insts.take(k as int))[i] < k,
            forall|i: int|
                0 <= i < r@.len() ==> {
                    let p = defined_positions(fns, insts.take(k as int))[i];
                    let inst = insts[p];
                    instance_function(#[trigger] r@[i], fns[function_named(fns, inst.func_name@)->0], inst, cv)
                },
        decreases insts.len() - k,
    {
        let ghost before = defined_positions(fns, insts.take(k as int));
        assert(insts.take(k + 1).drop_last() =~= insts.take(k as int));
        assert(insts.take(k + 1).last() == insts[k as int]);
        let instance = &mono_result.func_instances[k];
        match find_function(&bir_module.functions, &instance.func_name) {
            Some(j) => {
                assert(function_named(fns, insts[k as int].func_name@) is Some);
                let f = resolve_function(&bir_module.functions[j], instance, &bir_module.conformance_map);
                r.push(f);
                assert(defined_positions(fns, insts.take(k + 1)) == before.push(k as int));
            },
            None => {
                assert(defined_positions(fns, insts.take(k + 1)) == before);
            },
        }
        k = k + 1;
    }
    assert(insts.take(insts.len() as int) =~= insts);
    r
}

} // verus!
