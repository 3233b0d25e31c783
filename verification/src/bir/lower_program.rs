//! Lowering a whole program to a BIR module: the struct layouts and their checks, the
//! signature tables, each function lowered by the walk, the protocol conformances and the
//! type parameters of generic structs.
use vstd::prelude::*;

use super::instruction::{BirFunction, BirModule, BirType, TypeV};
use super::lower_state::{bir_of, entry_of, find_entry, names_of, resolved_name, Lowering};
use super::lower_walk::{function_ok, function_run, same_tables};
use super::lowering::{
    check_acyclic_structs, lowerable, lowered_type, reject_unit_fields, reports_recursive, reports_unit_field,
    search, semantic_type_to_bir, unit_field_at, Visit,
};
use crate::ast::{Function, Program, StructDef, StructMember, TypeParam};
use crate::error::{BengalError, DiagCtxt, Span};
use crate::semantic::{ProtocolInfo, SemanticInfo, StructInfo};
use crate::text::push_str;

verus! {

// ---------------------------------------------------------------- what is built

/// The names of a list of type parameters.
pub open spec fn tp_names(tps: Seq<TypeParam>) -> Seq<Seq<char>> {
    Seq::new(tps.len(), |i: int| tps[i].name@)
}

/// `a_b`: the local name of a method `b` of struct `a`, or of a protocol's method.
pub open spec fn joined(a: Seq<char>, b: Seq<char>) -> Seq<char> {
    a + seq!['_'] + b
}

/// The model of a table of struct layouts.
pub open spec fn layouts_view(ls: Seq<(String, Vec<(String, BirType)>)>) -> Seq<(Seq<char>, Seq<(Seq<char>, TypeV)>)> {
    Seq::new(ls.len(), |i: int| (ls[i].0@, Seq::new(ls[i].1@.len(), |j: int| (ls[i].1@[j].0@, ls[i].1@[j].1@))))
}

/// The layouts of the structs semantic analysis knows: each field with its lowered type.
pub open spec fn expected_layouts(defs: Seq<(String, StructInfo)>) -> Seq<(Seq<char>, Seq<(Seq<char>, TypeV)>)> {
    Seq::new(
        defs.len(),
        |i: int| (defs[i].0@, Seq::new(defs[i].1.fields@.len(), |j: int| (defs[i].1.fields@[j].0@, lowered_type(defs[i].1.fields@[j].1)))),
    )
}

/// Every field type of every struct can be lowered.
pub open spec fn fields_lowerable(defs: Seq<(String, StructInfo)>) -> bool {
    forall|i: int, j: int| 0 <= i < defs.len() && 0 <= j < defs[i].1.fields@.len() ==> lowerable(#[trigger] defs[i].1.fields@[j].1)
}

/// Every method return type of every struct can be lowered.
pub open spec fn methods_lowerable(defs: Seq<(String, StructInfo)>) -> bool {
    forall|i: int, j: int| 0 <= i < defs.len() && 0 <= j < defs[i].1.methods@.len() ==> lowerable(#[trigger] defs[i].1.methods@[j].return_type)
}

/// The spans of the program's structs, by name.
pub open spec fn expected_spans(structs: Seq<StructDef>) -> Seq<(String, Span)> {
    Seq::new(structs.len(), |i: int| (structs[i].name, structs[i].span))
}

/// The model of a signature table.
pub open spec fn sigs_view(v: Seq<(String, BirType)>) -> Seq<(Seq<char>, TypeV)> {
    Seq::new(v.len(), |i: int| (v[i].0@, v[i].1@))
}

/// The model of a table of type parameter names.
pub open spec fn tps_view(v: Seq<(String, Vec<String>)>) -> Seq<(Seq<char>, Seq<Seq<char>>)> {
    Seq::new(v.len(), |i: int| (v[i].0@, names_of(v[i].1@)))
}

/// The return type of each function under its emitted name.
pub open spec fn fn_sigs(fs: Seq<Function>, map: Option<Vec<(String, String)>>) -> Seq<(Seq<char>, TypeV)> {
    Seq::new(fs.len(), |i: int| (resolved_name(map, fs[i].name@), bir_of(fs[i].return_type@, tp_names(fs[i].type_params@))))
}

/// The return type of each method of each struct under its emitted name.
pub open spec fn method_sigs(defs: Seq<(String, StructInfo)>, map: Option<Vec<(String, String)>>) -> Seq<(Seq<char>, TypeV)>
    decreases defs.len(),
{
    if defs.len() == 0 {
        Seq::empty()
    } else {
        let d = defs.last();
        method_sigs(defs.drop_last(), map) + Seq::new(
            d.1.methods@.len(),
            |j: int| (resolved_name(map, joined(d.0@, d.1.methods@[j].name@)), lowered_type(d.1.methods@[j].return_type)),
        )
    }
}

/// The type parameter names of each generic function under its emitted name.
pub open spec fn fn_tps(fs: Seq<Function>, map: Option<Vec<(String, String)>>) -> Seq<(Seq<char>, Seq<Seq<char>>)>
    decreases fs.len(),
{
    if fs.len() == 0 {
        Seq::empty()
    } else if fs.last().type_params@.len() > 0 {
        fn_tps(fs.drop_last(), map).push((resolved_name(map, fs.last().name@), tp_names(fs.last().type_params@)))
    } else {
        fn_tps(fs.drop_last(), map)
    }
}

/// The type parameter names of each method of each generic struct under its emitted name.
pub open spec fn method_tps(defs: Seq<(String, StructInfo)>, map: Option<Vec<(String, String)>>) -> Seq<(Seq<char>, Seq<Seq<char>>)>
    decreases defs.len(),
{
    if defs.len() == 0 {
        Seq::empty()
    } else {
        let d = defs.last();
        method_tps(defs.drop_last(), map) + if d.1.type_params@.len() > 0 {
            Seq::new(
                d.1.methods@.len(),
                |j: int| (resolved_name(map, joined(d.0@, d.1.methods@[j].name@)), tp_names(d.1.type_params@)),
            )
        } else {
            Seq::empty()
        }
    }
}

/// The model of a conformance map.
pub open spec fn conf_view(v: Seq<((String, BirType), String)>) -> Seq<((Seq<char>, TypeV), Seq<char>)> {
    Seq::new(v.len(), |i: int| ((v[i].0.0@, v[i].0.1@), v[i].1@))
}

/// The entries for one conformance `c` of struct `sd`: each method of the protocol, when
/// semantic analysis knows it, paired with the struct's implementation under its emitted name.
pub open spec fn conf_entries(
    sd: StructDef,
    c: Seq<char>,
    protos: Seq<(String, ProtocolInfo)>,
    map: Option<Vec<(String, String)>>,
) -> Seq<((Seq<char>, TypeV), Seq<char>)> {
    match entry_of(protos, c) {
        Some(p) => Seq::new(
            p.methods@.len(),
            |j: int| (
                (joined(c, p.methods@[j].name@), TypeV::Struct { name: sd.name@, type_args: Seq::empty() }),
                resolved_name(map, joined(sd.name@, p.methods@[j].name@)),
            ),
        ),
        None => Seq::empty(),
    }
}

/// The entries for the first `k` conformances of struct `sd`.
pub open spec fn conf_struct(
    sd: StructDef,
    k: int,
    protos: Seq<(String, ProtocolInfo)>,
    map: Option<Vec<(String, String)>>,
) -> Seq<((Seq<char>, TypeV), Seq<char>)>
    decreases k,
{
    if k <= 0 {
        Seq::empty()
    } else {
        conf_struct(sd, k - 1, protos, map) + conf_entries(sd, sd.conformances@[k - 1]@, protos, map)
    }
}

/// The conformance map of the structs, in order.
pub open spec fn expected_conf(
    structs: Seq<StructDef>,
    protos: Seq<(String, ProtocolInfo)>,
    map: Option<Vec<(String, String)>>,
) -> Seq<((Seq<char>, TypeV), Seq<char>)>
    decreases structs.len(),
{
    if structs.len() == 0 {
        Seq::empty()
    } else {
        let sd = structs.last();
        expected_conf(structs.drop_last(), protos, map) + conf_struct(sd, sd.conformances@.len() as int, protos, map)
    }
}

/// The type parameter names of each generic struct.
pub open spec fn expected_struct_tps(defs: Seq<(String, StructInfo)>) -> Seq<(Seq<char>, Seq<Seq<char>>)>
    decreases defs.len(),
{
    if defs.len() == 0 {
        Seq::empty()
    } else if defs.last().1.type_params@.len() > 0 {
        expected_struct_tps(defs.drop_last()).push((defs.last().0@, tp_names(defs.last().1.type_params@)))
    } else {
        expected_struct_tps(defs.drop_last())
    }
}

/// The state in which the program's functions are lowered: the name map, the struct-literal
/// calls of semantic analysis, no inferred type arguments, and the signature tables.
pub open spec fn program_ctx(
    s: Lowering,
    program_fns: Seq<Function>,
    sem: SemanticInfo,
    map: Option<Vec<(String, String)>>,
) -> bool {
    &&& s.name_map == map
    &&& s.struct_init_calls@ == sem.struct_init_calls@
    &&& s.inferred_type_args@.len() == 0
    &&& sigs_view(s.func_sigs@) == fn_sigs(program_fns, map) + method_sigs(sem.struct_defs@, map)
    &&& tps_view(s.func_type_param_names@) == fn_tps(program_fns, map) + method_tps(sem.struct_defs@, map)
}

/// What lowering a program needs: every struct field and method type resolved, no struct
/// method bodies, and each function lowerable by the walk.
pub open spec fn program_lowerable<I, P>(program: Program<I, P>, sem: SemanticInfo) -> bool {
    &&& fields_lowerable(sem.struct_defs@)
    &&& methods_lowerable(sem.struct_defs@)
    &&& forall|i: int, j: int| 0 <= i < program.structs@.len() && 0 <= j < program.structs@[i].members@.len()
        ==> !(#[trigger] program.structs@[i].members@[j] is Method)
    &&& forall|i: int, s: Lowering| 0 <= i < program.functions@.len() && s.struct_init_calls@ == sem.struct_init_calls@
        ==> #[trigger] function_ok(s, program.functions@[i])
}

/// The struct checks fail on layouts `ls`, in their order, with `e`: the first unit-typed
/// field, else the recursive struct that the search meets.
pub open spec fn struct_error(ls: Seq<(String, Vec<(String, BirType)>)>, sp: Seq<(String, Span)>, e: BengalError) -> bool {
    if exists|k: int, f: int| unit_field_at(ls, k, f) {
        exists|k: int, f: int| #[trigger] unit_field_at(ls, k, f) && reports_unit_field(e, ls, k, f, sp)
            && forall|a: int, b: int| (a < k || (a == k && b < f)) ==> !#[trigger] unit_field_at(ls, a, b)
    } else {
        search(ls) matches Visit::Cycle(c) && reports_recursive(e, c, sp)
    }
}

/// The struct checks pass on layouts `ls`.
pub open spec fn structs_ok(ls: Seq<(String, Vec<(String, BirType)>)>) -> bool {
    &&& forall|k: int, f: int| !unit_field_at(ls, k, f)
    &&& search(ls) is Done
}

// ---------------------------------------------------------------- building

/// The layout of each struct semantic analysis knows.
fn build_struct_layouts(defs: &Vec<(String, StructInfo)>) -> (r: Vec<(String, Vec<(String, BirType)>)>)
    requires
        fields_lowerable(defs@),
    ensures
        layouts_view(r@) == expected_layouts(defs@),
{
    let mut r: Vec<(String, Vec<(String, BirType)>)> = Vec::new();
    let mut i: usize = 0;
    while i < defs.len()
        invariant
            i <= defs@.len(),
            fields_lowerable(defs@),
            layouts_view(r@) == expected_layouts(defs@).take(i as int),
        decreases defs@.len() - i,
    {
        let info = &defs[i].1;
        let mut fields: Vec<(String, BirType)> = Vec::new();
        let mut j: usize = 0;
        while j < info.fields.len()
            invariant
                i < defs@.len(),
                *info == defs@[i as int].1,
                fields_lowerable(defs@),
                j <= info.fields@.len(),
                fields@.len() == j,
                forall|m: int| 0 <= m < j ==> (#[trigger] fields@[m]).0@ == info.fields@[m].0@
                    && fields@[m].1@ == lowered_type(info.fields@[m].1),
            decreases info.fields@.len() - j,
        {
            assert(lowerable(defs@[i as int].1.fields@[j as int].1));
            fields.push((info.fields[j].0.clone(), semantic_type_to_bir(&info.fields[j].1)));
            j = j + 1;
        }
        let ghost before = r@;
        r.push((defs[i].0.clone(), fields));
        assert(layouts_view(r@) =~= expected_layouts(defs@).take(i + 1)) by {
            assert(layouts_view(before) =~= expected_layouts(defs@).take(i as int));
            assert(layouts_view(before).len() == i);
            assert(before.len() == i);
            assert(r@.len() == i + 1);
            assert forall|a: int| 0 <= a < i implies #[trigger] layouts_view(r@)[a] == layouts_view(before)[a] by {
                assert(r@[a] == before[a]);
            }
            assert(layouts_view(r@)[i as int].1 =~= expected_layouts(defs@)[i as int].1);
        }
        i = i + 1;
    }
    assert(expected_layouts(defs@).take(defs@.len() as int) =~= expected_layouts(defs@));
    r
}

/// The name and span of each struct of the program.
fn build_struct_spans(structs: &Vec<StructDef>) -> (r: Vec<(String, Span)>)
    ensures
        r@ == expected_spans(structs@),
{
    let mut r: Vec<(String, Span)> = Vec::new();
    let mut i: usize = 0;
    while i < structs.len()
        invariant
            i <= structs@.len(),
            r@ == expected_spans(structs@).take(i as int),
        decreases structs@.len() - i,
    {
        r.push((structs[i].name.clone(), structs[i].span));
        assert(r@ =~= expected_spans(structs@).take(i + 1));
        i = i + 1;
    }
    assert(expected_spans(structs@).take(structs@.len() as int) =~= expected_spans(structs@));
    r
}

/// The names of a list of type parameters.
fn type_param_names(tps: &Vec<TypeParam>) -> (r: Vec<String>)
    ensures
        names_of(r@) == tp_names(tps@),
{
    let mut r: Vec<String> = Vec::new();
    let mut i: usize = 0;
    while i < tps.len()
        invariant
            i <= tps@.len(),
            r@.len() == i,
            forall|m: int| 0 <= m < i ==> #[trigger] r@[m]@ == tps@[m].name@,
        decreases tps@.len() - i,
    {
        r.push(tps[i].name.clone());
        i = i + 1;
    }
    assert(names_of(r@) =~= tp_names(tps@));
    r
}

/// `a_b`.
fn join_names(a: &String, b: &String) -> (r: String)
    ensures
        r@ == joined(a@, b@),
{
    let mut r = a.clone();
    push_str(&mut r, "_");
    push_str(&mut r, b.as_str());
    proof { reveal_strlit("_"); }
    assert(r@ =~= joined(a@, b@));
    r
}

/// The state in which the program's functions are lowered.
fn program_lowering(fs: &Vec<Function>, sem: &SemanticInfo, map: Option<Vec<(String, String)>>) -> (l: Lowering)
    requires
        methods_lowerable(sem.struct_defs@),
    ensures
        program_ctx(l, fs@, *sem, map),
        l.lowering_errors@.len() == 0,
{
    let ghost gm = map;
    let mut l = Lowering::new();
    l.name_map = map;
    let mut k: usize = 0;
    while k < sem.struct_init_calls.len()
        invariant
            k <= sem.struct_init_calls@.len(),
            l.struct_init_calls@ == sem.struct_init_calls@.take(k as int),
            l.name_map == gm,
            l.inferred_type_args@.len() == 0,
            l.lowering_errors@.len() == 0,
            l.func_sigs@.len() == 0,
            l.func_type_param_names@.len() == 0,
        decreases sem.struct_init_calls@.len() - k,
    {
        l.struct_init_calls.push(sem.struct_init_calls[k]);
        assert(l.struct_init_calls@ =~= sem.struct_init_calls@.take(k + 1));
        k = k + 1;
    }
    assert(sem.struct_init_calls@.take(k as int) =~= sem.struct_init_calls@);
    assert(sigs_view(l.func_sigs@) =~= fn_sigs(fs@, gm).take(0));
    assert(fs@.take(0) =~= Seq::<Function>::empty());
    assert(tps_view(l.func_type_param_names@) =~= fn_tps(fs@.take(0), gm));
    let mut i: usize = 0;
    while i < fs.len()
        invariant
            i <= fs@.len(),
            l.name_map == gm,
            l.struct_init_calls@ == sem.struct_init_calls@,
            l.inferred_type_args@.len() == 0,
            l.lowering_errors@.len() == 0,
            sigs_view(l.func_sigs@) == fn_sigs(fs@, gm).take(i as int),
            tps_view(l.func_type_param_names@) == fn_tps(fs@.take(i as int), gm),
        decreases fs@.len() - i,
    {
        let f = &fs[i];
        l.current_type_params = type_param_names(&f.type_params);
        let ty = l.convert_type_with_structs(&f.return_type);
        l.current_type_params = Vec::new();
        let resolved = l.resolve_name(&f.name);
        let ghost t0 = l.func_type_param_names@;
        if f.type_params.len() > 0 {
            let tps = type_param_names(&f.type_params);
            l.func_type_param_names.push((resolved.clone(), tps));
        }
        let ghost g0 = l.func_sigs@;
        l.func_sigs.push((resolved, ty));
        proof {
            assert(fs@.take(i + 1).drop_last() =~= fs@.take(i as int));
            assert(fs@.take(i + 1).last() == fs@[i as int]);
            assert(sigs_view(g0).len() == i);
            assert(sigs_view(l.func_sigs@) =~= fn_sigs(fs@, gm).take(i + 1)) by {
                assert forall|a: int| 0 <= a < i implies #[trigger] sigs_view(l.func_sigs@)[a] == sigs_view(g0)[a] by {
                    assert(l.func_sigs@[a] == g0[a]);
                }
            }
            assert(tps_view(l.func_type_param_names@) =~= fn_tps(fs@.take(i + 1), gm)) by {
                if fs@[i as int].type_params@.len() > 0 {
                    assert(tps_view(t0).len() == t0.len());
                    assert forall|a: int| 0 <= a < t0.len() implies #[trigger] tps_view(l.func_type_param_names@)[a] == tps_view(t0)[a] by {
                        assert(l.func_type_param_names@[a] == t0[a]);
                    }
                }
            }
        }
        i = i + 1;
    }
    assert(fn_sigs(fs@, gm).take(fs@.len() as int) =~= fn_sigs(fs@, gm));
    assert(fs@.take(fs@.len() as int) =~= fs@);
    let ghost defs = sem.struct_defs@;
    assert(defs.take(0) =~= Seq::<(String, StructInfo)>::empty());
    assert(sigs_view(l.func_sigs@) =~= fn_sigs(fs@, gm) + method_sigs(defs.take(0), gm));
    assert(tps_view(l.func_type_param_names@) =~= fn_tps(fs@, gm) + method_tps(defs.take(0), gm));
    let mut i: usize = 0;
    while i < sem.struct_defs.len()
        invariant
            defs == sem.struct_defs@,
            methods_lowerable(defs),
            i <= defs.len(),
            l.name_map == gm,
            l.struct_init_calls@ == sem.struct_init_calls@,
            l.inferred_type_args@.len() == 0,
            l.lowering_errors@.len() == 0,
            sigs_view(l.func_sigs@) == fn_sigs(fs@, gm) + method_sigs(defs.take(i as int), gm),
            tps_view(l.func_type_param_names@) == fn_tps(fs@, gm) + method_tps(defs.take(i as int), gm),
        decreases defs.len() - i,
    {
        let sname = &sem.struct_defs[i].0;
        let info = &sem.struct_defs[i].1;
        let ghost d = defs[i as int];
        let ghost sig0 = sigs_view(l.func_sigs@);
        let ghost tp0 = tps_view(l.func_type_param_names@);
        let ghost tpn = tp_names(d.1.type_params@);
        let mut j: usize = 0;
        while j < info.methods.len()
            invariant
                i < defs.len(),
                d == defs[i as int],
                *sname == d.0,
                *info == d.1,
                tpn == tp_names(d.1.type_params@),
                methods_lowerable(defs),
                j <= d.1.methods@.len(),
                l.name_map == gm,
                l.struct_init_calls@ == sem.struct_init_calls@,
                l.inferred_type_args@.len() == 0,
                l.lowering_errors@.len() == 0,
                sigs_view(l.func_sigs@) == sig0 + Seq::new(
                    j as nat,
                    |m: int| (resolved_name(gm, joined(d.0@, d.1.methods@[m].name@)), lowered_type(d.1.methods@[m].return_type)),
                ),
                tps_view(l.func_type_param_names@) == tp0 + if d.1.type_params@.len() > 0 {
                    Seq::new(j as nat, |m: int| (resolved_name(gm, joined(d.0@, d.1.methods@[m].name@)), tpn))
                } else {
                    Seq::empty()
                },
            decreases d.1.methods@.len() - j,
        {
            let m = &info.methods[j];
            let local = join_names(sname, &m.name);
            let resolved = l.resolve_name(&local);
            assert(lowerable(defs[i as int].1.methods@[j as int].return_type));
            let ret = semantic_type_to_bir(&m.return_type);
            let ghost t0 = l.func_type_param_names@;
            if info.type_params.len() > 0 {
                let tps = type_param_names(&info.type_params);
                l.func_type_param_names.push((resolved.clone(), tps));
            }
            let ghost g0 = l.func_sigs@;
            l.func_sigs.push((resolved, ret));
            proof {
                assert(sigs_view(l.func_sigs@) =~= sigs_view(g0).push(sigs_view(l.func_sigs@).last()));
                if d.1.type_params@.len() > 0 {
                    assert(tps_view(l.func_type_param_names@) =~= tps_view(t0).push(tps_view(l.func_type_param_names@).last()));
                } else {
                    assert(l.func_type_param_names@ == t0);
                }
            }
            j = j + 1;
        }
        proof {
            assert(defs.take(i + 1).drop_last() =~= defs.take(i as int));
            assert(defs.take(i + 1).last() == d);
        }
        i = i + 1;
    }
    assert(defs.take(defs.len() as int) =~= defs);
    l
}

/// The conformance map: for each struct, each protocol it conforms to that semantic analysis
/// knows, and each method of it, the protocol method and the struct's type paired with the
/// struct's implementation under its emitted name.
fn build_conformance_map(
    structs: &Vec<StructDef>,
    protos: &Vec<(String, ProtocolInfo)>,
    l: &Lowering,
) -> (r: Vec<((String, BirType), String)>)
    ensures
        conf_view(r@) == expected_conf(structs@, protos@, l.name_map),
{
    let ghost gm = l.name_map;
    let mut r: Vec<((String, BirType), String)> = Vec::new();
    let mut i: usize = 0;
    assert(structs@.take(0) =~= Seq::<StructDef>::empty());
    assert(conf_view(r@) =~= expected_conf(structs@.take(0), protos@, gm));
    while i < structs.len()
        invariant
            i <= structs@.len(),
            gm == l.name_map,
            conf_view(r@) == expected_conf(structs@.take(i as int), protos@, gm),
        decreases structs@.len() - i,
    {
        let sd = &structs[i];
        let ghost base = conf_view(r@);
        let mut k: usize = 0;
        while k < sd.conformances.len()
            invariant
                k <= sd.conformances@.len(),
                gm == l.name_map,
                conf_view(r@) == base + conf_struct(*sd, k as int, protos@, gm),
            decreases sd.conformances@.len() - k,
        {
            let c = &sd.conformances[k];
            let ghost base2 = conf_view(r@);
            match find_entry(protos, c) {
                Some(p_idx) => {
                    let p = &protos[p_idx].1;
                    let mut j: usize = 0;
                    while j < p.methods.len()
                        invariant
                            j <= p.methods@.len(),
                            gm == l.name_map,
                            entry_of(protos@, c@) == Some(*p),
                            conf_view(r@) == base2 + Seq::new(
                                j as nat,
                                |m: int| (
                                    (joined(c@, p.methods@[m].name@), TypeV::Struct { name: sd.name@, type_args: Seq::empty() }),
                                    resolved_name(gm, joined(sd.name@, p.methods@[m].name@)),
                                ),
                            ),
                        decreases p.methods@.len() - j,
                    {
                        let key_name = join_names(c, &p.methods[j].name);
                        let ty = BirType::struct_simple(sd.name.clone());
                        let impl_local = join_names(&sd.name, &p.methods[j].name);
                        let impl_name = l.resolve_name(&impl_local);
                        let ghost r0 = r@;
                        r.push(((key_name, ty), impl_name));
                        assert(conf_view(r@) =~= conf_view(r0).push(conf_view(r@).last()));
                        j = j + 1;
                    }
                    assert(conf_view(r@) =~= base2 + conf_entries(*sd, c@, protos@, gm));
                },
                None => {
                    assert(conf_entries(*sd, c@, protos@, gm) =~= Seq::empty());
                    assert(conf_view(r@) =~= base2 + conf_entries(*sd, c@, protos@, gm));
                },
            }
            assert(conf_view(r@) =~= base + conf_struct(*sd, k + 1, protos@, gm));
            k = k + 1;
        }
        proof {
            assert(structs@.take(i + 1).drop_last() =~= structs@.take(i as int));
            assert(structs@.take(i + 1).last() == *sd);
        }
        i = i + 1;
    }
    assert(structs@.take(structs@.len() as int) =~= structs@);
    r
}

/// The type parameter names of each generic struct.
fn build_struct_type_params(defs: &Vec<(String, StructInfo)>) -> (r: Vec<(String, Vec<String>)>)
    ensures
        tps_view(r@) == expected_struct_tps(defs@),
{
    let mut r: Vec<(String, Vec<String>)> = Vec::new();
    let mut i: usize = 0;
    assert(defs@.take(0) =~= Seq::<(String, StructInfo)>::empty());
    assert(tps_view(r@) =~= expected_struct_tps(defs@.take(0)));
    while i < defs.len()
        invariant
            i <= defs@.len(),
            tps_view(r@) == expected_struct_tps(defs@.take(i as int)),
        decreases defs@.len() - i,
    {
        let ghost r0 = r@;
        if defs[i].1.type_params.len() > 0 {
            let names = type_param_names(&defs[i].1.type_params);
            r.push((defs[i].0.clone(), names));
            assert(tps_view(r@) =~= tps_view(r0).push(tps_view(r@).last()));
        }
        proof {
            assert(defs@.take(i + 1).drop_last() =~= defs@.take(i as int));
            assert(defs@.take(i + 1).last() == defs@[i as int]);
        }
        i = i + 1;
    }
    assert(defs@.take(defs@.len() as int) =~= defs@);
    r
}

/// `f` is function `i` of `fs` lowered by the walk in the program's lowering state.
pub open spec fn function_lowered(
    fs: Seq<Function>,
    sem: SemanticInfo,
    map: Option<Vec<(String, String)>>,
    i: int,
    f: BirFunction,
) -> bool {
    exists|s: Lowering, t: Lowering| #![trigger function_run(s, fs[i], t, f)]
        program_ctx(s, fs, sem, map) && function_run(s, fs[i], t, f)
}

/// What lowering `program` gives under name map `map`: on success, the struct layouts (which
/// pass the struct checks), the type parameters of the generic structs, the conformance map
/// and each function lowered by the walk in the program's lowering state; on failure, the
/// error of the first struct check that fails.
pub open spec fn lowered_program<I, P>(
    program: Program<I, P>,
    sem: SemanticInfo,
    map: Option<Vec<(String, String)>>,
    r: Result<BirModule, BengalError>,
) -> bool {
    match r {
        Ok(m) => {
            &&& structs_ok(m.struct_layouts@)
            &&& layouts_view(m.struct_layouts@) == expected_layouts(sem.struct_defs@)
            &&& tps_view(m.struct_type_params@) == expected_struct_tps(sem.struct_defs@)
            &&& conf_view(m.conformance_map@) == expected_conf(program.structs@, sem.protocols@, map)
            &&& m.functions@.len() == program.functions@.len()
            &&& forall|i: int| 0 <= i < program.functions@.len()
                ==> #[trigger] function_lowered(program.functions@, sem, map, i, m.functions@[i])
        },
        Err(e) => exists|ls: Seq<(String, Vec<(String, BirType)>)>| #![trigger struct_error(ls, expected_spans(program.structs@), e)]
            layouts_view(ls) == expected_layouts(sem.struct_defs@) && !structs_ok(ls)
                && struct_error(ls, expected_spans(program.structs@), e),
    }
}

/// Lowers a program under name map `map` (none when the names stay as they are).
fn lower_program_with<I, P>(
    program: &Program<I, P>,
    sem: &SemanticInfo,
    map: Option<Vec<(String, String)>>,
) -> (r: Result<BirModule, BengalError>)
    requires
        program_lowerable(*program, *sem),
    ensures
        lowered_program(*program, *sem, map, r),
{
    let ghost gm = map;
    let struct_layouts = build_struct_layouts(&sem.struct_defs);
    let spans = build_struct_spans(&program.structs);
    let unit = reject_unit_fields(&struct_layouts, &spans);
    if let Err(e) = unit {
        assert(struct_error(struct_layouts@, expected_spans(program.structs@), e));
        return Err(e);
    }
    let acyclic = check_acyclic_structs(&struct_layouts, &spans);
    if let Err(e) = acyclic {
        assert(!structs_ok(struct_layouts@));
        assert(struct_error(struct_layouts@, expected_spans(program.structs@), e));
        return Err(e);
    }
    assert(structs_ok(struct_layouts@));
    let mut l = program_lowering(&program.functions, sem, map);
    let ghost fs = program.functions@;
    let mut functions: Vec<BirFunction> = Vec::new();
    let ghost mut states: Seq<(Lowering, Lowering)> = Seq::empty();
    let mut i: usize = 0;
    while i < program.functions.len()
        invariant
            fs == program.functions@,
            i <= fs.len(),
            program_lowerable(*program, *sem),
            program_ctx(l, fs, *sem, gm),
            l.lowering_errors@.len() == 0,
            functions@.len() == i,
            states.len() == i,
            forall|m: int| 0 <= m < i ==> program_ctx((#[trigger] states[m]).0, fs, *sem, gm)
                && function_run(states[m].0, fs[m], states[m].1, functions@[m]),
        decreases fs.len() - i,
    {
        assert(function_ok(l, fs[i as int]));
        let ghost s0 = l;
        let f = l.lower_function(&program.functions[i]);
        let ghost t0 = l;
        let ghost fns0 = functions@;
        let ghost st0 = states;
        functions.push(f);
        proof {
            states = states.push((s0, t0));
            assert forall|m: int| 0 <= m < i + 1 implies program_ctx((#[trigger] states[m]).0, fs, *sem, gm)
                && function_run(states[m].0, fs[m], states[m].1, functions@[m]) by {
                if m < i {
                    assert(states[m] == st0[m]);
                    assert(functions@[m] == fns0[m]);
                }
            }
        }
        i = i + 1;
    }
    let mut diag = DiagCtxt::new();
    let collected = l.collect_lowering_errors(&mut diag);
    if let Err(e) = collected {
        return Err(e);
    }
    let conformance_map = build_conformance_map(&program.structs, &sem.protocols, &l);
    let struct_type_params = build_struct_type_params(&sem.struct_defs);
    let m = BirModule { struct_layouts, struct_type_params, functions, conformance_map };
    assert(structs_ok(m.struct_layouts@));
    assert(layouts_view(m.struct_layouts@) == expected_layouts(sem.struct_defs@));
    assert(tps_view(m.struct_type_params@) == expected_struct_tps(sem.struct_defs@));
    assert(conf_view(m.conformance_map@) == expected_conf(program.structs@, sem.protocols@, gm));
    assert(m.functions@.len() == program.functions@.len());
    assert forall|k: int| 0 <= k < program.functions@.len() implies #[trigger] function_lowered(program.functions@, *sem, map, k, m.functions@[k]) by {
        assert(program_ctx(states[k].0, fs, *sem, gm) && function_run(states[k].0, fs[k], states[k].1, m.functions@[k]));
    }
    Ok(m)
}

/// Lowers a program to a BIR module: the struct layouts are checked (no unit-typed field, no
/// struct that holds itself), then each function is lowered by the walk.
pub fn lower_program<I, P>(program: &Program<I, P>, sem_info: &SemanticInfo) -> (r: Result<BirModule, BengalError>)
    requires
        program_lowerable(*program, *sem_info),
    ensures
        lowered_program(*program, *sem_info, None, r),
{
    lower_program_with(program, sem_info, None)
}

/// Lowers one module of a package: as `lower_program`, with every function and method name
/// emitted under the name that `name_map` gives it.
pub fn lower_module<I, P>(
    program: &Program<I, P>,
    sem_info: &SemanticInfo,
    name_map: Vec<(String, String)>,
) -> (r: Result<BirModule, BengalError>)
    requires
        program_lowerable(*program, *sem_info),
    ensures
        lowered_program(*program, *sem_info, Some(name_map), r),
{
    lower_program_with(program, sem_info, Some(name_map))
}

} // verus!
