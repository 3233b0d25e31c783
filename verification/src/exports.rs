//! The interface of a module, extracted from what semantic analysis recorded.
use vstd::prelude::*;
use vstd::string::StrSliceExecFns;

use crate::ast::{TypeParam, Visibility};
use crate::interface::{
    interface_of, opt_view, InterfaceComputedProp, InterfaceFuncEntry, InterfaceFuncSig, InterfaceMethodSig,
    InterfacePropertyReq, InterfaceProtocolEntry, InterfaceStructEntry, InterfaceType, InterfaceTypeParam,
    ModuleInterface,
};
use crate::semantic::{
    is_resolved, FuncSig, MethodInfo, PropertyInfo, ProtocolInfo, SemanticInfo, StructInfo, Type,
};

verus! {

/// Whether text `a` comes before text `b`: at their first differing character
/// `a`'s has the smaller code point, or `a` is a proper prefix of `b`. This is the
/// order of `String`, whose bytewise order on UTF-8 is that of the code points.
pub open spec fn text_lt(a: Seq<char>, b: Seq<char>) -> bool
    decreases a.len(),
{
    if a.len() == 0 {
        b.len() > 0
    } else if b.len() == 0 {
        false
    } else if a[0] != b[0] {
        a[0] < b[0]
    } else {
        text_lt(a.drop_first(), b.drop_first())
    }
}

/// No text comes before itself, and of two texts at most one comes first.
proof fn lemma_text_lt_asymmetric(a: Seq<char>, b: Seq<char>)
    ensures
        text_lt(a, b) ==> !text_lt(b, a),
    decreases a.len(),
{
    if a.len() > 0 && b.len() > 0 && a[0] == b[0] {
        lemma_text_lt_asymmetric(a.drop_first(), b.drop_first());
    }
}

/// The order of texts is transitive.
proof fn lemma_text_lt_transitive(a: Seq<char>, b: Seq<char>, c: Seq<char>)
    requires
        text_lt(a, b),
        text_lt(b, c),
    ensures
        text_lt(a, c),
    decreases a.len(),
{
    if a.len() > 0 && b.len() > 0 && c.len() > 0 && a[0] == b[0] && b[0] == c[0] {
        lemma_text_lt_transitive(a.drop_first(), b.drop_first(), c.drop_first());
    }
}

/// Of two different texts, one comes first.
proof fn lemma_text_lt_total(a: Seq<char>, b: Seq<char>)
    requires
        a != b,
    ensures
        text_lt(a, b) || text_lt(b, a),
    decreases a.len(),
{
    if a.len() > 0 && b.len() > 0 && a[0] == b[0] {
        if a.drop_first() == b.drop_first() {
            assert(a =~= seq![a[0]] + a.drop_first());
            assert(b =~= seq![b[0]] + b.drop_first());
        }
        lemma_text_lt_total(a.drop_first(), b.drop_first());
    } else if a.len() == 0 && b.len() == 0 {
        assert(a =~= b);
    }
}

/// Whether text `a` comes before text `b`.
pub fn text_less(a: &str, b: &str) -> (r: bool)
    ensures
        r == text_lt(a@, b@),
{
    let n = a.unicode_len();
    let m = b.unicode_len();
    let mut k: usize = 0;
    assert(a@.skip(0) =~= a@);
    assert(b@.skip(0) =~= b@);
    while k < n && k < m
        invariant
            n == a@.len(),
            m == b@.len(),
            k <= n,
            k <= m,
            text_lt(a@, b@) == text_lt(a@.skip(k as int), b@.skip(k as int)),
        decreases n - k,
    {
        let x = a.get_char(k);
        let y = b.get_char(k);
        assert(a@.skip(k as int)[0] == x);
        assert(b@.skip(k as int)[0] == y);
        if x != y {
            return x < y;
        }
        assert(a@.skip(k as int).drop_first() =~= a@.skip(k + 1));
        assert(b@.skip(k as int).drop_first() =~= b@.skip(k + 1));
        k = k + 1;
    }
    k < m
}

/// The names of a list of named positions.
pub open spec fn key_names(v: Seq<(String, usize)>) -> Seq<Seq<char>> {
    Seq::new(v.len(), |i: int| v[i].0@)
}

/// Each name of the list comes before every later one.
pub open spec fn strictly_sorted(ns: Seq<Seq<char>>) -> bool {
    forall|i: int, j: int| 0 <= i < j < ns.len() ==> text_lt(#[trigger] ns[i], #[trigger] ns[j])
}

/// Inserts a named position into a list sorted by name, keeping it sorted.
fn insert_sorted(v: &mut Vec<(String, usize)>, x: (String, usize))
    requires
        strictly_sorted(key_names(old(v)@)),
        forall|i: int| 0 <= i < old(v)@.len() ==> (#[trigger] old(v)@[i]).0@ != x.0@,
    ensures
        strictly_sorted(key_names(final(v)@)),
        exists|p: int| 0 <= p <= old(v)@.len() && final(v)@ == old(v)@.insert(p, x),
{
    let ghost ov = v@;
    let mut p: usize = 0;
    while p < v.len()
        invariant
            v@ == ov,
            p <= ov.len(),
            forall|i: int| 0 <= i < p ==> text_lt(#[trigger] ov[i].0@, x.0@),
        ensures
            v@ == ov,
            p <= ov.len(),
            forall|i: int| 0 <= i < p ==> text_lt(#[trigger] ov[i].0@, x.0@),
            p < ov.len() ==> !text_lt(ov[p as int].0@, x.0@),
        decreases ov.len() - p,
    {
        if !text_less(v[p].0.as_str(), x.0.as_str()) {
            break;
        }
        p = p + 1;
    }
    proof {
        if p < ov.len() {
            assert(ov[p as int].0@ != x.0@);
            lemma_text_lt_total(ov[p as int].0@, x.0@);
        }
    }
    let ghost pp = p as int;
    v.insert(p, x);
    let ghost nv = v@;
    assert forall|i: int, j: int| 0 <= i < j < nv.len() implies text_lt(
        #[trigger] key_names(nv)[i],
        #[trigger] key_names(nv)[j],
    ) by {
        let ok = key_names(ov);
        if p < ov.len() {
            lemma_text_lt_total(ov[pp].0@, x.0@);
        }
        if j < pp {
            assert(text_lt(ok[i], ok[j]));
        } else if j == pp {
            assert(text_lt(ov[i].0@, x.0@));
        } else if i < pp {
            assert(text_lt(ov[i].0@, x.0@));
            assert(text_lt(x.0@, ov[pp].0@));
            if j - 1 > pp {
                assert(text_lt(ok[pp], ok[j - 1]));
                lemma_text_lt_transitive(x.0@, ov[pp].0@, ov[j - 1].0@);
            }
            lemma_text_lt_transitive(ov[i].0@, x.0@, ov[j - 1].0@);
        } else if i == pp {
            assert(text_lt(x.0@, ov[pp].0@));
            if j - 1 > pp {
                assert(text_lt(ok[pp], ok[j - 1]));
                lemma_text_lt_transitive(x.0@, ov[pp].0@, ov[j - 1].0@);
            }
        } else {
            assert(text_lt(ok[i - 1], ok[j - 1]));
        }
    }
}

/// The recorded visibility of `name`; a later entry takes precedence.
pub open spec fn vis_of(vs: Seq<(String, Visibility)>, name: Seq<char>) -> Option<Visibility>
    decreases vs.len(),
{
    if vs.len() == 0 {
        None
    } else if vs.last().0@ == name {
        Some(vs.last().1)
    } else {
        vis_of(vs.drop_last(), name)
    }
}

/// Whether a visibility makes a declaration part of the module's interface.
pub open spec fn is_exported(v: Visibility) -> bool {
    v == Visibility::Public || v == Visibility::Package
}

/// Whether `name` is recorded with a visibility that exports it.
pub open spec fn exported(vs: Seq<(String, Visibility)>, name: Seq<char>) -> bool {
    vis_of(vs, name) matches Some(v) && is_exported(v)
}

/// Each name of a table occurs once.
pub open spec fn names_unique<T>(t: Seq<(String, T)>) -> bool {
    forall|i: int, j: int| 0 <= i < j < t.len() ==> (#[trigger] t[i]).0@ != (#[trigger] t[j]).0@
}

/// The recorded visibility of `name`.
fn lookup_visibility(vs: &Vec<(String, Visibility)>, name: &String) -> (r: Option<Visibility>)
    ensures
        r == vis_of(vs@, name@),
{
    let mut k: usize = vs.len();
    assert(vs@.take(k as int) =~= vs@);
    while k > 0
        invariant
            k <= vs@.len(),
            vis_of(vs@, name@) == vis_of(vs@.take(k as int), name@),
        decreases k,
    {
        assert(vs@.take(k as int).drop_last() =~= vs@.take(k - 1));
        if vs[k - 1].0.eq(name) {
            return Some(vs[k - 1].1);
        }
        k = k - 1;
    }
    None
}

/// The exported names of a table with their positions, sorted by name.
fn exported_keys<T>(table: &Vec<(String, T)>, vs: &Vec<(String, Visibility)>) -> (r: Vec<(String, usize)>)
    requires
        names_unique(table@),
    ensures
        strictly_sorted(key_names(r@)),
        forall|i: int|
            0 <= i < r@.len() ==> {
                &&& (#[trigger] r@[i]).1 < table@.len()
                &&& r@[i].0@ == table@[r@[i].1 as int].0@
                &&& exported(vs@, r@[i].0@)
            },
        forall|k: int|
            0 <= k < table@.len() && exported(vs@, table@[k].0@) ==> exists|i: int|
                0 <= i < r@.len() && (#[trigger] r@[i]).1 == k,
{
    let mut r: Vec<(String, usize)> = Vec::new();
    let mut k: usize = 0;
    while k < table.len()
        invariant
            k <= table@.len(),
            names_unique(table@),
            strictly_sorted(key_names(r@)),
            forall|i: int|
                0 <= i < r@.len() ==> {
                    &&& (#[trigger] r@[i]).1 < k
                    &&& r@[i].0@ == table@[r@[i].1 as int].0@
                    &&& exported(vs@, r@[i].0@)
                },
            forall|j: int|
                0 <= j < k && exported(vs@, table@[j].0@) ==> exists|i: int|
                    0 <= i < r@.len() && (#[trigger] r@[i]).1 == j,
        decreases table@.len() - k,
    {
        let exp = match lookup_visibility(vs, &table[k].0) {
            Some(v) => v == Visibility::Public || v == Visibility::Package,
            None => false,
        };
        if exp {
            let ghost old_r = r@;
            let x = (table[k].0.clone(), k);
            assert forall|i: int| 0 <= i < old_r.len() implies (#[trigger] old_r[i]).0@ != x.0@ by {
                assert(old_r[i].1 < k);
                assert(table@[old_r[i].1 as int].0@ != table@[k as int].0@);
            }
            insert_sorted(&mut r, x);
            let ghost p = choose|p: int| 0 <= p <= old_r.len() && r@ == old_r.insert(p, x);
            assert forall|i: int| 0 <= i < r@.len() implies {
                &&& (#[trigger] r@[i]).1 < k + 1
                &&& r@[i].0@ == table@[r@[i].1 as int].0@
                &&& exported(vs@, r@[i].0@)
            } by {
                if i < p {
                    assert(r@[i] == old_r[i]);
                } else if i > p {
                    assert(r@[i] == old_r[i - 1]);
                }
            }
            assert forall|j: int|
                0 <= j < k + 1 && exported(vs@, table@[j].0@) implies exists|i: int|
                    0 <= i < r@.len() && (#[trigger] r@[i]).1 == j by {
                if j == k {
                    assert(r@[p].1 == j);
                } else {
                    let i0 = choose|i: int| 0 <= i < old_r.len() && (#[trigger] old_r[i]).1 == j;
                    if i0 < p {
                        assert(r@[i0] == old_r[i0]);
                    } else {
                        assert(r@[i0 + 1] == old_r[i0]);
                    }
                }
            }
        }
        k = k + 1;
    }
    r
}

/// Names with semantic types, turned into names with interface types.
pub open spec fn typed_names_match(out: Seq<(String, InterfaceType)>, inp: Seq<(String, Type)>) -> bool {
    &&& out.len() == inp.len()
    &&& forall|i: int| 0 <= i < inp.len() ==> (#[trigger] out[i]).0@ == inp[i].0@ && out[i].1@ == interface_of(inp[i].1)
}

/// Every type of the list is fully resolved.
pub open spec fn typed_names_resolved(inp: Seq<(String, Type)>) -> bool {
    forall|i: int| 0 <= i < inp.len() ==> is_resolved((#[trigger] inp[i]).1)
}

/// Declared type parameters, turned into interface type parameters.
pub open spec fn type_params_match(out: Seq<InterfaceTypeParam>, inp: Seq<TypeParam>) -> bool {
    &&& out.len() == inp.len()
    &&& forall|i: int| 0 <= i < inp.len() ==> (#[trigger] out[i]).name@ == inp[i].name@ && opt_view(out[i].bound) == opt_view(inp[i].bound)
}

/// A method signature in interface form.
pub open spec fn method_matches(out: InterfaceMethodSig, m: MethodInfo) -> bool {
    &&& out.name@ == m.name@
    &&& typed_names_match(out.params@, m.params@)
    &&& out.return_type@ == interface_of(m.return_type)
}

/// Method signatures in interface form, in order.
pub open spec fn methods_match(out: Seq<InterfaceMethodSig>, inp: Seq<MethodInfo>) -> bool {
    &&& out.len() == inp.len()
    &&& forall|i: int| 0 <= i < inp.len() ==> method_matches(#[trigger] out[i], inp[i])
}

/// Every type of a method signature is fully resolved.
pub open spec fn methods_resolved(inp: Seq<MethodInfo>) -> bool {
    forall|i: int| 0 <= i < inp.len() ==> typed_names_resolved((#[trigger] inp[i]).params@) && is_resolved(inp[i].return_type)
}

/// Computed properties in interface form, in order.
pub open spec fn computed_match(out: Seq<InterfaceComputedProp>, inp: Seq<PropertyInfo>) -> bool {
    &&& out.len() == inp.len()
    &&& forall|i: int|
        0 <= i < inp.len() ==> (#[trigger] out[i]).name@ == inp[i].name@ && out[i].ty@ == interface_of(inp[i].ty)
            && out[i].has_setter == inp[i].has_setter
}

/// Required properties in interface form, in order.
pub open spec fn properties_match(out: Seq<InterfacePropertyReq>, inp: Seq<PropertyInfo>) -> bool {
    &&& out.len() == inp.len()
    &&& forall|i: int|
        0 <= i < inp.len() ==> (#[trigger] out[i]).name@ == inp[i].name@ && out[i].ty@ == interface_of(inp[i].ty)
            && out[i].has_setter == inp[i].has_setter
}

/// Every type of a list of properties is fully resolved.
pub open spec fn properties_resolved(inp: Seq<PropertyInfo>) -> bool {
    forall|i: int| 0 <= i < inp.len() ==> is_resolved((#[trigger] inp[i]).ty)
}

/// The same texts, in order.
pub open spec fn texts_match(out: Seq<String>, inp: Seq<String>) -> bool {
    &&& out.len() == inp.len()
    &&& forall|i: int| 0 <= i < inp.len() ==> (#[trigger] out[i])@ == inp[i]@
}

/// The interface entry of function `name` with signature `sig` and visibility `v`.
pub open spec fn func_entry_of(e: InterfaceFuncEntry, name: String, sig: FuncSig, v: Visibility) -> bool {
    &&& e.visibility == v
    &&& e.name@ == name@
    &&& type_params_match(e.sig.type_params@, sig.type_params@)
    &&& typed_names_match(e.sig.params@, sig.params@)
    &&& e.sig.return_type@ == interface_of(sig.return_type)
}

/// The interface entry of struct `name` with visibility `v`.
pub open spec fn struct_entry_of(e: InterfaceStructEntry, name: String, info: StructInfo, v: Visibility) -> bool {
    &&& e.visibility == v
    &&& e.name@ == name@
    &&& type_params_match(e.type_params@, info.type_params@)
    &&& texts_match(e.conformances@, info.conformances@)
    &&& typed_names_match(e.fields@, info.fields@)
    &&& methods_match(e.methods@, info.methods@)
    &&& computed_match(e.computed@, info.computed@)
    &&& typed_names_match(e.init_params@, info.init.params@)
}

/// The interface entry of protocol `name` with visibility `v`.
pub open spec fn protocol_entry_of(e: InterfaceProtocolEntry, name: String, info: ProtocolInfo, v: Visibility) -> bool {
    &&& e.visibility == v
    &&& e.name@ == name@
    &&& methods_match(e.methods@, info.methods@)
    &&& properties_match(e.properties@, info.properties@)
}

/// Every type that semantic analysis recorded for an exported declaration is fully resolved.
pub open spec fn info_resolved(sem: SemanticInfo) -> bool {
    &&& forall|k: int| 0 <= k < sem.functions@.len() && exported(sem.visibilities@, sem.functions@[k].0@) ==> {
        let sig = (#[trigger] sem.functions@[k]).1;
        typed_names_resolved(sig.params@) && is_resolved(sig.return_type)
    }
    &&& forall|k: int| 0 <= k < sem.struct_defs@.len() && exported(sem.visibilities@, sem.struct_defs@[k].0@) ==> {
        let info = (#[trigger] sem.struct_defs@[k]).1;
        &&& typed_names_resolved(info.fields@)
        &&& methods_resolved(info.methods@)
        &&& properties_resolved(info.computed@)
        &&& typed_names_resolved(info.init.params@)
    }
    &&& forall|k: int| 0 <= k < sem.protocols@.len() && exported(sem.visibilities@, sem.protocols@[k].0@) ==> {
        let info = (#[trigger] sem.protocols@[k]).1;
        methods_resolved(info.methods@) && properties_resolved(info.properties@)
    }
}

/// Each table of the module names each declaration once.
pub open spec fn info_keys_unique(sem: SemanticInfo) -> bool {
    names_unique(sem.functions@) && names_unique(sem.struct_defs@) && names_unique(sem.protocols@)
}

fn convert_typed_names(inp: &Vec<(String, Type)>) -> (r: Vec<(String, InterfaceType)>)
    requires
        typed_names_resolved(inp@),
    ensures
        typed_names_match(r@, inp@),
{
    let mut r: Vec<(String, InterfaceType)> = Vec::new();
    let mut k: usize = 0;
    while k < inp.len()
        invariant
            k <= inp@.len(),
            typed_names_resolved(inp@),
            r@.len() == k,
            forall|i: int| 0 <= i < k ==> (#[trigger] r@[i]).0@ == inp@[i].0@ && r@[i].1@ == interface_of(inp@[i].1),
        decreases inp@.len() - k,
    {
        assert(is_resolved(inp@[k as int].1));
        r.push((inp[k].0.clone(), InterfaceType::from_type(&inp[k].1)));
        k = k + 1;
    }
    r
}

fn convert_type_params(inp: &Vec<TypeParam>) -> (r: Vec<InterfaceTypeParam>)
    ensures
        type_params_match(r@, inp@),
{
    let mut r: Vec<InterfaceTypeParam> = Vec::new();
    let mut k: usize = 0;
    while k < inp.len()
        invariant
            k <= inp@.len(),
            r@.len() == k,
            forall|i: int| 0 <= i < k ==> (#[trigger] r@[i]).name@ == inp@[i].name@ && opt_view(r@[i].bound) == opt_view(inp@[i].bound),
        decreases inp@.len() - k,
    {
        r.push(InterfaceTypeParam::from_type_param(&inp[k]));
        k = k + 1;
    }
    r
}

fn convert_methods(inp: &Vec<MethodInfo>) -> (r: Vec<InterfaceMethodSig>)
    requires
        methods_resolved(inp@),
    ensures
        methods_match(r@, inp@),
{
    let mut r: Vec<InterfaceMethodSig> = Vec::new();
    let mut k: usize = 0;
    while k < inp.len()
        invariant
            k <= inp@.len(),
            methods_resolved(inp@),
            r@.len() == k,
            forall|i: int| 0 <= i < k ==> method_matches(#[trigger] r@[i], inp@[i]),
        decreases inp@.len() - k,
    {
        let m = &inp[k];
        assert(typed_names_resolved(inp@[k as int].params@) && is_resolved(inp@[k as int].return_type));
        let sig = InterfaceMethodSig {
            name: m.name.clone(),
            params: convert_typed_names(&m.params),
            return_type: InterfaceType::from_type(&m.return_type),
        };
        r.push(sig);
        k = k + 1;
    }
    r
}

fn convert_computed(inp: &Vec<PropertyInfo>) -> (r: Vec<InterfaceComputedProp>)
    requires
        properties_resolved(inp@),
    ensures
        computed_match(r@, inp@),
{
    let mut r: Vec<InterfaceComputedProp> = Vec::new();
    let mut k: usize = 0;
    while k < inp.len()
        invariant
            k <= inp@.len(),
            properties_resolved(inp@),
            r@.len() == k,
            forall|i: int|
                0 <= i < k ==> (#[trigger] r@[i]).name@ == inp@[i].name@ && r@[i].ty@ == interface_of(inp@[i].ty)
                    && r@[i].has_setter == inp@[i].has_setter,
        decreases inp@.len() - k,
    {
        assert(is_resolved(inp@[k as int].ty));
        r.push(InterfaceComputedProp {
            name: inp[k].name.clone(),
            ty: InterfaceType::from_type(&inp[k].ty),
            has_setter: inp[k].has_setter,
        });
        k = k + 1;
    }
    r
}

fn convert_properties(inp: &Vec<PropertyInfo>) -> (r: Vec<InterfacePropertyReq>)
    requires
        properties_resolved(inp@),
    ensures
        properties_match(r@, inp@),
{
    let mut r: Vec<InterfacePropertyReq> = Vec::new();
    let mut k: usize = 0;
    while k < inp.len()
        invariant
            k <= inp@.len(),
            properties_resolved(inp@),
            r@.len() == k,
            forall|i: int|
                0 <= i < k ==> (#[trigger] r@[i]).name@ == inp@[i].name@ && r@[i].ty@ == interface_of(inp@[i].ty)
                    && r@[i].has_setter == inp@[i].has_setter,
        decreases inp@.len() - k,
    {
        assert(is_resolved(inp@[k as int].ty));
        r.push(InterfacePropertyReq {
            name: inp[k].name.clone(),
            ty: InterfaceType::from_type(&inp[k].ty),
            has_setter: inp[k].has_setter,
        });
        k = k + 1;
    }
    r
}

fn copy_texts(inp: &Vec<String>) -> (r: Vec<String>)
    ensures
        texts_match(r@, inp@),
{
    let mut r: Vec<String> = Vec::new();
    let mut k: usize = 0;
    while k < inp.len()
        invariant
            k <= inp@.len(),
            r@.len() == k,
            forall|i: int| 0 <= i < k ==> (#[trigger] r@[i])@ == inp@[i]@,
        decreases inp@.len() - k,
    {
        r.push(inp[k].clone());
        k = k + 1;
    }
    r
}

/// The names of a list of function entries.
pub open spec fn func_names(es: Seq<InterfaceFuncEntry>) -> Seq<Seq<char>> {
    Seq::new(es.len(), |i: int| es[i].name@)
}

/// The names of a list of struct entries.
pub open spec fn struct_names(es: Seq<InterfaceStructEntry>) -> Seq<Seq<char>> {
    Seq::new(es.len(), |i: int| es[i].name@)
}

/// The names of a list of protocol entries.
pub open spec fn protocol_names(es: Seq<InterfaceProtocolEntry>) -> Seq<Seq<char>> {
    Seq::new(es.len(), |i: int| es[i].name@)
}

/// `e` is the entry of an exported function of the module.
pub open spec fn func_listed(e: InterfaceFuncEntry, sem: SemanticInfo) -> bool {
    exists|k: int|
        0 <= k < sem.functions@.len() && exported(sem.visibilities@, sem.functions@[k].0@) && #[trigger] func_entry_of(
            e,
            sem.functions@[k].0,
            sem.functions@[k].1,
            vis_of(sem.visibilities@, sem.functions@[k].0@).unwrap(),
        )
}

/// The visibility recorded for an exported name.
fn exported_visibility(vs: &Vec<(String, Visibility)>, name: &String) -> (r: Visibility)
    requires
        exported(vs@, name@),
    ensures
        Some(r) == vis_of(vs@, name@),
{
    match lookup_visibility(vs, name) {
        Some(v) => v,
        None => Visibility::Public,
    }
}

fn function_entries(sem: &SemanticInfo) -> (r: Vec<InterfaceFuncEntry>)
    requires
        info_resolved(*sem),
        info_keys_unique(*sem),
    ensures
        strictly_sorted(func_names(r@)),
        forall|i: int| 0 <= i < r@.len() ==> func_listed(#[trigger] r@[i], *sem),
        forall|k: int|
            0 <= k < sem.functions@.len() && exported(sem.visibilities@, #[trigger] sem.functions@[k].0@) ==> exists|i: int|
                0 <= i < r@.len() && r@[i].name@ == sem.functions@[k].0@,
{
    let keys = exported_keys(&sem.functions, &sem.visibilities);
    let mut r: Vec<InterfaceFuncEntry> = Vec::new();
    let mut i: usize = 0;
    while i < keys.len()
        invariant
            info_resolved(*sem),
            i <= keys@.len(),
            r@.len() == i,
            forall|j: int| 0 <= j < i ==> (#[trigger] r@[j]).name@ == keys@[j].0@,
            forall|j: int| 0 <= j < i ==> {
                let k = keys@[j].1 as int;
                func_entry_of(#[trigger] r@[j], sem.functions@[k].0, sem.functions@[k].1, vis_of(sem.visibilities@, sem.functions@[k].0@).unwrap())
            },
            forall|j: int|
                0 <= j < keys@.len() ==> {
                    &&& (#[trigger] keys@[j]).1 < sem.functions@.len()
                    &&& keys@[j].0@ == sem.functions@[keys@[j].1 as int].0@
                    &&& exported(sem.visibilities@, keys@[j].0@)
                },
        decreases keys@.len() - i,
    {
        let k = keys[i].1;
        assert(keys@[i as int].1 < sem.functions@.len());
        let (name, sig) = (&sem.functions[k].0, &sem.functions[k].1);
        let ghost kk = k as int;
        assert(exported(sem.visibilities@, sem.functions@[kk].0@));
        assert(typed_names_resolved(sem.functions@[kk].1.params@) && is_resolved(sem.functions@[kk].1.return_type));
        let visibility = exported_visibility(&sem.visibilities, name);
        r.push(InterfaceFuncEntry {
            visibility,
            name: name.clone(),
            sig: InterfaceFuncSig {
                type_params: convert_type_params(&sig.type_params),
                params: convert_typed_names(&sig.params),
                return_type: InterfaceType::from_type(&sig.return_type),
            },
        });
        i = i + 1;
    }
    assert(func_names(r@) =~= key_names(keys@));
    assert forall|i: int| 0 <= i < r@.len() implies func_listed(#[trigger] r@[i], *sem) by {
        let k = keys@[i].1 as int;
        assert(keys@[i].1 < sem.functions@.len());
        assert(func_entry_of(r@[i], sem.functions@[k].0, sem.functions@[k].1, vis_of(sem.visibilities@, sem.functions@[k].0@).unwrap()));
        assert(exported(sem.visibilities@, sem.functions@[k].0@));
    }
    assert forall|k: int|
        0 <= k < sem.functions@.len() && exported(sem.visibilities@, #[trigger] sem.functions@[k].0@) implies exists|i: int|
            0 <= i < r@.len() && r@[i].name@ == sem.functions@[k].0@ by {
        let i = choose|i: int| 0 <= i < keys@.len() && (#[trigger] keys@[i]).1 == k;
        assert(r@[i].name@ == keys@[i].0@);
    }
    r
}

/// `e` is the entry of an exported struct of the module.
pub open spec fn struct_listed(e: InterfaceStructEntry, sem: SemanticInfo) -> bool {
    exists|k: int|
        0 <= k < sem.struct_defs@.len() && exported(sem.visibilities@, sem.struct_defs@[k].0@) && #[trigger] struct_entry_of(
            e,
            sem.struct_defs@[k].0,
            sem.struct_defs@[k].1,
            vis_of(sem.visibilities@, sem.struct_defs@[k].0@).unwrap(),
        )
}

/// `e` is the entry of an exported protocol of the module.
pub open spec fn protocol_listed(e: InterfaceProtocolEntry, sem: SemanticInfo) -> bool {
    exists|k: int|
        0 <= k < sem.protocols@.len() && exported(sem.visibilities@, sem.protocols@[k].0@) && #[trigger] protocol_entry_of(
            e,
            sem.protocols@[k].0,
            sem.protocols@[k].1,
            vis_of(sem.visibilities@, sem.protocols@[k].0@).unwrap(),
        )
}

fn struct_entries(sem: &SemanticInfo) -> (r: Vec<InterfaceStructEntry>)
    requires
        info_resolved(*sem),
        info_keys_unique(*sem),
    ensures
        strictly_sorted(struct_names(r@)),
        forall|i: int| 0 <= i < r@.len() ==> struct_listed(#[trigger] r@[i], *sem),
        forall|k: int|
            0 <= k < sem.struct_defs@.len() && exported(sem.visibilities@, #[trigger] sem.struct_defs@[k].0@) ==> exists|i: int|
                0 <= i < r@.len() && r@[i].name@ == sem.struct_defs@[k].0@,
{
    let keys = exported_keys(&sem.struct_defs, &sem.visibilities);
    let mut r: Vec<InterfaceStructEntry> = Vec::new();
    let mut i: usize = 0;
    while i < keys.len()
        invariant
            info_resolved(*sem),
            i <= keys@.len(),
            r@.len() == i,
            forall|j: int| 0 <= j < i ==> (#[trigger] r@[j]).name@ == keys@[j].0@,
            forall|j: int| 0 <= j < i ==> {
                let k = keys@[j].1 as int;
                struct_entry_of(#[trigger] r@[j], sem.struct_defs@[k].0, sem.struct_defs@[k].1, vis_of(sem.visibilities@, sem.struct_defs@[k].0@).unwrap())
            },
            forall|j: int|
                0 <= j < keys@.len() ==> {
                    &&& (#[trigger] keys@[j]).1 < sem.struct_defs@.len()
                    &&& keys@[j].0@ == sem.struct_defs@[keys@[j].1 as int].0@
                    &&& exported(sem.visibilities@, keys@[j].0@)
                },
        decreases keys@.len() - i,
    {
        let k = keys[i].1;
        assert(keys@[i as int].1 < sem.struct_defs@.len());
        let (name, info) = (&sem.struct_defs[k].0, &sem.struct_defs[k].1);
        let ghost kk = k as int;
        assert(exported(sem.visibilities@, sem.struct_defs@[kk].0@));
        assert({
            let info = sem.struct_defs@[kk].1;
            &&& typed_names_resolved(info.fields@)
            &&& methods_resolved(info.methods@)
            &&& properties_resolved(info.computed@)
            &&& typed_names_resolved(info.init.params@)
        });
        let visibility = exported_visibility(&sem.visibilities, name);
        r.push(InterfaceStructEntry {
            visibility,
            name: name.clone(),
            type_params: convert_type_params(&info.type_params),
            conformances: copy_texts(&info.conformances),
            fields: convert_typed_names(&info.fields),
            methods: convert_methods(&info.methods),
            computed: convert_computed(&info.computed),
            init_params: convert_typed_names(&info.init.params),
        });
        i = i + 1;
    }
    assert(struct_names(r@) =~= key_names(keys@));
    assert forall|i: int| 0 <= i < r@.len() implies struct_listed(#[trigger] r@[i], *sem) by {
        let k = keys@[i].1 as int;
        assert(keys@[i].1 < sem.struct_defs@.len());
        assert(struct_entry_of(r@[i], sem.struct_defs@[k].0, sem.struct_defs@[k].1, vis_of(sem.visibilities@, sem.struct_defs@[k].0@).unwrap()));
        assert(exported(sem.visibilities@, sem.struct_defs@[k].0@));
    }
    assert forall|k: int|
        0 <= k < sem.struct_defs@.len() && exported(sem.visibilities@, #[trigger] sem.struct_defs@[k].0@) implies exists|i: int|
            0 <= i < r@.len() && r@[i].name@ == sem.struct_defs@[k].0@ by {
        let i = choose|i: int| 0 <= i < keys@.len() && (#[trigger] keys@[i]).1 == k;
        assert(r@[i].name@ == keys@[i].0@);
    }
    r
}

fn protocol_entries(sem: &SemanticInfo) -> (r: Vec<InterfaceProtocolEntry>)
    requires
        info_resolved(*sem),
        info_keys_unique(*sem),
    ensures
        strictly_sorted(protocol_names(r@)),
        forall|i: int| 0 <= i < r@.len() ==> protocol_listed(#[trigger] r@[i], *sem),
        forall|k: int|
            0 <= k < sem.protocols@.len() && exported(sem.visibilities@, #[trigger] sem.protocols@[k].0@) ==> exists|i: int|
                0 <= i < r@.len() && r@[i].name@ == sem.protocols@[k].0@,
{
    let keys = exported_keys(&sem.protocols, &sem.visibilities);
    let mut r: Vec<InterfaceProtocolEntry> = Vec::new();
    let mut i: usize = 0;
    while i < keys.len()
        invariant
            info_resolved(*sem),
            i <= keys@.len(),
            r@.len() == i,
            forall|j: int| 0 <= j < i ==> (#[trigger] r@[j]).name@ == keys@[j].0@,
            forall|j: int| 0 <= j < i ==> {
                let k = keys@[j].1 as int;
                protocol_entry_of(#[trigger] r@[j], sem.protocols@[k].0, sem.protocols@[k].1, vis_of(sem.visibilities@, sem.protocols@[k].0@).unwrap())
            },
            forall|j: int|
                0 <= j < keys@.len() ==> {
                    &&& (#[trigger] keys@[j]).1 < sem.protocols@.len()
                    &&& keys@[j].0@ == sem.protocols@[keys@[j].1 as int].0@
                    &&& exported(sem.visibilities@, keys@[j].0@)
                },
        decreases keys@.len() - i,
    {
        let k = keys[i].1;
        assert(keys@[i as int].1 < sem.protocols@.len());
        let (name, info) = (&sem.protocols[k].0, &sem.protocols[k].1);
        let ghost kk = k as int;
        assert(exported(sem.visibilities@, sem.protocols@[kk].0@));
        assert(methods_resolved(sem.protocols@[kk].1.methods@) && properties_resolved(sem.protocols@[kk].1.properties@));
        let visibility = exported_visibility(&sem.visibilities, name);
        r.push(InterfaceProtocolEntry {
            visibility,
            name: name.clone(),
            methods: convert_methods(&info.methods),
            properties: convert_properties(&info.properties),
        });
        i = i + 1;
    }
    assert(protocol_names(r@) =~= key_names(keys@));
    assert forall|i: int| 0 <= i < r@.len() implies protocol_listed(#[trigger] r@[i], *sem) by {
        let k = keys@[i].1 as int;
        assert(keys@[i].1 < sem.protocols@.len());
        assert(protocol_entry_of(r@[i], sem.protocols@[k].0, sem.protocols@[k].1, vis_of(sem.visibilities@, sem.protocols@[k].0@).unwrap()));
        assert(exported(sem.visibilities@, sem.protocols@[k].0@));
    }
    assert forall|k: int|
        0 <= k < sem.protocols@.len() && exported(sem.visibilities@, #[trigger] sem.protocols@[k].0@) implies exists|i: int|
            0 <= i < r@.len() && r@[i].name@ == sem.protocols@[k].0@ by {
        let i = choose|i: int| 0 <= i < keys@.len() && (#[trigger] keys@[i]).1 == k;
        assert(r@[i].name@ == keys@[i].0@);
    }
    r
}

impl ModuleInterface {
    /// The interface of a module: its exported (public or package) functions,
    /// structs and protocols, each with its visibility and its signature in
    /// interface types, each list sorted by name.
    pub fn from_semantic_info(sem: &SemanticInfo) -> (r: ModuleInterface)
        requires
            info_resolved(*sem),
            info_keys_unique(*sem),
        ensures
            strictly_sorted(func_names(r.functions@)),
            forall|i: int| 0 <= i < r.functions@.len() ==> func_listed(#[trigger] r.functions@[i], *sem),
            forall|k: int|
                0 <= k < sem.functions@.len() && exported(sem.visibilities@, #[trigger] sem.functions@[k].0@) ==> exists|i: int|
                    0 <= i < r.functions@.len() && r.functions@[i].name@ == sem.functions@[k].0@,
            strictly_sorted(struct_names(r.structs@)),
            forall|i: int| 0 <= i < r.structs@.len() ==> struct_listed(#[trigger] r.structs@[i], *sem),
            forall|k: int|
                0 <= k < sem.struct_defs@.len() && exported(sem.visibilities@, #[trigger] sem.struct_defs@[k].0@) ==> exists|i: int|
                    0 <= i < r.structs@.len() && r.structs@[i].name@ == sem.struct_defs@[k].0@,
            strictly_sorted(protocol_names(r.protocols@)),
            forall|i: int| 0 <= i < r.protocols@.len() ==> protocol_listed(#[trigger] r.protocols@[i], *sem),
            forall|k: int|
                0 <= k < sem.protocols@.len() && exported(sem.visibilities@, #[trigger] sem.protocols@[k].0@) ==> exists|i: int|
                    0 <= i < r.protocols@.len() && r.protocols@[i].name@ == sem.protocols@[k].0@,
    {
        ModuleInterface {
            functions: function_entries(sem),
            structs: struct_entries(sem),
            protocols: protocol_entries(sem),
        }
    }
}

} // verus!
