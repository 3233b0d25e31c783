//! Symbol name mangling for functions, methods and initializers.
use vstd::prelude::*;

use crate::bir::instruction::{lemma_views, views, BirType, TypeV};
use crate::text::{
    byte_len, decimal, is_digit, lemma_decimal_digits, lemma_decimal_injective, push_char, push_decimal, push_str, utf8_len,
};
use vstd::utf8::{is_ascii_chars, is_ascii_chars_encode_utf8};

verus! {

/// `<byte length><name>`, e.g. `3pkg`.
pub open spec fn length_prefix(s: Seq<char>) -> Seq<char> {
    decimal(utf8_len(s)) + s
}

/// The compact encoding of a type.
///
/// `i` Int32, `l` Int64, `f` Float32, `d` Float64, `b` Bool, `v` Unit, `e` Error,
/// `S<len><name>[I<args>E]` struct, `A<elem><size>` array, `T<len><name>` type parameter.
pub open spec fn type_code(t: TypeV) -> Seq<char>
    decreases t,
{
    match t {
        TypeV::I32 => seq!['i'],
        TypeV::I64 => seq!['l'],
        TypeV::F32 => seq!['f'],
        TypeV::F64 => seq!['d'],
        TypeV::Bool => seq!['b'],
        TypeV::Unit => seq!['v'],
        TypeV::Error => seq!['e'],
        TypeV::TypeParam(name) => seq!['T'] + length_prefix(name),
        TypeV::Struct { name, type_args } => seq!['S'] + length_prefix(name) + if type_args.len() == 0 {
            Seq::empty()
        } else {
            seq!['I'] + types_code(type_args) + seq!['E']
        },
        TypeV::Array { element, size } => seq!['A'] + type_code(*element) + decimal(size as nat),
    }
}

/// The codes of a list of types, one after the other.
pub open spec fn types_code(ts: Seq<TypeV>) -> Seq<char>
    decreases ts,
{
    if ts.len() == 0 {
        Seq::empty()
    } else {
        types_code(ts.drop_last()) + type_code(ts[ts.len() - 1])
    }
}

/// `I<codes>E` for a non-empty list of type arguments, nothing for an empty one.
pub open spec fn args_code(ts: Seq<TypeV>) -> Seq<char> {
    if ts.len() == 0 {
        Seq::empty()
    } else {
        seq!['I'] + types_code(ts) + seq!['E']
    }
}

/// The length-prefixed names of a list, one after the other.
pub open spec fn names_code(names: Seq<Seq<char>>) -> Seq<char>
    decreases names.len(),
{
    if names.len() == 0 {
        Seq::empty()
    } else {
        names_code(names.drop_last()) + length_prefix(names.last())
    }
}

/// The non-empty names of a list, in order.
pub open spec fn non_empty(names: Seq<Seq<char>>) -> Seq<Seq<char>>
    decreases names.len(),
{
    if names.len() == 0 {
        Seq::empty()
    } else if names.last().len() == 0 {
        non_empty(names.drop_last())
    } else {
        non_empty(names.drop_last()).push(names.last())
    }
}

/// `N<pkg><segments><extra names>E`; empty module segments are left out.
pub open spec fn nested_name(pkg: Seq<char>, segments: Seq<Seq<char>>, extra: Seq<Seq<char>>) -> Seq<char> {
    seq!['N'] + length_prefix(pkg) + names_code(non_empty(segments)) + names_code(extra) + seq!['E']
}

/// The models of a list of string slices.
pub open spec fn strs_view(s: Seq<&str>) -> Seq<Seq<char>> {
    Seq::new(s.len(), |i: int| s[i]@)
}

/// The mangled name of a free function.
pub open spec fn function_symbol(pkg: Seq<char>, segments: Seq<Seq<char>>, name: Seq<char>, type_args: Seq<TypeV>) -> Seq<char> {
    seq!['_', 'B', 'G', 'F'] + nested_name(pkg, segments, seq![name]) + args_code(type_args)
}

/// The mangled name of a method.
pub open spec fn method_symbol(
    pkg: Seq<char>,
    segments: Seq<Seq<char>>,
    struct_name: Seq<char>,
    method: Seq<char>,
    type_args: Seq<TypeV>,
) -> Seq<char> {
    seq!['_', 'B', 'G', 'M'] + nested_name(pkg, segments, seq![struct_name, method]) + args_code(type_args)
}

/// The mangled name of an initializer.
pub open spec fn initializer_symbol(pkg: Seq<char>, segments: Seq<Seq<char>>, struct_name: Seq<char>) -> Seq<char> {
    seq!['_', 'B', 'G', 'I'] + nested_name(pkg, segments, seq![struct_name])
}

/// Appends `<byte length><name>`.
fn push_length_prefixed(out: &mut String, s: &str)
    ensures
        final(out)@ == old(out)@ + length_prefix(s@),
{
    let n = byte_len(s);
    push_decimal(out, n as u64);
    push_str(out, s);
    assert(final(out)@ =~= old(out)@ + length_prefix(s@));
}

/// Appends the code of a type.
fn push_type_code(out: &mut String, ty: &BirType)
    ensures
        final(out)@ == old(out)@ + type_code(ty@),
    decreases ty,
{
    let ghost start = out@;
    match ty {
        BirType::I32 => push_char(out, 'i'),
        BirType::I64 => push_char(out, 'l'),
        BirType::F32 => push_char(out, 'f'),
        BirType::F64 => push_char(out, 'd'),
        BirType::Bool => push_char(out, 'b'),
        BirType::Unit => push_char(out, 'v'),
        BirType::Error => push_char(out, 'e'),
        BirType::TypeParam(name) => {
            push_char(out, 'T');
            push_length_prefixed(out, name.as_str());
        },
        BirType::Struct { name, type_args } => {
            push_char(out, 'S');
            push_length_prefixed(out, name.as_str());
            push_args_code(out, type_args.as_slice());
        },
        BirType::Array { element, size } => {
            push_char(out, 'A');
            push_type_code(out, element);
            push_decimal(out, *size);
        },
    }
    assert(out@ =~= start + type_code(ty@));
}

/// Appends `I<codes>E` when `type_args` is not empty.
fn push_args_code(out: &mut String, type_args: &[BirType])
    ensures
        final(out)@ == old(out)@ + args_code(views(type_args@)),
    decreases type_args@,
{
    proof { lemma_views(type_args@); }
    let ghost start = out@;
    if type_args.len() == 0 {
        assert(out@ =~= start + args_code(views(type_args@)));
        return;
    }
    push_char(out, 'I');
    let mut k: usize = 0;
    while k < type_args.len()
        invariant
            k <= type_args@.len(),
            views(type_args@).len() == type_args@.len(),
            forall|i: int| 0 <= i < type_args@.len() ==> #[trigger] views(type_args@)[i] == type_args@[i]@,
            out@ == start + seq!['I'] + types_code(views(type_args@).take(k as int)),
        decreases type_args@.len() - k,
    {
        assert(decreases_to!(type_args@ => type_args@[k as int]));
        push_type_code(out, &type_args[k]);
        proof {
            let vs = views(type_args@);
            assert(vs.take(k + 1).drop_last() =~= vs.take(k as int));
            assert(vs.take(k + 1)[k as int] == type_args@[k as int]@);
        }
        k = k + 1;
    }
    push_char(out, 'E');
    assert(views(type_args@).take(type_args@.len() as int) =~= views(type_args@));
    assert(out@ =~= start + args_code(views(type_args@)));
}

/// The code of a type as a new string.
pub fn encode_type(ty: &BirType) -> (r: String)
    ensures
        r@ == type_code(ty@),
{
    let mut r = String::new();
    push_type_code(&mut r, ty);
    assert(r@ =~= type_code(ty@));
    r
}

/// Appends `N<pkg><segments><extra>E`.
fn push_nested_name(out: &mut String, pkg: &str, segments: &[&str], extra: &[&str])
    ensures
        final(out)@ == old(out)@ + nested_name(pkg@, strs_view(segments@), strs_view(extra@)),
{
    let ghost start = out@;
    let ghost segs = strs_view(segments@);
    let ghost xs = strs_view(extra@);
    push_char(out, 'N');
    push_length_prefixed(out, pkg);
    let ghost mid = out@;
    let mut k: usize = 0;
    while k < segments.len()
        invariant
            k <= segments@.len(),
            segs == strs_view(segments@),
            out@ == mid + names_code(non_empty(segs.take(k as int))),
        decreases segments@.len() - k,
    {
        let seg = segments[k];
        proof {
            assert(segs.take(k + 1).drop_last() =~= segs.take(k as int));
            assert(segs.take(k + 1).last() == seg@);
        }
        if seg.is_empty() == false {
            push_length_prefixed(out, seg);
            proof {
                let ne = non_empty(segs.take(k as int));
                assert(non_empty(segs.take(k + 1)) == ne.push(seg@));
                assert(ne.push(seg@).drop_last() =~= ne);
            }
        }
        k = k + 1;
    }
    assert(segs.take(segments@.len() as int) =~= segs);
    let ghost mid2 = out@;
    let mut j: usize = 0;
    while j < extra.len()
        invariant
            j <= extra@.len(),
            xs == strs_view(extra@),
            out@ == mid2 + names_code(xs.take(j as int)),
        decreases extra@.len() - j,
    {
        push_length_prefixed(out, extra[j]);
        proof {
            assert(xs.take(j + 1).drop_last() =~= xs.take(j as int));
            assert(xs.take(j + 1).last() == extra@[j as int]@);
        }
        j = j + 1;
    }
    assert(xs.take(extra@.len() as int) =~= xs);
    push_char(out, 'E');
    assert(out@ =~= start + nested_name(pkg@, segs, xs));
}

/// Mangle a free function: `_BGFN<pkg><segments><name>E[I<type-args>E]`.
pub fn mangle_function(package_name: &str, module_segments: &[&str], func_name: &str, type_args: &[BirType]) -> (r: String)
    ensures
        r@ == function_symbol(package_name@, strs_view(module_segments@), func_name@, views(type_args@)),
{
    let mut r = String::new();
    push_str(&mut r, "_BGF");
    let names = [func_name];
    assert(strs_view(names@) =~= seq![func_name@]);
    push_nested_name(&mut r, package_name, module_segments, &names);
    push_args_code(&mut r, type_args);
    proof { reveal_strlit("_BGF"); }
    assert(r@ =~= function_symbol(package_name@, strs_view(module_segments@), func_name@, views(type_args@)));
    r
}

/// Mangle a method: `_BGMN<pkg><segments><struct><method>E[I<type-args>E]`.
pub fn mangle_method(
    package_name: &str,
    module_segments: &[&str],
    struct_name: &str,
    method_name: &str,
    type_args: &[BirType],
) -> (r: String)
    ensures
        r@ == method_symbol(package_name@, strs_view(module_segments@), struct_name@, method_name@, views(type_args@)),
{
    let mut r = String::new();
    push_str(&mut r, "_BGM");
    let names = [struct_name, method_name];
    assert(strs_view(names@) =~= seq![struct_name@, method_name@]);
    push_nested_name(&mut r, package_name, module_segments, &names);
    push_args_code(&mut r, type_args);
    proof { reveal_strlit("_BGM"); }
    assert(r@ =~= method_symbol(package_name@, strs_view(module_segments@), struct_name@, method_name@, views(type_args@)));
    r
}

/// Mangle an initializer: `_BGIN<pkg><segments><struct>E`.
pub fn mangle_initializer(package_name: &str, module_segments: &[&str], struct_name: &str) -> (r: String)
    ensures
        r@ == initializer_symbol(package_name@, strs_view(module_segments@), struct_name@),
{
    let mut r = String::new();
    push_str(&mut r, "_BGI");
    let names = [struct_name];
    assert(strs_view(names@) =~= seq![struct_name@]);
    push_nested_name(&mut r, package_name, module_segments, &names);
    proof { reveal_strlit("_BGI"); }
    assert(r@ =~= initializer_symbol(package_name@, strs_view(module_segments@), struct_name@));
    r
}

/// The entry point `main` is never mangled.
pub fn mangle_entry_main() -> (r: &'static str)
    ensures
        r@ == seq!['m', 'a', 'i', 'n'],
{
    proof { reveal_strlit("main"); }
    "main"
}

/// Appends `I<types>E` to an already mangled base name when `type_args` is not empty.
pub fn mangle_generic_suffix(base_mangled: &str, type_args: &[BirType]) -> (r: String)
    ensures
        r@ == base_mangled@ + args_code(views(type_args@)),
{
    let mut r = String::new();
    push_str(&mut r, base_mangled);
    push_args_code(&mut r, type_args);
    r
}


/// A name as the lexer spells identifiers: not empty, ASCII, not starting with a digit.
pub open spec fn is_ident_name(s: Seq<char>) -> bool {
    &&& s.len() > 0
    &&& !is_digit(s[0])
    &&& is_ascii_chars(s)
}

/// A length-prefixed identifier can be read back: the name and what follows are determined.
proof fn lemma_length_prefix_unique(a: Seq<char>, b: Seq<char>, r1: Seq<char>, r2: Seq<char>)
    requires
        is_ident_name(a),
        is_ident_name(b),
        length_prefix(a) + r1 == length_prefix(b) + r2,
    ensures
        a == b,
        r1 == r2,
{
    is_ascii_chars_encode_utf8(a);
    is_ascii_chars_encode_utf8(b);
    let da = decimal(utf8_len(a));
    let db = decimal(utf8_len(b));
    lemma_decimal_digits(utf8_len(a));
    lemma_decimal_digits(utf8_len(b));
    let x = length_prefix(a) + r1;
    assert(x =~= da + a + r1);
    assert(x =~= db + b + r2);
    if da.len() < db.len() {
        assert(x[da.len() as int] == a[0]);
        assert(x[da.len() as int] == db[da.len() as int]);
        assert(is_digit(db[da.len() as int]));
    }
    if db.len() < da.len() {
        assert(x[db.len() as int] == b[0]);
        assert(x[db.len() as int] == da[db.len() as int]);
        assert(is_digit(da[db.len() as int]));
    }
    assert(da =~= x.subrange(0, da.len() as int));
    assert(db =~= x.subrange(0, db.len() as int));
    lemma_decimal_injective(utf8_len(a), utf8_len(b));
    assert(a =~= x.subrange(da.len() as int, (da.len() + a.len()) as int));
    assert(b =~= x.subrange(db.len() as int, (db.len() + b.len()) as int));
    assert(r1 =~= x.subrange((da.len() + a.len()) as int, x.len() as int));
    assert(r2 =~= x.subrange((db.len() + b.len()) as int, x.len() as int));
}

/// The codes of a non-empty list of names: the first name's, then the rest's.
proof fn lemma_names_code_front(xs: Seq<Seq<char>>)
    requires
        xs.len() > 0,
    ensures
        names_code(xs) == length_prefix(xs[0]) + names_code(xs.drop_first()),
    decreases xs.len(),
{
    if xs.len() == 1 {
        assert(xs.drop_last() =~= Seq::<Seq<char>>::empty());
        assert(xs.drop_first() =~= Seq::<Seq<char>>::empty());
        assert(names_code(Seq::<Seq<char>>::empty()) == Seq::<char>::empty());
        assert(xs.last() == xs[0]);
        assert(names_code(xs) =~= length_prefix(xs[0]));
        assert(length_prefix(xs[0]) + names_code(xs.drop_first()) =~= length_prefix(xs[0]));
    } else {
        lemma_names_code_front(xs.drop_last());
        assert(xs.drop_last().drop_first() =~= xs.drop_first().drop_last());
        assert(xs.drop_first().last() == xs.last());
        assert(names_code(xs) =~= length_prefix(xs[0]) + names_code(xs.drop_first()));
    }
}

/// The codes of a list of identifiers, closed by `E`, can be read back.
proof fn lemma_names_code_unique(xs: Seq<Seq<char>>, ys: Seq<Seq<char>>, r1: Seq<char>, r2: Seq<char>)
    requires
        forall|i: int| 0 <= i < xs.len() ==> is_ident_name(#[trigger] xs[i]),
        forall|i: int| 0 <= i < ys.len() ==> is_ident_name(#[trigger] ys[i]),
        names_code(xs) + seq!['E'] + r1 == names_code(ys) + seq!['E'] + r2,
    ensures
        xs == ys,
        r1 == r2,
    decreases xs.len(),
{
    let x = names_code(xs) + seq!['E'] + r1;
    if xs.len() == 0 {
        assert(x =~= seq!['E'] + r1);
        if ys.len() > 0 {
            lemma_names_code_front(ys);
            lemma_decimal_digits(utf8_len(ys[0]));
            assert(x[0] == decimal(utf8_len(ys[0]))[0]);
        }
        assert(ys.len() == 0);
        assert(names_code(ys) + seq!['E'] + r2 =~= seq!['E'] + r2);
        assert(r1 =~= x.drop_first());
        assert(r2 =~= x.drop_first());
        assert(xs =~= ys);
    } else if ys.len() == 0 {
        assert(x =~= seq!['E'] + r2);
        lemma_names_code_front(xs);
        lemma_decimal_digits(utf8_len(xs[0]));
        assert(x[0] == decimal(utf8_len(xs[0]))[0]);
    } else {
        lemma_names_code_front(xs);
        lemma_names_code_front(ys);
        let t1 = names_code(xs.drop_first()) + seq!['E'] + r1;
        let t2 = names_code(ys.drop_first()) + seq!['E'] + r2;
        assert(x =~= length_prefix(xs[0]) + t1);
        assert(x =~= length_prefix(ys[0]) + t2);
        lemma_length_prefix_unique(xs[0], ys[0], t1, t2);
        assert forall|i: int| 0 <= i < xs.drop_first().len() implies is_ident_name(#[trigger] xs.drop_first()[i]) by {
            assert(xs.drop_first()[i] == xs[i + 1]);
        }
        assert forall|i: int| 0 <= i < ys.drop_first().len() implies is_ident_name(#[trigger] ys.drop_first()[i]) by {
            assert(ys.drop_first()[i] == ys[i + 1]);
        }
        lemma_names_code_unique(xs.drop_first(), ys.drop_first(), r1, r2);
        assert(xs =~= seq![xs[0]] + xs.drop_first());
        assert(ys =~= seq![ys[0]] + ys.drop_first());
    }
}

/// A function's symbol, read from the front: its tag, then the codes of the
/// package, the non-empty segments and the name, closed by `E`, then the type arguments.
proof fn lemma_function_symbol_shape(pkg: Seq<char>, segments: Seq<Seq<char>>, name: Seq<char>, type_args: Seq<TypeV>)
    ensures
        function_symbol(pkg, segments, name, type_args) == seq!['_', 'B', 'G', 'F', 'N'] + names_code(
            seq![pkg] + non_empty(segments).push(name),
        ) + seq!['E'] + args_code(type_args),
{
    let l = seq![pkg] + non_empty(segments).push(name);
    assert(l.drop_first() =~= non_empty(segments).push(name));
    lemma_names_code_front(l);
    assert(non_empty(segments).push(name).drop_last() =~= non_empty(segments));
    assert(names_code(seq![name]) =~= length_prefix(name)) by {
        assert(seq![name].drop_last() =~= Seq::<Seq<char>>::empty());
        assert(names_code(Seq::<Seq<char>>::empty()) == Seq::<char>::empty());
    }
    assert(function_symbol(pkg, segments, name, type_args) =~= seq!['_', 'B', 'G', 'F', 'N'] + names_code(l) + seq!['E']
        + args_code(type_args));
}

/// Every name of the list of a function's symbol is an identifier.
proof fn lemma_symbol_names_idents(pkg: Seq<char>, segments: Seq<Seq<char>>, name: Seq<char>)
    requires
        is_ident_name(pkg),
        is_ident_name(name),
        forall|i: int| 0 <= i < non_empty(segments).len() ==> is_ident_name(#[trigger] non_empty(segments)[i]),
    ensures
        forall|i: int|
            0 <= i < (seq![pkg] + non_empty(segments).push(name)).len() ==> is_ident_name(
                #[trigger] (seq![pkg] + non_empty(segments).push(name))[i],
            ),
{
    let l = seq![pkg] + non_empty(segments).push(name);
    assert forall|i: int| 0 <= i < l.len() implies is_ident_name(#[trigger] l[i]) by {
        if i > 0 && i < l.len() - 1 {
            assert(l[i] == non_empty(segments)[i - 1]);
        }
    }
}

/// Symbols of free functions are unambiguous: when the package, the module
/// segments and the function names are identifiers, two functions with the same
/// type arguments get the same symbol only if they have the same package, the
/// same non-empty module segments and the same name (so `my_app::foo_bar::add`
/// and `my_app::foo::bar_add` differ).
pub proof fn law_function_symbols_unambiguous(
    pkg1: Seq<char>,
    segments1: Seq<Seq<char>>,
    name1: Seq<char>,
    pkg2: Seq<char>,
    segments2: Seq<Seq<char>>,
    name2: Seq<char>,
    type_args: Seq<TypeV>,
)
    requires
        is_ident_name(pkg1),
        is_ident_name(pkg2),
        is_ident_name(name1),
        is_ident_name(name2),
        forall|i: int| 0 <= i < non_empty(segments1).len() ==> is_ident_name(#[trigger] non_empty(segments1)[i]),
        forall|i: int| 0 <= i < non_empty(segments2).len() ==> is_ident_name(#[trigger] non_empty(segments2)[i]),
        function_symbol(pkg1, segments1, name1, type_args) == function_symbol(pkg2, segments2, name2, type_args),
    ensures
        pkg1 == pkg2,
        non_empty(segments1) == non_empty(segments2),
        name1 == name2,
{
    let l1 = seq![pkg1] + non_empty(segments1).push(name1);
    let l2 = seq![pkg2] + non_empty(segments2).push(name2);
    let f = function_symbol(pkg1, segments1, name1, type_args);
    let a = args_code(type_args);
    lemma_function_symbol_shape(pkg1, segments1, name1, type_args);
    lemma_function_symbol_shape(pkg2, segments2, name2, type_args);
    assert(names_code(l1) + seq!['E'] + a =~= f.subrange(5, f.len() as int));
    assert(names_code(l2) + seq!['E'] + a =~= f.subrange(5, f.len() as int));
    lemma_symbol_names_idents(pkg1, segments1, name1);
    lemma_symbol_names_idents(pkg2, segments2, name2);
    lemma_names_code_unique(l1, l2, a, a);
    assert(l1[0] == pkg1 && l2[0] == pkg2);
    assert(l1.last() == name1 && l2.last() == name2);
    assert(non_empty(segments1) =~= l1.subrange(1, l1.len() - 1));
    assert(non_empty(segments2) =~= l2.subrange(1, l2.len() - 1));
}

/// Functions, methods and initializers never share a symbol: their symbols differ in the entity tag.
pub proof fn law_symbol_kinds_distinct(
    pkg: Seq<char>,
    segments: Seq<Seq<char>>,
    func: Seq<char>,
    func_args: Seq<TypeV>,
    struct_name: Seq<char>,
    method: Seq<char>,
    method_args: Seq<TypeV>,
    init_struct: Seq<char>,
)
    ensures
        function_symbol(pkg, segments, func, func_args) != method_symbol(pkg, segments, struct_name, method, method_args),
        function_symbol(pkg, segments, func, func_args) != initializer_symbol(pkg, segments, init_struct),
        method_symbol(pkg, segments, struct_name, method, method_args) != initializer_symbol(pkg, segments, init_struct),
{
    let f = function_symbol(pkg, segments, func, func_args);
    let m = method_symbol(pkg, segments, struct_name, method, method_args);
    let i = initializer_symbol(pkg, segments, init_struct);
    assert(f[3] == 'F');
    assert(m[3] == 'M');
    assert(i[3] == 'I');
}

} // verus!
