//! Checks on a module's struct layouts before lowering.
use vstd::prelude::*;

use super::instruction::{BirType, TypeV};
use crate::codegen::types::{find_layout, layout_named};
use vstd::set_lib::lemma_len_subset;
use crate::error::{BengalError, Span};
use crate::semantic::Type;
use crate::package::names_view;
use crate::text::push_str;

verus! {

/// The structs that a layout's fields hold directly, in order of the fields.
pub open spec fn struct_deps(fs: Seq<(String, BirType)>) -> Seq<Seq<char>>
    decreases fs.len(),
{
    if fs.len() == 0 {
        Seq::empty()
    } else {
        let rest = struct_deps(fs.drop_last());
        match fs.last().1@ {
            TypeV::Struct { name, .. } => rest.push(name),
            _ => rest,
        }
    }
}

/// The structs that struct `n` holds directly; none when it has no layout.
pub open spec fn deps(ls: Seq<(String, Vec<(String, BirType)>)>, n: Seq<char>) -> Seq<Seq<char>> {
    match layout_named(ls, n) {
        Some(j) => struct_deps(ls[j].1@),
        None => Seq::empty(),
    }
}

/// Struct `p[i]` holds struct `p[i + 1]` directly.
pub open spec fn holds_next(ls: Seq<(String, Vec<(String, BirType)>)>, p: Seq<Seq<char>>, i: int) -> bool {
    deps(ls, p[i]).contains(p[i + 1])
}

/// Each struct of `p` holds the next one directly.
pub open spec fn is_path(ls: Seq<(String, Vec<(String, BirType)>)>, p: Seq<Seq<char>>) -> bool {
    forall|i: int| 0 <= i < p.len() - 1 ==> #[trigger] holds_next(ls, p, i)
}

/// Struct `n` holds itself, directly or through other structs: it would be infinitely large.
pub open spec fn on_cycle(ls: Seq<(String, Vec<(String, BirType)>)>, n: Seq<char>) -> bool {
    exists|p: Seq<Seq<char>>| p.len() >= 2 && p[0] == n && p.last() == n && #[trigger] is_path(ls, p)
}

/// The message for a struct that holds itself.
pub open spec fn recursive_struct_message(n: Seq<char>) -> Seq<char> {
    "recursive struct `"@ + n + "` is not supported (infinitely sized)"@
}

/// The span recorded for struct `n`; a later entry takes precedence.
pub open spec fn span_of(spans: Seq<(String, Span)>, n: Seq<char>) -> Option<Span>
    decreases spans.len(),
{
    if spans.len() == 0 {
        None
    } else if spans.last().0@ == n {
        Some(spans.last().1)
    } else {
        span_of(spans.drop_last(), n)
    }
}

/// `e` reports that struct `n` holds itself.
pub open spec fn reports_recursive(e: BengalError, n: Seq<char>, spans: Seq<(String, Span)>) -> bool {
    e matches BengalError::LoweringError { message, span } && message@ == recursive_struct_message(n) && span
        == span_of(spans, n)
}

/// Every struct name of the layouts: each struct with a layout and each struct a layout holds.
pub open spec fn all_names(ls: Seq<(String, Vec<(String, BirType)>)>) -> Seq<Seq<char>>
    decreases ls.len(),
{
    if ls.len() == 0 {
        Seq::empty()
    } else {
        all_names(ls.drop_last()).push(ls.last().0@) + struct_deps(ls.last().1@)
    }
}

/// Each struct with a layout, and each struct it holds, is among `all_names`.
proof fn lemma_all_names(ls: Seq<(String, Vec<(String, BirType)>)>, j: int)
    requires
        0 <= j < ls.len(),
    ensures
        all_names(ls).contains(ls[j].0@),
        forall|d: Seq<char>| struct_deps(ls[j].1@).contains(d) ==> all_names(ls).contains(d),
    decreases ls.len(),
{
    let prefix = all_names(ls.drop_last()).push(ls.last().0@);
    let sd = struct_deps(ls.last().1@);
    if j < ls.len() - 1 {
        lemma_all_names(ls.drop_last(), j);
        assert(ls.drop_last()[j] == ls[j]);
        let x = all_names(ls.drop_last()).index_of(ls[j].0@);
        assert(all_names(ls)[x] == ls[j].0@);
        assert forall|d: Seq<char>| struct_deps(ls[j].1@).contains(d) implies all_names(ls).contains(d) by {
            assert(struct_deps(ls.drop_last()[j].1@).contains(d));
            assert(all_names(ls.drop_last()).contains(d));
            let y = all_names(ls.drop_last()).index_of(d);
            assert(all_names(ls)[y] == d);
        }
    } else {
        assert(all_names(ls)[prefix.len() - 1] == ls[j].0@);
        assert forall|d: Seq<char>| struct_deps(ls[j].1@).contains(d) implies all_names(ls).contains(d) by {
            let y = sd.index_of(d);
            assert(all_names(ls)[prefix.len() + y] == d);
        }
    }
}

/// Each struct that a struct holds is among `all_names`.
proof fn lemma_deps_named(ls: Seq<(String, Vec<(String, BirType)>)>, n: Seq<char>, d: Seq<char>)
    requires
        deps(ls, n).contains(d),
    ensures
        all_names(ls).contains(d),
        layout_named(ls, n) is Some,
{
    lemma_layout_named_in(ls, n);
    let j = layout_named(ls, n)->0;
    lemma_all_names(ls, j);
}

/// `layout_named` finds a layout of that name.
proof fn lemma_layout_named_in(ls: Seq<(String, Vec<(String, BirType)>)>, n: Seq<char>)
    ensures
        layout_named(ls, n) matches Some(j) ==> 0 <= j < ls.len() && ls[j].0@ == n,
    decreases ls.len(),
{
    if ls.len() > 0 && ls.last().0@ != n {
        lemma_layout_named_in(ls.drop_last(), n);
    }
}

/// A struct that has a layout is found by `layout_named`.
proof fn lemma_layout_named_found(ls: Seq<(String, Vec<(String, BirType)>)>, k: int)
    requires
        0 <= k < ls.len(),
    ensures
        layout_named(ls, ls[k].0@) is Some,
    decreases ls.len(),
{
    if ls.last().0@ != ls[k].0@ {
        assert(k < ls.len() - 1);
        assert(ls.drop_last()[k] == ls[k]);
        lemma_layout_named_found(ls.drop_last(), k);
    }
}

/// The visited structs hold only visited structs, and none of them holds itself.
pub open spec fn finished(ls: Seq<(String, Vec<(String, BirType)>)>, vis: Seq<Seq<char>>) -> bool {
    &&& forall|v: Seq<char>, d: Seq<char>| vis.contains(v) && #[trigger] deps(ls, v).contains(d) ==> vis.contains(d)
    &&& forall|v: Seq<char>| #[trigger] vis.contains(v) ==> !on_cycle(ls, v)
}

/// The structs being visited form a chain, each holding the next, without repetition.
pub open spec fn chain(ls: Seq<(String, Vec<(String, BirType)>)>, st: Seq<Seq<char>>) -> bool {
    &&& is_path(ls, st)
    &&& st.no_duplicates()
    &&& forall|i: int| 0 <= i < st.len() ==> all_names(ls).contains(#[trigger] st[i])
}

/// No struct is both being visited and visited.
pub open spec fn apart(st: Seq<Seq<char>>, vis: Seq<Seq<char>>) -> bool {
    forall|x: Seq<char>| st.contains(x) ==> !#[trigger] vis.contains(x)
}

/// Following a path from a struct of a closed set stays in the set.
proof fn lemma_path_stays(ls: Seq<(String, Vec<(String, BirType)>)>, vis: Seq<Seq<char>>, p: Seq<Seq<char>>, i: int)
    requires
        forall|v: Seq<char>, d: Seq<char>| vis.contains(v) && #[trigger] deps(ls, v).contains(d) ==> vis.contains(d),
        is_path(ls, p),
        p.len() > 0,
        vis.contains(p[0]),
        0 <= i < p.len(),
    ensures
        vis.contains(p[i]),
    decreases i,
{
    if i > 0 {
        lemma_path_stays(ls, vis, p, i - 1);
        assert(holds_next(ls, p, i - 1));
    }
}

/// A chain ending in `n`, closed by an edge from `n` back into it, is a cycle.
proof fn lemma_chain_cycle(ls: Seq<(String, Vec<(String, BirType)>)>, st: Seq<Seq<char>>, d: Seq<char>)
    requires
        is_path(ls, st),
        st.len() > 0,
        deps(ls, st.last()).contains(d),
        st.contains(d),
    ensures
        on_cycle(ls, d),
{
    let i = st.index_of(d);
    let p = st.subrange(i, st.len() as int).push(d);
    assert(p[0] == d);
    assert(p.last() == d);
    assert forall|k: int| 0 <= k < p.len() - 1 implies #[trigger] holds_next(ls, p, k) by {
        if k < p.len() - 2 {
            assert(holds_next(ls, st, i + k));
            assert(p[k] == st[i + k]);
            assert(p[k + 1] == st[i + k + 1]);
        } else {
            assert(p[k] == st.last());
            assert(p[k + 1] == d);
        }
    }
    assert(is_path(ls, p));
}

/// A struct that holds only finished structs does not hold itself.
proof fn lemma_finish(ls: Seq<(String, Vec<(String, BirType)>)>, vis: Seq<Seq<char>>, n: Seq<char>)
    requires
        finished(ls, vis),
        !vis.contains(n),
        forall|d: Seq<char>| #[trigger] deps(ls, n).contains(d) ==> vis.contains(d),
    ensures
        finished(ls, vis.push(n)),
{
    let nv = vis.push(n);
    assert forall|x: Seq<char>| #[trigger] nv.contains(x) implies x == n || vis.contains(x) by {
        let k = nv.index_of(x);
        if k < vis.len() {
            assert(vis[k] == x);
        }
    }
    assert forall|v: Seq<char>, d: Seq<char>| nv.contains(v) && #[trigger] deps(ls, v).contains(d) implies nv.contains(d) by {
        if v == n {
            assert(vis.contains(d));
        } else {
            assert(vis.contains(d));
        }
        let k = vis.index_of(d);
        assert(nv[k] == d);
    }
    assert forall|v: Seq<char>| #[trigger] nv.contains(v) implies !on_cycle(ls, v) by {
        if v == n && on_cycle(ls, n) {
            let p = choose|p: Seq<Seq<char>>| p.len() >= 2 && p[0] == n && p.last() == n && #[trigger] is_path(ls, p);
            assert(holds_next(ls, p, 0));
            let q = p.subrange(1, p.len() as int);
            assert forall|k: int| 0 <= k < q.len() - 1 implies #[trigger] holds_next(ls, q, k) by {
                assert(holds_next(ls, p, k + 1));
                assert(q[k] == p[k + 1]);
                assert(q[k + 1] == p[k + 2]);
            }
            assert(vis.contains(q[0]));
            lemma_path_stays(ls, vis, q, q.len() - 1);
            assert(q[q.len() - 1] == n);
        }
    }
}

/// What a depth-first visit gives: the finished structs, in the order they were
/// finished, or the struct met again while it was being visited.
pub enum Visit {
    Done(Seq<Seq<char>>),
    Cycle(Seq<char>),
}

/// The depth-first visit of struct `n`, with the chain `st` being visited and
/// the structs `vis` finished: a finished struct is skipped, a struct of the
/// chain is a cycle; otherwise the structs it holds are visited in the order of
/// its fields, and then it is finished. `fuel` bounds the depth.
pub open spec fn visit(ls: Seq<(String, Vec<(String, BirType)>)>, n: Seq<char>, st: Seq<Seq<char>>, vis: Seq<Seq<char>>, fuel: nat) -> Visit
    decreases fuel, 0int, 0int,
{
    if vis.contains(n) {
        Visit::Done(vis)
    } else if st.contains(n) {
        Visit::Cycle(n)
    } else if fuel == 0 {
        Visit::Done(vis)
    } else {
        match visit_all(ls, deps(ls, n), st.push(n), vis, (fuel - 1) as nat) {
            Visit::Done(v) => Visit::Done(v.push(n)),
            Visit::Cycle(c) => Visit::Cycle(c),
        }
    }
}

/// The depth-first visits of the structs `ds`, one after the other.
pub open spec fn visit_all(ls: Seq<(String, Vec<(String, BirType)>)>, ds: Seq<Seq<char>>, st: Seq<Seq<char>>, vis: Seq<Seq<char>>, fuel: nat) -> Visit
    decreases fuel, 1int, ds.len(),
{
    if ds.len() == 0 {
        Visit::Done(vis)
    } else {
        match visit_all(ls, ds.drop_last(), st, vis, fuel) {
            Visit::Done(v) => visit(ls, ds.last(), st, v, fuel),
            Visit::Cycle(c) => Visit::Cycle(c),
        }
    }
}

/// The names of the first `k` layouts.
pub open spec fn layout_names(ls: Seq<(String, Vec<(String, BirType)>)>, k: int) -> Seq<Seq<char>> {
    Seq::new(k as nat, |i: int| ls[i].0@)
}

/// The depth-first search of the whole layout table: each struct with a layout is
/// visited in the order of the table, with enough fuel for the longest chain.
pub open spec fn search(ls: Seq<(String, Vec<(String, BirType)>)>) -> Visit {
    visit_all(ls, layout_names(ls, ls.len() as int), Seq::empty(), Seq::empty(), all_names(ls).len())
}


/// Once a visit of a list of structs ends in a cycle, visiting more structs
/// after them changes nothing.
proof fn lemma_visit_all_cycle_extends(
    ls: Seq<(String, Vec<(String, BirType)>)>,
    a: Seq<Seq<char>>,
    b: Seq<Seq<char>>,
    st: Seq<Seq<char>>,
    vis: Seq<Seq<char>>,
    fuel: nat,
)
    requires
        visit_all(ls, a, st, vis, fuel) is Cycle,
    ensures
        visit_all(ls, a + b, st, vis, fuel) == visit_all(ls, a, st, vis, fuel),
    decreases b.len(),
{
    if b.len() == 0 {
        assert(a + b =~= a);
    } else {
        lemma_visit_all_cycle_extends(ls, a, b.drop_last(), st, vis, fuel);
        assert((a + b).drop_last() =~= a + b.drop_last());
    }
}

/// The structs held by two lists of fields, one after the other.
proof fn lemma_struct_deps_add(x: Seq<(String, BirType)>, y: Seq<(String, BirType)>)
    ensures
        struct_deps(x + y) == struct_deps(x) + struct_deps(y),
    decreases y.len(),
{
    if y.len() == 0 {
        assert(x + y =~= x);
        assert(struct_deps(x) + struct_deps(y) =~= struct_deps(x));
    } else {
        lemma_struct_deps_add(x, y.drop_last());
        assert((x + y).drop_last() =~= x + y.drop_last());
        assert((x + y).last() == y.last());
        let r = struct_deps(x) + struct_deps(y.drop_last());
        match y.last().1@ {
            TypeV::Struct { name, .. } => {
                assert(r.push(name) =~= struct_deps(x) + struct_deps(y.drop_last()).push(name));
            },
            _ => {},
        }
    }
}


/// Whether a list of names holds `name`.
fn has_name(names: &Vec<String>, name: &String) -> (r: bool)
    ensures
        r == names_view(names@).contains(name@),
{
    let mut k: usize = 0;
    while k < names.len()
        invariant
            k <= names@.len(),
            forall|i: int| 0 <= i < k ==> names@[i]@ != name@,
        decreases names@.len() - k,
    {
        if names[k].eq(name) {
            assert(names_view(names@)[k as int] == name@);
            return true;
        }
        k = k + 1;
    }
    proof {
        if names_view(names@).contains(name@) {
            let i = names_view(names@).index_of(name@);
            assert(names@[i]@ == name@);
        }
    }
    false
}

/// The span recorded for struct `name`.
fn find_span(spans: &Vec<(String, Span)>, name: &String) -> (r: Option<Span>)
    ensures
        r == span_of(spans@, name@),
{
    let mut k: usize = spans.len();
    assert(spans@.take(k as int) =~= spans@);
    while k > 0
        invariant
            k <= spans@.len(),
            span_of(spans@, name@) == span_of(spans@.take(k as int), name@),
        decreases k,
    {
        assert(spans@.take(k as int).drop_last() =~= spans@.take(k - 1));
        if spans[k - 1].0.eq(name) {
            return Some(spans[k - 1].1);
        }
        k = k - 1;
    }
    None
}

/// The error for a struct that holds itself.
fn recursive_struct_error(name: &String, spans: &Vec<(String, Span)>) -> (r: BengalError)
    ensures
        reports_recursive(r, name@, spans@),
{
    let mut message = String::new();
    push_str(&mut message, "recursive struct `");
    push_str(&mut message, name.as_str());
    push_str(&mut message, "` is not supported (infinitely sized)");
    BengalError::LoweringError { message, span: find_span(spans, name) }
}


/// A chain is no longer than the list of all struct names.
proof fn lemma_chain_bound(ls: Seq<(String, Vec<(String, BirType)>)>, st: Seq<Seq<char>>)
    requires
        chain(ls, st),
    ensures
        st.len() <= all_names(ls).len(),
{
    broadcast use vstd::seq_lib::seq_to_set_is_finite;

    st.unique_seq_to_set();
    let u = all_names(ls).to_set();
    assert forall|x: Seq<char>| st.to_set().contains(x) implies u.contains(x) by {
        let i = st.index_of(x);
        assert(all_names(ls).contains(st[i]));
    }
    all_names(ls).lemma_cardinality_of_set();
    lemma_len_subset(st.to_set(), u);
}

/// A chain extended by a struct that its last struct holds, and that it does not contain yet.
proof fn lemma_chain_push(ls: Seq<(String, Vec<(String, BirType)>)>, st: Seq<Seq<char>>, n: Seq<char>)
    requires
        chain(ls, st),
        st.len() > 0 ==> deps(ls, st.last()).contains(n),
        !st.contains(n),
        all_names(ls).contains(n),
    ensures
        chain(ls, st.push(n)),
{
    let p = st.push(n);
    assert forall|k: int| 0 <= k < p.len() - 1 implies #[trigger] holds_next(ls, p, k) by {
        if k < st.len() - 1 {
            assert(holds_next(ls, st, k));
        }
    }
    assert forall|a: int, b: int| 0 <= a < p.len() && 0 <= b < p.len() && a != b implies p[a] != p[b] by {
        if a < st.len() && b < st.len() {
        } else if a == st.len() as int {
            if p[a] == p[b] {
                assert(st[b] == n);
                assert(st.contains(n));
            }
        } else {
            if p[a] == p[b] {
                assert(st[a] == n);
                assert(st.contains(n));
            }
        }
    }
}

/// Visits struct `name` and, depth first, the structs it holds, in the order of
/// its fields: marks them finished, or reports a struct that holds itself.
fn visit_struct(
    name: &String,
    layouts: &Vec<(String, Vec<(String, BirType)>)>,
    spans: &Vec<(String, Span)>,
    visiting: &mut Vec<String>,
    visited: &mut Vec<String>,
) -> (r: Result<(), BengalError>)
    requires
        all_names(layouts@).contains(name@),
        chain(layouts@, names_view(old(visiting)@)),
        old(visiting)@.len() > 0 ==> deps(layouts@, names_view(old(visiting)@).last()).contains(name@),
        finished(layouts@, names_view(old(visited)@)),
        apart(names_view(old(visiting)@), names_view(old(visited)@)),
    ensures
        match r {
            Ok(()) => {
                &&& names_view(final(visiting)@) == names_view(old(visiting)@)
                &&& finished(layouts@, names_view(final(visited)@))
                &&& apart(names_view(final(visiting)@), names_view(final(visited)@))
                &&& forall|x: Seq<char>|
                    names_view(old(visited)@).contains(x) ==> #[trigger] names_view(final(visited)@).contains(x)
                &&& names_view(final(visited)@).contains(name@)
            },
            Err(e) => exists|n: Seq<char>| on_cycle(layouts@, n) && reports_recursive(e, n, spans@),
        },
        match visit(
            layouts@,
            name@,
            names_view(old(visiting)@),
            names_view(old(visited)@),
            (all_names(layouts@).len() - old(visiting)@.len()) as nat,
        ) {
            Visit::Done(v) => r is Ok && names_view(final(visited)@) == v,
            Visit::Cycle(c) => r matches Err(e) && reports_recursive(e, c, spans@),
        },
    decreases all_names(layouts@).len() - old(visiting)@.len(),
{
    let ghost ls = layouts@;
    let ghost st0 = names_view(visiting@);
    let ghost vis0 = names_view(visited@);
    proof { lemma_chain_bound(ls, st0); }
    let ghost fuel: nat = (all_names(ls).len() - st0.len()) as nat;
    if has_name(visited, name) {
        return Ok(());
    }
    if has_name(visiting, name) {
        proof { lemma_chain_cycle(ls, st0, name@); }
        return Err(recursive_struct_error(name, spans));
    }
    proof { lemma_chain_push(ls, st0, name@); }
    visiting.push(name.clone());
    assert(names_view(visiting@) =~= st0.push(name@));
    proof { lemma_chain_bound(ls, st0.push(name@)); }
    match find_layout(layouts, name) {
        Some(j) => {
            let fields = &layouts[j].1;
            let ghost fs = fields@;
            let mut k: usize = 0;
            assert(fs.take(0) =~= Seq::<(String, BirType)>::empty());
            while k < fields.len()
                invariant
                    ls == layouts@,
                    names_view(old(visiting)@) == st0,
                    names_view(old(visited)@) == vis0,
                    fs == fields@,
                    fs == ls[j as int].1@,
                    layout_named(ls, name@) == Some(j as int),
                    k <= fs.len(),
                    names_view(visiting@) == st0.push(name@),
                    chain(ls, st0.push(name@)),
                    st0.push(name@).len() <= all_names(ls).len(),
                    fuel == all_names(ls).len() - st0.len(),
                    fuel > 0,
                    !st0.contains(name@),
                    !vis0.contains(name@),
                    visit_all(ls, struct_deps(fs.take(k as int)), st0.push(name@), vis0, (fuel - 1) as nat)
                        == Visit::Done(names_view(visited@)),
                    finished(ls, names_view(visited@)),
                    apart(names_view(visiting@), names_view(visited@)),
                    forall|x: Seq<char>| vis0.contains(x) ==> #[trigger] names_view(visited@).contains(x),
                    forall|d: Seq<char>|
                        #[trigger] struct_deps(fs.take(k as int)).contains(d) ==> names_view(visited@).contains(d),
                decreases fs.len() - k,
            {
                assert(fs.take(k + 1).drop_last() =~= fs.take(k as int));
                assert(fs.take(k + 1).last() == fs[k as int]);
                let ghost before = names_view(visited@);
                match &fields[k].1 {
                    BirType::Struct { name: dep, .. } => {
                        assert(struct_deps(fs.take(k + 1)) == struct_deps(fs.take(k as int)).push(dep@));
                        assert(struct_deps(fs).contains(dep@)) by {
                            let sd = struct_deps(fs.take(k + 1));
                            assert(sd[sd.len() - 1] == dep@);
                            assert(sd.contains(dep@));
                            lemma_struct_deps_prefix(fs, k as int + 1);
                        }
                        assert(deps(ls, name@).contains(dep@));
                        proof { lemma_deps_named(ls, name@, dep@); }
                        assert(names_view(visiting@).last() == name@);
                        assert(visiting@.len() == st0.len() + 1);
                        assert(old(visiting)@.len() == st0.len());
                        let ghost st1 = st0.push(name@);
                        proof {
                            assert(struct_deps(fs.take(k + 1)).drop_last() =~= struct_deps(fs.take(k as int)));
                            assert(visit_all(ls, struct_deps(fs.take(k + 1)), st1, vis0, (fuel - 1) as nat) == visit(
                                ls,
                                dep@,
                                st1,
                                before,
                                (fuel - 1) as nat,
                            ));
                        }
                        let r = visit_struct(dep, layouts, spans, visiting, visited);
                        if r.is_err() {
                            proof {
                                lemma_struct_deps_add(fs.take(k + 1), fs.skip(k + 1));
                                assert(fs.take(k + 1) + fs.skip(k + 1) =~= fs);
                                lemma_visit_all_cycle_extends(
                                    ls,
                                    struct_deps(fs.take(k + 1)),
                                    struct_deps(fs.skip(k + 1)),
                                    st1,
                                    vis0,
                                    (fuel - 1) as nat,
                                );
                                assert(visit(ls, dep@, st1, before, (fuel - 1) as nat) is Cycle);
                                assert(deps(ls, name@) == struct_deps(fs));
                                assert(visit_all(ls, deps(ls, name@), st1, vis0, (fuel - 1) as nat) == visit(
                                    ls,
                                    dep@,
                                    st1,
                                    before,
                                    (fuel - 1) as nat,
                                ));
                                assert(!vis0.contains(name@) && !st0.contains(name@) && fuel > 0);
                                let c = visit(ls, dep@, st1, before, (fuel - 1) as nat)->Cycle_0;
                                assert(visit(ls, name@, st0, vis0, fuel) == Visit::Cycle(c));
                                assert(r matches Err(e) && reports_recursive(e, c, spans@));
                                assert(old(visiting)@.len() == st0.len());
                            }
                            return r;
                        }
                        assert forall|d: Seq<char>| #[trigger] struct_deps(fs.take(k + 1)).contains(d) implies names_view(
                            visited@,
                        ).contains(d) by {
                            if d != dep@ {
                                let sd = struct_deps(fs.take(k as int));
                                let i = struct_deps(fs.take(k + 1)).index_of(d);
                                assert(i < sd.len());
                                assert(sd[i] == d);
                                assert(sd.contains(d));
                                assert(before.contains(d));
                            }
                        }
                    },
                    _ => {
                        assert(struct_deps(fs.take(k + 1)) == struct_deps(fs.take(k as int)));
                    },
                }
                k = k + 1;
            }
            assert(fs.take(fs.len() as int) =~= fs);
            assert(deps(ls, name@) == struct_deps(fs));
        },
        None => {
            assert(deps(ls, name@) =~= Seq::<Seq<char>>::empty());
        },
    }
    assert(names_view(visiting@) == st0.push(name@));
    let ghost vv = visiting@;
    visiting.pop();
    assert(visiting@ =~= vv.drop_last());
    assert(names_view(vv).drop_last() =~= st0);
    assert(names_view(vv.drop_last()) =~= names_view(vv).drop_last());
    assert(names_view(visiting@) =~= st0);
    proof {
        assert(st0.push(name@)[st0.len() as int] == name@);
        assert(st0.push(name@).contains(name@));
        lemma_finish(ls, names_view(visited@), name@);
    }
    let ghost vb = names_view(visited@);
    visited.push(name.clone());
    assert(names_view(visited@) =~= vb.push(name@));
    assert forall|x: Seq<char>| st0.contains(x) implies !#[trigger] names_view(visited@).contains(x) by {
        let w = st0.index_of(x);
        assert(st0.push(name@)[w] == x);
        assert(st0.push(name@).contains(x));
        if x == name@ {
            assert(!st0.contains(name@));
        } else {
            let i = vb.push(name@).index_of(x);
            if names_view(visited@).contains(x) {
                assert(i < vb.len());
                assert(vb.contains(x));
            }
        }
    }
    assert forall|x: Seq<char>| vis0.contains(x) implies #[trigger] names_view(visited@).contains(x) by {
        assert(vb.contains(x));
        let i = vb.index_of(x);
        assert(names_view(visited@)[i] == vb[i]);
    }
    assert(names_view(visited@)[vb.len() as int] == name@);
    Ok(())
}

/// The structs of a prefix of a layout's fields are among those of the whole layout.
proof fn lemma_struct_deps_prefix(fs: Seq<(String, BirType)>, k: int)
    requires
        0 <= k <= fs.len(),
    ensures
        forall|d: Seq<char>| struct_deps(fs.take(k)).contains(d) ==> #[trigger] struct_deps(fs).contains(d),
    decreases fs.len() - k,
{
    if k < fs.len() {
        lemma_struct_deps_prefix(fs, k + 1);
        assert(fs.take(k + 1).drop_last() =~= fs.take(k));
        assert forall|d: Seq<char>| struct_deps(fs.take(k)).contains(d) implies #[trigger] struct_deps(fs).contains(d) by {
            let i = struct_deps(fs.take(k)).index_of(d);
            assert(struct_deps(fs.take(k + 1))[i] == d);
            assert(struct_deps(fs.take(k + 1)).contains(d));
        }
    } else {
        assert(fs.take(k) =~= fs);
    }
}

/// Checks that no struct holds itself, directly or through other structs, as a
/// field: such a struct would be infinitely large. The structs are visited depth
/// first, in the order of the layouts and of their fields (`search`); the error
/// names the first struct met again while it is being visited, with its
/// recorded span.
pub fn check_acyclic_structs(
    layouts: &Vec<(String, Vec<(String, BirType)>)>,
    struct_spans: &Vec<(String, Span)>,
) -> (r: Result<(), BengalError>)
    ensures
        r is Ok <==> forall|n: Seq<char>| !on_cycle(layouts@, n),
        r matches Err(e) ==> exists|n: Seq<char>| on_cycle(layouts@, n) && reports_recursive(e, n, struct_spans@),
        match search(layouts@) {
            Visit::Done(_) => r is Ok,
            Visit::Cycle(c) => r matches Err(e) && reports_recursive(e, c, struct_spans@),
        },
{
    let ghost ls = layouts@;
    let ghost total: nat = all_names(ls).len();
    let mut visiting: Vec<String> = Vec::new();
    let mut visited: Vec<String> = Vec::new();
    assert(names_view(visiting@) =~= Seq::<Seq<char>>::empty());
    assert(names_view(visited@) =~= Seq::<Seq<char>>::empty());
    let mut k: usize = 0;
    while k < layouts.len()
        invariant
            ls == layouts@,
            k <= ls.len(),
            names_view(visiting@) == Seq::<Seq<char>>::empty(),
            finished(ls, names_view(visited@)),
            forall|i: int| 0 <= i < k ==> #[trigger] names_view(visited@).contains(ls[i].0@),
            total == all_names(ls).len(),
            visit_all(ls, layout_names(ls, k as int), Seq::empty(), Seq::empty(), total) == Visit::Done(
                names_view(visited@),
            ),
        decreases ls.len() - k,
    {
        proof { lemma_all_names(ls, k as int); }
        assert(layout_names(ls, k + 1).drop_last() =~= layout_names(ls, k as int));
        assert(layout_names(ls, k + 1).last() == ls[k as int].0@);
        assert(apart(names_view(visiting@), names_view(visited@)));
        let ghost before = names_view(visited@);
        match visit_struct(&layouts[k].0, layouts, struct_spans, &mut visiting, &mut visited) {
            Err(e) => {
                proof {
                    let rest = Seq::new((ls.len() - k - 1) as nat, |i: int| ls[k + 1 + i].0@);
                    assert(layout_names(ls, k + 1) + rest =~= layout_names(ls, ls.len() as int));
                    lemma_visit_all_cycle_extends(
                        ls,
                        layout_names(ls, k + 1),
                        rest,
                        Seq::empty(),
                        Seq::empty(),
                        total,
                    );
                }
                return Err(e);
            },
            Ok(()) => {},
        }
        assert forall|i: int| 0 <= i < k + 1 implies #[trigger] names_view(visited@).contains(ls[i].0@) by {
            if i < k {
                assert(before.contains(ls[i].0@));
            }
        }
        k = k + 1;
    }
    assert(layout_names(ls, ls.len() as int) == layout_names(ls, k as int));
    assert forall|n: Seq<char>| !on_cycle(ls, n) by {
        if on_cycle(ls, n) {
            let p = choose|p: Seq<Seq<char>>| p.len() >= 2 && p[0] == n && p.last() == n && #[trigger] is_path(ls, p);
            assert(holds_next(ls, p, 0));
            lemma_deps_named(ls, n, p[1]);
            lemma_layout_named_in(ls, n);
            let j = layout_named(ls, n)->0;
            assert(names_view(visited@).contains(ls[j].0@));
        }
    }
    Ok(())
}


/// Whether a semantic type can be lowered: no generic application and no
/// inference type, at the top or as an array's element.
pub open spec fn lowerable(t: Type) -> bool
    decreases t,
{
    match t {
        Type::Generic { .. } => false,
        Type::Array { element, .. } => lowerable(*element),
        Type::InferVar(_) | Type::IntegerLiteral(_) | Type::FloatLiteral(_) => false,
        _ => true,
    }
}

/// The BIR type of a lowerable semantic type: a struct has no type arguments,
/// a type parameter keeps its name and drops its bound.
pub open spec fn lowered_type(t: Type) -> TypeV
    decreases t,
{
    match t {
        Type::I32 => TypeV::I32,
        Type::I64 => TypeV::I64,
        Type::F32 => TypeV::F32,
        Type::F64 => TypeV::F64,
        Type::Bool => TypeV::Bool,
        Type::Unit => TypeV::Unit,
        Type::Struct(name) => TypeV::Struct { name: name@, type_args: Seq::empty() },
        Type::TypeParam { name, .. } => TypeV::TypeParam(name@),
        Type::Array { element, size } => TypeV::Array { element: Box::new(lowered_type(*element)), size },
        _ => TypeV::Error,
    }
}

/// The BIR type of a semantic type after monomorphization.
pub fn semantic_type_to_bir(ty: &Type) -> (r: BirType)
    requires
        lowerable(*ty),
    ensures
        r@ == lowered_type(*ty),
    decreases ty,
{
    match ty {
        Type::I32 => BirType::I32,
        Type::I64 => BirType::I64,
        Type::F32 => BirType::F32,
        Type::F64 => BirType::F64,
        Type::Bool => BirType::Bool,
        Type::Unit => BirType::Unit,
        Type::Struct(name) => BirType::struct_simple(name.clone()),
        Type::TypeParam { name, .. } => BirType::TypeParam(name.clone()),
        Type::Array { element, size } => BirType::Array { element: Box::new(semantic_type_to_bir(element)), size: *size },
        _ => BirType::Error,
    }
}


/// The message for a struct with a stored field of type `()`.
pub open spec fn unit_field_message(st: Seq<char>, field: Seq<char>) -> Seq<char> {
    "struct `"@ + st + "` has Unit-typed stored field `"@ + field + "`; Unit fields are not supported"@
}

/// Layout `k` has a stored field of type `()` at position `f`.
pub open spec fn unit_field_at(ls: Seq<(String, Vec<(String, BirType)>)>, k: int, f: int) -> bool {
    0 <= k < ls.len() && 0 <= f < ls[k].1@.len() && ls[k].1@[f].1@ == TypeV::Unit
}

/// `e` reports the stored field `f` of layout `k`, of type `()`.
pub open spec fn reports_unit_field(
    e: BengalError,
    ls: Seq<(String, Vec<(String, BirType)>)>,
    k: int,
    f: int,
    spans: Seq<(String, Span)>,
) -> bool {
    e matches BengalError::LoweringError { message, span } && message@ == unit_field_message(ls[k].0@, ls[k].1@[f].0@)
        && span == span_of(spans, ls[k].0@)
}

/// Checks that no struct has a stored field of type `()`; the error names the
/// first such field in the order of the layouts and their fields, with the
/// struct's recorded span.
pub fn reject_unit_fields(
    layouts: &Vec<(String, Vec<(String, BirType)>)>,
    struct_spans: &Vec<(String, Span)>,
) -> (r: Result<(), BengalError>)
    ensures
        r is Ok <==> forall|k: int, f: int| !unit_field_at(layouts@, k, f),
        r matches Err(e) ==> exists|k: int, f: int|
            #[trigger] unit_field_at(layouts@, k, f) && reports_unit_field(e, layouts@, k, f, struct_spans@)
                && forall|a: int, b: int|
                (a < k || (a == k && b < f)) ==> !#[trigger] unit_field_at(layouts@, a, b),
{
    let mut k: usize = 0;
    while k < layouts.len()
        invariant
            k <= layouts@.len(),
            forall|a: int, f: int| 0 <= a < k ==> !unit_field_at(layouts@, a, f),
        decreases layouts@.len() - k,
    {
        let fields = &layouts[k].1;
        let mut f: usize = 0;
        while f < fields.len()
            invariant
                k < layouts@.len(),
                fields@ == layouts@[k as int].1@,
                f <= fields@.len(),
                forall|a: int, b: int| 0 <= a < k ==> !unit_field_at(layouts@, a, b),
                forall|b: int| 0 <= b < f ==> !unit_field_at(layouts@, k as int, b),
            decreases fields@.len() - f,
        {
            match &fields[f].1 {
                BirType::Unit => {
                    let mut message = String::new();
                    push_str(&mut message, "struct `");
                    push_str(&mut message, layouts[k].0.as_str());
                    push_str(&mut message, "` has Unit-typed stored field `");
                    push_str(&mut message, fields[f].0.as_str());
                    push_str(&mut message, "`; Unit fields are not supported");
                    let span = find_span(struct_spans, &layouts[k].0);
                    assert(unit_field_at(layouts@, k as int, f as int));
                    assert forall|a: int, b: int|
                        (a < k || (a == k && b < f)) implies !unit_field_at(layouts@, a, b) by {
                        if a < k {
                            assert(!unit_field_at(layouts@, a, b));
                        }
                    }
                    return Err(BengalError::LoweringError { message, span });
                },
                _ => {},
            }
            f = f + 1;
        }
        k = k + 1;
    }
    Ok(())
}

} // verus!
