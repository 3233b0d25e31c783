//! Substitution of type parameters and collection of the generic instances a module needs.
use vstd::prelude::*;

use super::instruction::{lemma_views, same_types, views, Value, BasicBlock, BirFunction, BirModule, BirType, Instruction, Terminator, TypeV};
use crate::mangle::{args_code, mangle_generic_suffix};
use vstd::seq_lib::seq_to_set_distributes_over_add;

verus! {

/// The model of a substitution: pairs of a parameter name and the type it stands for.
pub open spec fn subst_view(s: Seq<(String, BirType)>) -> Seq<(Seq<char>, TypeV)> {
    Seq::new(s.len(), |i: int| (s[i].0@, s[i].1@))
}

/// What a substitution maps `name` to; a later pair overrides an earlier one with the same name.
pub open spec fn lookup(s: Seq<(Seq<char>, TypeV)>, name: Seq<char>) -> Option<TypeV>
    decreases s.len(),
{
    if s.len() == 0 {
        None
    } else if s.last().0 == name {
        Some(s.last().1)
    } else {
        lookup(s.drop_last(), name)
    }
}

/// A type with each bound type parameter replaced; unbound parameters stay as they are.
pub open spec fn resolve(t: TypeV, s: Seq<(Seq<char>, TypeV)>) -> TypeV
    decreases t,
{
    match t {
        TypeV::TypeParam(name) => match lookup(s, name) {
            Some(v) => v,
            None => t,
        },
        TypeV::Array { element, size } => TypeV::Array { element: Box::new(resolve(*element, s)), size },
        TypeV::Struct { name, type_args } => TypeV::Struct { name, type_args: resolve_all(type_args, s) },
        _ => t,
    }
}

/// `resolve` applied to each type of a list.
pub open spec fn resolve_all(ts: Seq<TypeV>, s: Seq<(Seq<char>, TypeV)>) -> Seq<TypeV>
    decreases ts,
{
    if ts.len() == 0 {
        Seq::empty()
    } else {
        resolve_all(ts.drop_last(), s).push(resolve(ts[ts.len() - 1], s))
    }
}

/// Every type parameter that occurs in `t` is bound by `s`.
pub open spec fn all_bound(t: TypeV, s: Seq<(Seq<char>, TypeV)>) -> bool
    decreases t,
{
    match t {
        TypeV::TypeParam(name) => lookup(s, name) is Some,
        TypeV::Array { element, .. } => all_bound(*element, s),
        TypeV::Struct { type_args, .. } => all_bound_all(type_args, s),
        _ => true,
    }
}

/// `all_bound` holds of each type of a list.
pub open spec fn all_bound_all(ts: Seq<TypeV>, s: Seq<(Seq<char>, TypeV)>) -> bool
    decreases ts,
{
    if ts.len() == 0 {
        true
    } else {
        all_bound_all(ts.drop_last(), s) && all_bound(ts[ts.len() - 1], s)
    }
}

/// `resolve_all` maps element by element.
pub proof fn lemma_resolve_all(ts: Seq<TypeV>, s: Seq<(Seq<char>, TypeV)>)
    ensures
        resolve_all(ts, s).len() == ts.len(),
        forall|i: int| 0 <= i < ts.len() ==> #[trigger] resolve_all(ts, s)[i] == resolve(ts[i], s),
    decreases ts.len(),
{
    if ts.len() > 0 {
        lemma_resolve_all(ts.drop_last(), s);
        assert forall|i: int| 0 <= i < ts.len() implies #[trigger] resolve_all(ts, s)[i] == resolve(ts[i], s) by {
            if i < ts.len() - 1 {
                assert(ts.drop_last()[i] == ts[i]);
            }
        }
    }
}

/// `all_bound_all` holds exactly when `all_bound` holds of each element.
pub proof fn lemma_all_bound_all(ts: Seq<TypeV>, s: Seq<(Seq<char>, TypeV)>)
    ensures
        all_bound_all(ts, s) == forall|i: int| 0 <= i < ts.len() ==> #[trigger] all_bound(ts[i], s),
    decreases ts.len(),
{
    if ts.len() > 0 {
        lemma_all_bound_all(ts.drop_last(), s);
        if all_bound_all(ts, s) {
            assert forall|i: int| 0 <= i < ts.len() implies #[trigger] all_bound(ts[i], s) by {
                if i < ts.len() - 1 {
                    assert(ts.drop_last()[i] == ts[i]);
                }
            }
        } else {
            if all_bound_all(ts.drop_last(), s) {
                assert(!all_bound(ts[ts.len() - 1], s));
            } else {
                let j = choose|j: int| 0 <= j < ts.len() - 1 && !all_bound(#[trigger] ts.drop_last()[j], s);
                assert(ts.drop_last()[j] == ts[j]);
            }
        }
    }
}

/// The position of the binding that `lookup` finds for `name`, searching from the end.
fn find_binding(subst: &Vec<(String, BirType)>, name: &String) -> (r: Option<usize>)
    ensures
        match r {
            Some(i) => i < subst@.len() && lookup(subst_view(subst@), name@) == Some(subst@[i as int].1@),
            None => lookup(subst_view(subst@), name@) is None,
        },
{
    let ghost sv = subst_view(subst@);
    let mut k: usize = subst.len();
    assert(sv.take(k as int) =~= sv);
    while k > 0
        invariant
            k <= subst@.len(),
            sv == subst_view(subst@),
            lookup(sv, name@) == lookup(sv.take(k as int), name@),
        decreases k,
    {
        let ghost t = sv.take(k as int);
        assert(t.drop_last() =~= sv.take(k - 1));
        if subst[k - 1].0.eq(name) {
            return Some(k - 1);
        }
        k = k - 1;
    }
    assert(sv.take(0) =~= Seq::<(Seq<char>, TypeV)>::empty());
    None
}

/// Replaces each type parameter that `subst` binds; with `strict`, every parameter must be bound.
fn resolve_type(ty: &BirType, subst: &Vec<(String, BirType)>) -> (r: BirType)
    ensures
        r@ == resolve(ty@, subst_view(subst@)),
    decreases ty,
{
    match ty {
        BirType::TypeParam(name) => match find_binding(subst, name) {
            Some(i) => subst[i].1.copy(),
            None => ty.copy(),
        },
        BirType::Array { element, size } => BirType::Array {
            element: Box::new(resolve_type(element, subst)),
            size: *size,
        },
        BirType::Struct { name, type_args } => {
            let args = resolve_types(type_args, subst);
            let r = BirType::Struct { name: name.clone(), type_args: args };
            proof {
                lemma_views(args@);
                lemma_views(type_args@);
                lemma_resolve_all(views(type_args@), subst_view(subst@));
                assert(views(args@) =~= resolve_all(views(type_args@), subst_view(subst@)));
            }
            r
        },
        _ => ty.copy(),
    }
}

/// `resolve_type` applied to each element of a list.
fn resolve_types(ts: &Vec<BirType>, subst: &Vec<(String, BirType)>) -> (r: Vec<BirType>)
    ensures
        r@.len() == ts@.len(),
        forall|i: int| 0 <= i < ts@.len() ==> (#[trigger] r@[i])@ == resolve(ts@[i]@, subst_view(subst@)),
    decreases ts,
{
    let mut r: Vec<BirType> = Vec::new();
    let mut k: usize = 0;
    while k < ts.len()
        invariant
            k <= ts@.len(),
            r@.len() == k,
            forall|i: int| 0 <= i < k ==> (#[trigger] r@[i])@ == resolve(ts@[i]@, subst_view(subst@)),
        decreases ts@.len() - k,
    {
        assert(decreases_to!(ts => ts@[k as int]));
        r.push(resolve_type(&ts[k], subst));
        k = k + 1;
    }
    r
}

/// Replaces every type parameter of `ty` by the type that `subst` binds it to.
///
/// Each parameter that occurs in `ty` must be bound.
pub fn resolve_bir_type(ty: &BirType, subst: &Vec<(String, BirType)>) -> (r: BirType)
    requires
        all_bound(ty@, subst_view(subst@)),
    ensures
        r@ == resolve(ty@, subst_view(subst@)),
{
    resolve_type(ty, subst)
}

/// Like `resolve_bir_type`, but type parameters that `subst` does not bind pass through unchanged.
pub fn resolve_bir_type_lenient(ty: &BirType, subst: &Vec<(String, BirType)>) -> (r: BirType)
    ensures
        r@ == resolve(ty@, subst_view(subst@)),
{
    resolve_type(ty, subst)
}


/// A generic function together with the concrete type arguments it is used with.
#[derive(Debug, Clone, PartialEq, Eq)]
pub struct Instance {
    pub func_name: String,
    pub type_args: Vec<BirType>,
}

/// The model of an instance: its function's name and the models of its type arguments.
pub type InstV = (Seq<char>, Seq<TypeV>);

impl View for Instance {
    type V = InstV;

    open spec fn view(&self) -> InstV {
        (self.func_name@, views(self.type_args@))
    }
}

/// Binds each type parameter to the type argument at the same position; extra ones on either side are dropped.
pub open spec fn instance_subst(params: Seq<Seq<char>>, args: Seq<TypeV>) -> Seq<(Seq<char>, TypeV)> {
    let n = if params.len() <= args.len() { params.len() } else { args.len() };
    Seq::new(n, |i: int| (params[i], args[i]))
}

/// The models of a list of strings.
pub open spec fn strings_view(s: Seq<String>) -> Seq<Seq<char>> {
    Seq::new(s.len(), |i: int| s[i]@)
}

impl Instance {
    /// The instance's symbol: the function's name followed by `I<type args>E` when it has type arguments.
    pub fn mangled_name(&self) -> (r: String)
        ensures
            r@ == self.func_name@ + args_code(self@.1),
    {
        mangle_generic_suffix(self.func_name.as_str(), self.type_args.as_slice())
    }

    /// The substitution that binds `type_params` to this instance's type arguments, position by position.
    pub fn substitution_map(&self, type_params: &[String]) -> (r: Vec<(String, BirType)>)
        ensures
            subst_view(r@) == instance_subst(strings_view(type_params@), self@.1),
    {
        let mut r: Vec<(String, BirType)> = Vec::new();
        let mut k: usize = 0;
        proof { lemma_views(self.type_args@); }
        while k < type_params.len() && k < self.type_args.len()
            invariant
                k <= type_params@.len(),
                k <= self.type_args@.len(),
                r@.len() == k,
                views(self.type_args@).len() == self.type_args@.len(),
                forall|i: int| 0 <= i < self.type_args@.len() ==> #[trigger] views(self.type_args@)[i] == self.type_args@[i]@,
                forall|i: int| 0 <= i < k ==> (#[trigger] r@[i]).0@ == type_params@[i]@ && r@[i].1@ == self.type_args@[i]@,
            decreases type_params@.len() - k,
        {
            r.push((type_params[k].clone(), self.type_args[k].copy()));
            k = k + 1;
        }
        assert(subst_view(r@) =~= instance_subst(strings_view(type_params@), self@.1));
        r
    }
}


/// The model of a generic struct instance: the struct's name and its type arguments.
pub type StructInstV = (Seq<char>, Seq<TypeV>);

/// The model of a collected struct instance.
pub open spec fn struct_inst_view(p: (String, Vec<BirType>)) -> StructInstV {
    (p.0@, views(p.1@))
}

/// The models of a list of collected struct instances.
pub open spec fn struct_insts_view(v: Seq<(String, Vec<BirType>)>) -> Seq<StructInstV> {
    Seq::new(v.len(), |i: int| struct_inst_view(v[i]))
}

/// The models of a list of instances.
pub open spec fn insts_view(v: Seq<Instance>) -> Seq<InstV> {
    Seq::new(v.len(), |i: int| v[i]@)
}

/// The generic struct instances that occur in a type: every struct with type arguments,
/// together with those inside its arguments and inside array element types.
pub open spec fn struct_insts(t: TypeV) -> Set<StructInstV>
    decreases t,
{
    match t {
        TypeV::Struct { name, type_args } => if type_args.len() > 0 {
            set![(name, type_args)] + struct_insts_all(type_args)
        } else {
            Set::empty()
        },
        TypeV::Array { element, .. } => struct_insts(*element),
        _ => Set::empty(),
    }
}

/// `struct_insts` of each type of a list, together.
pub open spec fn struct_insts_all(ts: Seq<TypeV>) -> Set<StructInstV>
    decreases ts,
{
    if ts.len() == 0 {
        Set::empty()
    } else {
        struct_insts_all(ts.drop_last()) + struct_insts(ts[ts.len() - 1])
    }
}

/// The struct instances of each type of a list after substitution.
pub open spec fn structs_in(ts: Seq<TypeV>, s: Seq<(Seq<char>, TypeV)>) -> Set<StructInstV>
    decreases ts.len(),
{
    if ts.len() == 0 {
        Set::empty()
    } else {
        structs_in(ts.drop_last(), s) + struct_insts(resolve(ts.last(), s))
    }
}

/// The types of a list of (value, type) pairs.
pub open spec fn pair_types(ps: Seq<(super::instruction::Value, BirType)>) -> Seq<TypeV> {
    Seq::new(ps.len(), |i: int| ps[i].1@)
}

/// The types an instruction carries, in the order they are scanned.
pub open spec fn inst_types(inst: Instruction) -> Seq<TypeV> {
    match inst {
        Instruction::Literal { ty, .. } => seq![ty@],
        Instruction::BinaryOp { ty, .. } => seq![ty@],
        Instruction::Call { ty, type_args, .. } => views(type_args@).push(ty@),
        Instruction::Compare { ty, .. } => seq![ty@],
        Instruction::Not { .. } => Seq::empty(),
        Instruction::Cast { from_ty, to_ty, .. } => seq![from_ty@, to_ty@],
        Instruction::StructInit { ty, type_args, .. } => views(type_args@).push(ty@),
        Instruction::FieldGet { object_ty, ty, .. } => seq![object_ty@, ty@],
        Instruction::FieldSet { ty, .. } => seq![ty@],
        Instruction::ArrayInit { ty, .. } => seq![ty@],
        Instruction::ArrayGet { ty, .. } => seq![ty@],
        Instruction::ArraySet { ty, .. } => seq![ty@],
    }
}

/// The types a terminator carries.
pub open spec fn term_types(t: Terminator) -> Seq<TypeV> {
    match t {
        Terminator::Br { args, .. } => pair_types(args@),
        Terminator::BrBreak { args, value, .. } => match value {
            Some(v) => pair_types(args@).push(v.1@),
            None => pair_types(args@),
        },
        Terminator::BrContinue { args, .. } => pair_types(args@),
        _ => Seq::empty(),
    }
}

/// The instance a call with type arguments asks for, under a substitution.
pub open spec fn inst_call(inst: Instruction, s: Seq<(Seq<char>, TypeV)>) -> Seq<InstV> {
    match inst {
        Instruction::Call { func_name, type_args, .. } => if type_args@.len() > 0 {
            seq![(func_name@, resolve_all(views(type_args@), s))]
        } else {
            Seq::empty()
        },
        _ => Seq::empty(),
    }
}

/// The struct instances and called instances of a list of instructions.
pub open spec fn insts_structs(is: Seq<Instruction>, s: Seq<(Seq<char>, TypeV)>) -> Set<StructInstV>
    decreases is.len(),
{
    if is.len() == 0 {
        Set::empty()
    } else {
        insts_structs(is.drop_last(), s) + structs_in(inst_types(is.last()), s)
    }
}

/// The instances that a list of instructions calls, in order.
pub open spec fn insts_calls(is: Seq<Instruction>, s: Seq<(Seq<char>, TypeV)>) -> Seq<InstV>
    decreases is.len(),
{
    if is.len() == 0 {
        Seq::empty()
    } else {
        insts_calls(is.drop_last(), s) + inst_call(is.last(), s)
    }
}

/// The struct instances of a block.
pub open spec fn block_structs(b: BasicBlock, s: Seq<(Seq<char>, TypeV)>) -> Set<StructInstV> {
    structs_in(pair_types(b.params@), s) + insts_structs(b.instructions@, s) + structs_in(term_types(b.terminator), s)
}

/// The struct instances of a list of blocks.
pub open spec fn blocks_structs(bs: Seq<BasicBlock>, s: Seq<(Seq<char>, TypeV)>) -> Set<StructInstV>
    decreases bs.len(),
{
    if bs.len() == 0 {
        Set::empty()
    } else {
        blocks_structs(bs.drop_last(), s) + block_structs(bs.last(), s)
    }
}

/// The instances that a list of blocks calls, in order.
pub open spec fn blocks_calls(bs: Seq<BasicBlock>, s: Seq<(Seq<char>, TypeV)>) -> Seq<InstV>
    decreases bs.len(),
{
    if bs.len() == 0 {
        Seq::empty()
    } else {
        blocks_calls(bs.drop_last(), s) + insts_calls(bs.last().instructions@, s)
    }
}

/// The struct instances a function mentions under a substitution.
pub open spec fn function_structs(f: BirFunction, s: Seq<(Seq<char>, TypeV)>) -> Set<StructInstV> {
    structs_in(pair_types(f.params@).push(f.return_type@), s) + blocks_structs(f.blocks@, s)
}

/// The instances a function calls under a substitution.
pub open spec fn function_calls(f: BirFunction, s: Seq<(Seq<char>, TypeV)>) -> Set<InstV> {
    blocks_calls(f.blocks@, s).to_set()
}



/// The list `l` with each instance of `xs` appended in order, unless the list
/// already holds it.
pub open spec fn add_new(l: Seq<InstV>, xs: Seq<InstV>) -> Seq<InstV>
    decreases xs.len(),
{
    if xs.len() == 0 {
        l
    } else {
        let l0 = add_new(l, xs.drop_last());
        if l0.contains(xs.last()) {
            l0
        } else {
            l0.push(xs.last())
        }
    }
}

/// Appending two runs one after the other.
pub proof fn lemma_add_new_concat(l: Seq<InstV>, a: Seq<InstV>, b: Seq<InstV>)
    ensures
        add_new(l, a + b) == add_new(add_new(l, a), b),
    decreases b.len(),
{
    if b.len() == 0 {
        assert(a + b =~= a);
    } else {
        lemma_add_new_concat(l, a, b.drop_last());
        assert((a + b).drop_last() =~= a + b.drop_last());
        assert((a + b).last() == b.last());
    }
}

/// Whether two lists of types have the same models.
fn same_type_list(a: &Vec<BirType>, b: &Vec<BirType>) -> (r: bool)
    ensures
        r == (views(a@) == views(b@)),
{
    let r = same_types(a, b);
    proof {
        lemma_views(a@);
        lemma_views(b@);
        if r {
            assert(views(a@) =~= views(b@));
        } else if views(a@).len() == views(b@).len() {
            let i = choose|i: int| 0 <= i < a@.len() && (#[trigger] a@[i])@ != b@[i]@;
            assert(views(a@)[i] != views(b@)[i]);
        }
    }
    r
}

/// Adds a struct instance to a list of distinct struct instances unless it is there already.
fn insert_struct_instance(name: &String, args: &Vec<BirType>, set: &mut Vec<(String, Vec<BirType>)>)
    requires
        struct_insts_view(old(set)@).no_duplicates(),
    ensures
        struct_insts_view(final(set)@).no_duplicates(),
        struct_insts_view(final(set)@).to_set() == struct_insts_view(old(set)@).to_set().insert((name@, views(args@))),
{
    let ghost x = (name@, views(args@));
    let mut k: usize = 0;
    while k < set.len()
        invariant
            k <= set@.len(),
            set@ == old(set)@,
            x == (name@, views(args@)),
            struct_insts_view(set@).no_duplicates(),
            forall|i: int| 0 <= i < k ==> #[trigger] struct_insts_view(set@)[i] != x,
        decreases set@.len() - k,
    {
        if set[k].0.eq(name) && same_type_list(&set[k].1, args) {
            proof {
                assert(struct_insts_view(set@)[k as int] == x);
                assert(struct_insts_view(set@).to_set().insert(x) =~= struct_insts_view(set@).to_set());
            }
            return;
        }
        k = k + 1;
    }
    let ghost before = struct_insts_view(set@);
    set.push((name.clone(), copy_type_list(args)));
    proof {
        assert(struct_insts_view(set@) =~= before.push(x));
        before.lemma_push_to_set_commute(x);
        assert forall|i: int, j: int| 0 <= i < j < before.push(x).len() implies before.push(x)[i] != before.push(x)[j] by {
            if j == before.len() {
                assert(before[i] != x);
            }
        }
    }
}

/// A copy of a list of types with the same models.
fn copy_type_list(ts: &Vec<BirType>) -> (r: Vec<BirType>)
    ensures
        views(r@) == views(ts@),
{
    let r = super::instruction::copy_types(ts);
    proof {
        lemma_views(r@);
        lemma_views(ts@);
        assert(views(r@) =~= views(ts@));
    }
    r
}

/// Adds the generic struct instances that occur in `ty` to a list of distinct struct instances.
fn collect_struct_instances(ty: &BirType, set: &mut Vec<(String, Vec<BirType>)>)
    requires
        struct_insts_view(old(set)@).no_duplicates(),
    ensures
        struct_insts_view(final(set)@).no_duplicates(),
        struct_insts_view(final(set)@).to_set() == struct_insts_view(old(set)@).to_set() + struct_insts(ty@),
    decreases ty,
{
    let ghost start = struct_insts_view(set@).to_set();
    match ty {
        BirType::Struct { name, type_args } => {
            if type_args.len() > 0 {
                insert_struct_instance(name, type_args, set);
                collect_struct_instances_all(type_args, set);
                proof { lemma_views(type_args@); }
                assert(struct_insts_view(set@).to_set() =~= start + struct_insts(ty@));
            } else {
                proof { lemma_views(type_args@); }
                assert(struct_insts_view(set@).to_set() =~= start + struct_insts(ty@));
            }
        },
        BirType::Array { element, .. } => {
            collect_struct_instances(element, set);
        },
        _ => {
            assert(struct_insts_view(set@).to_set() =~= start + struct_insts(ty@));
        },
    }
}

/// `collect_struct_instances` for each type of a list.
fn collect_struct_instances_all(ts: &Vec<BirType>, set: &mut Vec<(String, Vec<BirType>)>)
    requires
        struct_insts_view(old(set)@).no_duplicates(),
    ensures
        struct_insts_view(final(set)@).no_duplicates(),
        struct_insts_view(final(set)@).to_set() == struct_insts_view(old(set)@).to_set() + struct_insts_all(views(ts@)),
    decreases ts,
{
    let ghost start = struct_insts_view(set@).to_set();
    let ghost vs = views(ts@);
    proof { lemma_views(ts@); }
    let mut k: usize = 0;
    while k < ts.len()
        invariant
            k <= ts@.len(),
            vs == views(ts@),
            vs.len() == ts@.len(),
            forall|i: int| 0 <= i < ts@.len() ==> #[trigger] vs[i] == ts@[i]@,
            struct_insts_view(set@).no_duplicates(),
            struct_insts_view(set@).to_set() == start + struct_insts_all(vs.take(k as int)),
        decreases ts@.len() - k,
    {
        assert(decreases_to!(ts => ts@[k as int]));
        collect_struct_instances(&ts[k], set);
        proof {
            assert(vs.take(k + 1).drop_last() =~= vs.take(k as int));
            assert(vs.take(k + 1)[k as int] == ts@[k as int]@);
            assert(struct_insts_view(set@).to_set() =~= start + struct_insts_all(vs.take(k + 1)));
        }
        k = k + 1;
    }
    assert(vs.take(ts@.len() as int) =~= vs);
}


/// The types a list of references points to.
pub open spec fn refs_view(ts: Seq<&BirType>) -> Seq<TypeV> {
    Seq::new(ts.len(), |i: int| ts[i]@)
}

/// The types an instruction carries, by reference, in scanning order.
fn instruction_types(inst: &Instruction) -> (r: Vec<&BirType>)
    ensures
        refs_view(r@) == inst_types(*inst),
{
    let mut v: Vec<&BirType> = Vec::new();
    match inst {
        Instruction::Literal { ty, .. } => v.push(ty),
        Instruction::BinaryOp { ty, .. } => v.push(ty),
        Instruction::Call { ty, type_args, .. } => {
            push_refs(&mut v, type_args);
            v.push(ty);
        },
        Instruction::Compare { ty, .. } => v.push(ty),
        Instruction::Not { .. } => {},
        Instruction::Cast { from_ty, to_ty, .. } => {
            v.push(from_ty);
            v.push(to_ty);
        },
        Instruction::StructInit { ty, type_args, .. } => {
            push_refs(&mut v, type_args);
            v.push(ty);
        },
        Instruction::FieldGet { object_ty, ty, .. } => {
            v.push(object_ty);
            v.push(ty);
        },
        Instruction::FieldSet { ty, .. } => v.push(ty),
        Instruction::ArrayInit { ty, .. } => v.push(ty),
        Instruction::ArrayGet { ty, .. } => v.push(ty),
        Instruction::ArraySet { ty, .. } => v.push(ty),
    }
    proof {
        match inst {
            Instruction::Call { type_args, .. } => lemma_views(type_args@),
            Instruction::StructInit { type_args, .. } => lemma_views(type_args@),
            _ => {},
        }
    }
    assert(refs_view(v@) =~= inst_types(*inst));
    v
}

/// Appends a reference to each type of a list.
fn push_refs<'a>(v: &mut Vec<&'a BirType>, ts: &'a Vec<BirType>)
    ensures
        refs_view(final(v)@) == refs_view(old(v)@) + views(ts@),
{
    let ghost start = refs_view(v@);
    proof { lemma_views(ts@); }
    let mut k: usize = 0;
    while k < ts.len()
        invariant
            k <= ts@.len(),
            views(ts@).len() == ts@.len(),
            forall|i: int| 0 <= i < ts@.len() ==> #[trigger] views(ts@)[i] == ts@[i]@,
            refs_view(v@) == start + views(ts@).take(k as int),
        decreases ts@.len() - k,
    {
        let ghost before = v@;
        v.push(&ts[k]);
        proof {
            assert(views(ts@)[k as int] == ts@[k as int]@);
            assert(v@ == before.push(&ts@[k as int]));
            assert(refs_view(v@) =~= refs_view(before).push(ts@[k as int]@));
            assert(views(ts@).take(k + 1) =~= views(ts@).take(k as int).push(views(ts@)[k as int]));
        }
        assert(refs_view(v@) =~= start + views(ts@).take(k + 1));
        k = k + 1;
    }
    assert(views(ts@).take(ts@.len() as int) =~= views(ts@));
}


/// Adds the struct instances of each type of a list, after substitution.
fn collect_structs_of(types: &Vec<&BirType>, subst: &Vec<(String, BirType)>, set: &mut Vec<(String, Vec<BirType>)>)
    requires
        struct_insts_view(old(set)@).no_duplicates(),
    ensures
        struct_insts_view(final(set)@).no_duplicates(),
        struct_insts_view(final(set)@).to_set() == struct_insts_view(old(set)@).to_set() + structs_in(refs_view(types@), subst_view(subst@)),
{
    let ghost start = struct_insts_view(set@).to_set();
    let ghost tv = refs_view(types@);
    let mut k: usize = 0;
    while k < types.len()
        invariant
            k <= types@.len(),
            tv == refs_view(types@),
            struct_insts_view(set@).no_duplicates(),
            struct_insts_view(set@).to_set() == start + structs_in(tv.take(k as int), subst_view(subst@)),
        decreases types@.len() - k,
    {
        let resolved = resolve_bir_type_lenient(types[k], subst);
        collect_struct_instances(&resolved, set);
        proof {
            assert(tv.take(k + 1).drop_last() =~= tv.take(k as int));
            assert(tv.take(k + 1).last() == types@[k as int]@);
        }
        assert(struct_insts_view(set@).to_set() =~= start + structs_in(tv.take(k + 1), subst_view(subst@)));
        k = k + 1;
    }
    assert(tv.take(types@.len() as int) =~= tv);
}

/// `s1` and `w1` extend `s0` and `w0` by the same new elements.
pub open spec fn grew_together(s0: Seq<InstV>, s1: Seq<InstV>, w0: Seq<InstV>, w1: Seq<InstV>) -> bool {
    &&& s0.len() <= s1.len()
    &&& w0.len() <= w1.len()
    &&& s1.len() - s0.len() == w1.len() - w0.len()
    &&& s1.take(s0.len() as int) == s0
    &&& w1.take(w0.len() as int) == w0
    &&& s1.skip(s0.len() as int) == w1.skip(w0.len() as int)
}

/// Growing together holds of no growth.
proof fn lemma_grew_refl(s: Seq<InstV>, w: Seq<InstV>)
    ensures
        grew_together(s, s, w, w),
{
    assert(s.take(s.len() as int) =~= s);
    assert(w.take(w.len() as int) =~= w);
    assert(s.skip(s.len() as int) =~= w.skip(w.len() as int));
}

/// Growing together composes.
proof fn lemma_grew_trans(s0: Seq<InstV>, s1: Seq<InstV>, s2: Seq<InstV>, w0: Seq<InstV>, w1: Seq<InstV>, w2: Seq<InstV>)
    requires
        grew_together(s0, s1, w0, w1),
        grew_together(s1, s2, w1, w2),
    ensures
        grew_together(s0, s2, w0, w2),
{
    assert(s2.take(s0.len() as int) =~= s1.take(s0.len() as int));
    assert(w2.take(w0.len() as int) =~= w1.take(w0.len() as int));
    assert(s2.skip(s0.len() as int) =~= s1.skip(s0.len() as int) + s2.skip(s1.len() as int));
    assert(w2.skip(w0.len() as int) =~= w1.skip(w0.len() as int) + w2.skip(w1.len() as int));
}

/// Whether two instances have the same model.
fn same_instance(a: &Instance, b: &Instance) -> (r: bool)
    ensures
        r == (a@ == b@),
{
    a.func_name.eq(&b.func_name) && same_type_list(&a.type_args, &b.type_args)
}

/// Records a called instance: unless it was seen before, it is marked seen and queued.
fn note_call(inst: Instance, worklist: &mut Vec<Instance>, seen: &mut Vec<Instance>)
    requires
        insts_view(old(seen)@).no_duplicates(),
    ensures
        insts_view(final(seen)@).no_duplicates(),
        grew_together(insts_view(old(seen)@), insts_view(final(seen)@), insts_view(old(worklist)@), insts_view(final(worklist)@)),
        insts_view(final(seen)@).to_set() == insts_view(old(seen)@).to_set().insert(inst@),
        insts_view(final(seen)@) == add_new(insts_view(old(seen)@), seq![inst@]),
{
    let ghost x = inst@;
    assert(seq![x].drop_last() =~= Seq::<InstV>::empty());
    assert(seq![x].last() == x);
    assert(add_new(insts_view(seen@), Seq::<InstV>::empty()) == insts_view(seen@));
    let ghost s0 = insts_view(seen@);
    let ghost w0 = insts_view(worklist@);
    let mut k: usize = 0;
    while k < seen.len()
        invariant
            k <= seen@.len(),
            seen@ == old(seen)@,
            worklist@ == old(worklist)@,
            x == inst@,
            s0 == insts_view(seen@),
            w0 == insts_view(worklist@),
            s0.no_duplicates(),
            forall|i: int| 0 <= i < k ==> #[trigger] insts_view(seen@)[i] != x,
        decreases seen@.len() - k,
    {
        if same_instance(&seen[k], &inst) {
            proof {
                assert(insts_view(seen@)[k as int] == x);
                assert(s0.contains(x));
                assert(seq![x].drop_last() =~= Seq::<InstV>::empty());
                assert(seq![x].last() == x);
                assert(add_new(s0, Seq::<InstV>::empty()) == s0);
                assert(insts_view(seen@).to_set().insert(x) =~= insts_view(seen@).to_set());
                lemma_grew_refl(s0, w0);
            }
            return;
        }
        k = k + 1;
    }
    assert(!s0.contains(x));
    let copy = Instance { func_name: inst.func_name.clone(), type_args: copy_type_list(&inst.type_args) };
    assert(copy@ == x);
    seen.push(copy);
    worklist.push(inst);
    proof {
        assert(insts_view(seen@) =~= s0.push(x));
        assert(insts_view(worklist@) =~= w0.push(x));
        s0.lemma_push_to_set_commute(x);
        assert forall|i: int, j: int| 0 <= i < j < s0.push(x).len() implies s0.push(x)[i] != s0.push(x)[j] by {
            if j == s0.len() {
                assert(s0[i] != x);
            }
        }
        assert(s0.push(x).take(s0.len() as int) =~= s0);
        assert(w0.push(x).take(w0.len() as int) =~= w0);
        assert(s0.push(x).skip(s0.len() as int) =~= w0.push(x).skip(w0.len() as int));
    }
}


/// Appends a reference to the type of each (value, type) pair.
fn push_pair_refs<'a>(v: &mut Vec<&'a BirType>, ps: &'a Vec<(Value, BirType)>)
    ensures
        refs_view(final(v)@) == refs_view(old(v)@) + pair_types(ps@),
{
    let ghost start = refs_view(v@);
    let mut k: usize = 0;
    while k < ps.len()
        invariant
            k <= ps@.len(),
            refs_view(v@) == start + pair_types(ps@).take(k as int),
        decreases ps@.len() - k,
    {
        let ghost before = v@;
        v.push(&ps[k].1);
        proof {
            assert(refs_view(v@) =~= refs_view(before).push(ps@[k as int].1@));
            assert(pair_types(ps@).take(k + 1) =~= pair_types(ps@).take(k as int).push(ps@[k as int].1@));
        }
        k = k + 1;
    }
    assert(pair_types(ps@).take(ps@.len() as int) =~= pair_types(ps@));
}

/// Scans one instruction: records the struct instances of its types and queues the instance a generic call asks for.
fn scan_instruction(
    inst: &Instruction,
    subst: &Vec<(String, BirType)>,
    worklist: &mut Vec<Instance>,
    seen: &mut Vec<Instance>,
    struct_instances: &mut Vec<(String, Vec<BirType>)>,
)
    requires
        insts_view(old(seen)@).no_duplicates(),
        struct_insts_view(old(struct_instances)@).no_duplicates(),
    ensures
        insts_view(final(seen)@).no_duplicates(),
        struct_insts_view(final(struct_instances)@).no_duplicates(),
        grew_together(insts_view(old(seen)@), insts_view(final(seen)@), insts_view(old(worklist)@), insts_view(final(worklist)@)),
        insts_view(final(seen)@).to_set() == insts_view(old(seen)@).to_set() + inst_call(*inst, subst_view(subst@)).to_set(),
        insts_view(final(seen)@) == add_new(insts_view(old(seen)@), inst_call(*inst, subst_view(subst@))),
        struct_insts_view(final(struct_instances)@).to_set() == struct_insts_view(old(struct_instances)@).to_set()
            + structs_in(inst_types(*inst), subst_view(subst@)),
{
    let types = instruction_types(inst);
    collect_structs_of(&types, subst, struct_instances);
    let ghost s0 = insts_view(seen@);
    let ghost w0 = insts_view(worklist@);
    match inst {
        Instruction::Call { func_name, type_args, .. } => {
            if type_args.len() > 0 {
                let resolved = resolve_types(type_args, subst);
                proof {
                    lemma_views(resolved@);
                    lemma_views(type_args@);
                    lemma_resolve_all(views(type_args@), subst_view(subst@));
                    assert(views(resolved@) =~= resolve_all(views(type_args@), subst_view(subst@)));
                }
                let new_inst = Instance { func_name: func_name.clone(), type_args: resolved };
                note_call(new_inst, worklist, seen);
                proof {
                    let c = inst_call(*inst, subst_view(subst@));
                    let e = Seq::<InstV>::empty();
                    assert(c =~= e.push(new_inst@));
                    e.lemma_push_to_set_commute(new_inst@);
                    assert(e.to_set() =~= Set::<InstV>::empty());
                    assert(c.to_set() =~= Set::empty().insert(new_inst@));
                    assert(c =~= seq![new_inst@]);
                }
                assert(insts_view(seen@).to_set() =~= s0.to_set() + inst_call(*inst, subst_view(subst@)).to_set());
                return;
            }
        },
        _ => {},
    }
    proof {
        lemma_grew_refl(s0, w0);
        assert(inst_call(*inst, subst_view(subst@)).to_set() =~= Set::<InstV>::empty());
        assert(inst_call(*inst, subst_view(subst@)) =~= Seq::<InstV>::empty());
        assert(add_new(s0, Seq::<InstV>::empty()) == s0);
    }
    assert(insts_view(seen@).to_set() =~= s0.to_set() + inst_call(*inst, subst_view(subst@)).to_set());
}

/// Scans a terminator: records the struct instances of the types it carries.
fn scan_terminator(term: &Terminator, subst: &Vec<(String, BirType)>, struct_instances: &mut Vec<(String, Vec<BirType>)>)
    requires
        struct_insts_view(old(struct_instances)@).no_duplicates(),
    ensures
        struct_insts_view(final(struct_instances)@).no_duplicates(),
        struct_insts_view(final(struct_instances)@).to_set() == struct_insts_view(old(struct_instances)@).to_set()
            + structs_in(term_types(*term), subst_view(subst@)),
{
    let mut types: Vec<&BirType> = Vec::new();
    match term {
        Terminator::Br { args, .. } => push_pair_refs(&mut types, args),
        Terminator::BrBreak { args, value, .. } => {
            push_pair_refs(&mut types, args);
            match value {
                Some(v) => types.push(&v.1),
                None => {},
            }
        },
        Terminator::BrContinue { args, .. } => push_pair_refs(&mut types, args),
        _ => {},
    }
    assert(refs_view(types@) =~= term_types(*term));
    collect_structs_of(&types, subst, struct_instances);
}


/// Scans a block: its parameters' types, each instruction, then its terminator.
fn scan_block(
    block: &BasicBlock,
    subst: &Vec<(String, BirType)>,
    worklist: &mut Vec<Instance>,
    seen: &mut Vec<Instance>,
    struct_instances: &mut Vec<(String, Vec<BirType>)>,
)
    requires
        insts_view(old(seen)@).no_duplicates(),
        struct_insts_view(old(struct_instances)@).no_duplicates(),
    ensures
        insts_view(final(seen)@).no_duplicates(),
        struct_insts_view(final(struct_instances)@).no_duplicates(),
        grew_together(insts_view(old(seen)@), insts_view(final(seen)@), insts_view(old(worklist)@), insts_view(final(worklist)@)),
        insts_view(final(seen)@).to_set() == insts_view(old(seen)@).to_set() + insts_calls(block.instructions@, subst_view(subst@)).to_set(),
        insts_view(final(seen)@) == add_new(insts_view(old(seen)@), insts_calls(block.instructions@, subst_view(subst@))),
        struct_insts_view(final(struct_instances)@).to_set() == struct_insts_view(old(struct_instances)@).to_set()
            + block_structs(*block, subst_view(subst@)),
{
    let ghost sv = subst_view(subst@);
    let ghost s0 = insts_view(seen@);
    let ghost w0 = insts_view(worklist@);
    let ghost t0 = struct_insts_view(struct_instances@).to_set();
    let mut types: Vec<&BirType> = Vec::new();
    push_pair_refs(&mut types, &block.params);
    assert(refs_view(types@) =~= pair_types(block.params@));
    collect_structs_of(&types, subst, struct_instances);
    let ghost t1 = struct_insts_view(struct_instances@).to_set();
    let ghost insts = block.instructions@;
    proof { lemma_grew_refl(s0, w0); }
    assert(insts_calls(insts.take(0), sv) =~= Seq::<InstV>::empty()) by {
        assert(insts.take(0) =~= Seq::<Instruction>::empty());
    }
    assert(add_new(s0, Seq::<InstV>::empty()) == s0);
    let mut k: usize = 0;
    while k < block.instructions.len()
        invariant
            k <= insts.len(),
            insts == block.instructions@,
            sv == subst_view(subst@),
            insts_view(seen@).no_duplicates(),
            struct_insts_view(struct_instances@).no_duplicates(),
            grew_together(s0, insts_view(seen@), w0, insts_view(worklist@)),
            insts_view(seen@).to_set() == s0.to_set() + insts_calls(insts.take(k as int), sv).to_set(),
            insts_view(seen@) == add_new(s0, insts_calls(insts.take(k as int), sv)),
            struct_insts_view(struct_instances@).to_set() == t1 + insts_structs(insts.take(k as int), sv),
        decreases insts.len() - k,
    {
        let ghost s1 = insts_view(seen@);
        let ghost w1 = insts_view(worklist@);
        scan_instruction(&block.instructions[k], subst, worklist, seen, struct_instances);
        proof {
            lemma_grew_trans(s0, s1, insts_view(seen@), w0, w1, insts_view(worklist@));
            assert(insts.take(k + 1).drop_last() =~= insts.take(k as int));
            assert(insts.take(k + 1).last() == insts[k as int]);
            seq_to_set_distributes_over_add(insts_calls(insts.take(k as int), sv), inst_call(insts[k as int], sv));
            lemma_add_new_concat(s0, insts_calls(insts.take(k as int), sv), inst_call(insts[k as int], sv));
        }
        assert(insts_view(seen@).to_set() =~= s0.to_set() + insts_calls(insts.take(k + 1), sv).to_set());
        assert(struct_insts_view(struct_instances@).to_set() =~= t1 + insts_structs(insts.take(k + 1), sv));
        k = k + 1;
    }
    assert(insts.take(insts.len() as int) =~= insts);
    scan_terminator(&block.terminator, subst, struct_instances);
    assert(struct_insts_view(struct_instances@).to_set() =~= t0 + block_structs(*block, sv));
}

/// Scans a function under a substitution: parameter and return types, then every block.
fn scan_function(
    func: &BirFunction,
    subst: &Vec<(String, BirType)>,
    worklist: &mut Vec<Instance>,
    seen: &mut Vec<Instance>,
    struct_instances: &mut Vec<(String, Vec<BirType>)>,
)
    requires
        insts_view(old(seen)@).no_duplicates(),
        struct_insts_view(old(struct_instances)@).no_duplicates(),
    ensures
        insts_view(final(seen)@).no_duplicates(),
        struct_insts_view(final(struct_instances)@).no_duplicates(),
        grew_together(insts_view(old(seen)@), insts_view(final(seen)@), insts_view(old(worklist)@), insts_view(final(worklist)@)),
        insts_view(final(seen)@).to_set() == insts_view(old(seen)@).to_set() + function_calls(*func, subst_view(subst@)),
        insts_view(final(seen)@) == add_new(insts_view(old(seen)@), blocks_calls(func.blocks@, subst_view(subst@))),
        struct_insts_view(final(struct_instances)@).to_set() == struct_insts_view(old(struct_instances)@).to_set()
            + function_structs(*func, subst_view(subst@)),
{
    let ghost sv = subst_view(subst@);
    let ghost s0 = insts_view(seen@);
    let ghost w0 = insts_view(worklist@);
    let ghost t0 = struct_insts_view(struct_instances@).to_set();
    let mut types: Vec<&BirType> = Vec::new();
    push_pair_refs(&mut types, &func.params);
    types.push(&func.return_type);
    assert(refs_view(types@) =~= pair_types(func.params@).push(func.return_type@));
    collect_structs_of(&types, subst, struct_instances);
    let ghost t1 = struct_insts_view(struct_instances@).to_set();
    let ghost blocks = func.blocks@;
    proof { lemma_grew_refl(s0, w0); }
    assert(blocks_calls(blocks.take(0), sv) =~= Seq::<InstV>::empty()) by {
        assert(blocks.take(0) =~= Seq::<BasicBlock>::empty());
    }
    assert(add_new(s0, Seq::<InstV>::empty()) == s0);
    let mut k: usize = 0;
    while k < func.blocks.len()
        invariant
            k <= blocks.len(),
            blocks == func.blocks@,
            sv == subst_view(subst@),
            insts_view(seen@).no_duplicates(),
            struct_insts_view(struct_instances@).no_duplicates(),
            grew_together(s0, insts_view(seen@), w0, insts_view(worklist@)),
            insts_view(seen@).to_set() == s0.to_set() + blocks_calls(blocks.take(k as int), sv).to_set(),
            insts_view(seen@) == add_new(s0, blocks_calls(blocks.take(k as int), sv)),
            struct_insts_view(struct_instances@).to_set() == t1 + blocks_structs(blocks.take(k as int), sv),
        decreases blocks.len() - k,
    {
        let ghost s1 = insts_view(seen@);
        let ghost w1 = insts_view(worklist@);
        scan_block(&func.blocks[k], subst, worklist, seen, struct_instances);
        proof {
            lemma_grew_trans(s0, s1, insts_view(seen@), w0, w1, insts_view(worklist@));
            assert(blocks.take(k + 1).drop_last() =~= blocks.take(k as int));
            assert(blocks.take(k + 1).last() == blocks[k as int]);
            seq_to_set_distributes_over_add(blocks_calls(blocks.take(k as int), sv), insts_calls(blocks[k as int].instructions@, sv));
            lemma_add_new_concat(s0, blocks_calls(blocks.take(k as int), sv), insts_calls(blocks[k as int].instructions@, sv));
        }
        assert(insts_view(seen@).to_set() =~= s0.to_set() + blocks_calls(blocks.take(k + 1), sv).to_set());
        assert(struct_insts_view(struct_instances@).to_set() =~= t1 + blocks_structs(blocks.take(k + 1), sv));
        k = k + 1;
    }
    assert(blocks.take(blocks.len() as int) =~= blocks);
    assert(struct_insts_view(struct_instances@).to_set() =~= t0 + function_structs(*func, sv));
    assert(insts_view(seen@).to_set() =~= s0.to_set() + function_calls(*func, sv));
}


/// The position of the function called `name`; a later function of that name takes precedence.
pub open spec fn function_named(fns: Seq<BirFunction>, name: Seq<char>) -> Option<int>
    decreases fns.len(),
{
    if fns.len() == 0 {
        None
    } else if fns.last().name@ == name {
        Some(fns.len() - 1)
    } else {
        function_named(fns.drop_last(), name)
    }
}

/// The substitution under which an instance's function is scanned.
pub open spec fn subst_for(f: BirFunction, i: InstV) -> Seq<(Seq<char>, TypeV)> {
    instance_subst(strings_view(f.type_params@), i.1)
}

/// The instances that the function of instance `i` calls, under `i`'s type arguments.
pub open spec fn step(fns: Seq<BirFunction>, i: InstV) -> Set<InstV> {
    match function_named(fns, i.0) {
        Some(j) => function_calls(fns[j], subst_for(fns[j], i)),
        None => Set::empty(),
    }
}

/// The struct instances that the function of instance `i` mentions, under `i`'s type arguments.
pub open spec fn inst_structs(fns: Seq<BirFunction>, i: InstV) -> Set<StructInstV> {
    match function_named(fns, i.0) {
        Some(j) => function_structs(fns[j], subst_for(fns[j], i)),
        None => Set::empty(),
    }
}


/// The instances that the non-generic functions call, function by function, in the order met.
pub open spec fn seed_seq(fns: Seq<BirFunction>) -> Seq<InstV>
    decreases fns.len(),
{
    if fns.len() == 0 {
        Seq::empty()
    } else if fns.last().type_params@.len() == 0 {
        seed_seq(fns.drop_last()) + blocks_calls(fns.last().blocks@, Seq::empty())
    } else {
        seed_seq(fns.drop_last())
    }
}

/// The instances that the function of instance `p` calls under its type arguments, in the order met.
pub open spec fn next_calls(fns: Seq<BirFunction>, p: InstV) -> Seq<InstV> {
    match function_named(fns, p.0) {
        Some(j) => blocks_calls(fns[j].blocks@, subst_for(fns[j], p)),
        None => Seq::empty(),
    }
}

/// The state of the search: the instances seen, those queued, and those done.
pub open spec fn work_start(fns: Seq<BirFunction>) -> (Seq<InstV>, Seq<InstV>, Seq<InstV>) {
    let s = add_new(Seq::empty(), seed_seq(fns));
    (s, s, Seq::empty())
}

/// One step of the search: the last queued instance is taken off the queue and
/// done, and the instances its function calls that were not seen yet are seen
/// and queued, in the order met.
pub open spec fn work_step(fns: Seq<BirFunction>, st: (Seq<InstV>, Seq<InstV>, Seq<InstV>)) -> (Seq<InstV>, Seq<InstV>, Seq<InstV>) {
    if st.1.len() == 0 {
        st
    } else {
        let p = st.1.last();
        let s1 = add_new(st.0, next_calls(fns, p));
        (s1, st.1.drop_last() + s1.skip(st.0.len() as int), st.2.push(p))
    }
}

/// The state of the search after `n` steps.
pub open spec fn work_run(fns: Seq<BirFunction>, n: nat) -> (Seq<InstV>, Seq<InstV>, Seq<InstV>)
    decreases n,
{
    if n == 0 {
        work_start(fns)
    } else {
        work_step(fns, work_run(fns, (n - 1) as nat))
    }
}

/// `out` is the list of instances the search has done when its queue runs empty.
pub open spec fn work_order(fns: Seq<BirFunction>, out: Seq<InstV>) -> bool {
    exists|n: nat| (#[trigger] work_run(fns, n)).1.len() == 0 && work_run(fns, n).2 == out
}

/// The instances that the non-generic functions call.
pub open spec fn seed_calls(fns: Seq<BirFunction>) -> Set<InstV>
    decreases fns.len(),
{
    if fns.len() == 0 {
        Set::empty()
    } else if fns.last().type_params@.len() == 0 {
        seed_calls(fns.drop_last()) + function_calls(fns.last(), Seq::empty())
    } else {
        seed_calls(fns.drop_last())
    }
}

/// The struct instances that the non-generic functions mention.
pub open spec fn seed_structs(fns: Seq<BirFunction>) -> Set<StructInstV>
    decreases fns.len(),
{
    if fns.len() == 0 {
        Set::empty()
    } else if fns.last().type_params@.len() == 0 {
        seed_structs(fns.drop_last()) + function_structs(fns.last(), Seq::empty())
    } else {
        seed_structs(fns.drop_last())
    }
}

/// The instances reached from the non-generic functions within `n` steps.
pub open spec fn reach(fns: Seq<BirFunction>, n: nat) -> Set<InstV>
    decreases n,
{
    if n == 0 {
        seed_calls(fns)
    } else {
        let prev = reach(fns, (n - 1) as nat);
        prev + Set::new(|j: InstV| exists|i: InstV| prev.contains(i) && #[trigger] step(fns, i).contains(j))
    }
}

/// Every instance that the non-generic functions reach, directly or through other instances.
pub open spec fn reachable(fns: Seq<BirFunction>) -> Set<InstV> {
    Set::new(|j: InstV| exists|n: nat| #[trigger] reach(fns, n).contains(j))
}

/// Every generic struct instance that the module needs: those of the non-generic functions
/// and those of every reachable instance.
pub open spec fn reachable_structs(fns: Seq<BirFunction>) -> Set<StructInstV> {
    seed_structs(fns) + Set::new(
        |x: StructInstV| exists|i: InstV| reachable(fns).contains(i) && #[trigger] inst_structs(fns, i).contains(x),
    )
}

/// A set of instances that holds the seeds and everything they call.
pub open spec fn closed_under_calls(fns: Seq<BirFunction>, f: Set<InstV>) -> bool {
    &&& seed_calls(fns).subset_of(f)
    &&& forall|i: InstV| f.contains(i) ==> #[trigger] step(fns, i).subset_of(f)
}

/// Only finitely many instances are reachable (no generic function reaches ever larger instantiations).
pub open spec fn finitely_many_instances(fns: Seq<BirFunction>) -> bool {
    exists|f: Set<InstV>| f.finite() && closed_under_calls(fns, f)
}

/// Every reachable instance lies in any set that holds the seeds and is closed under calls.
pub proof fn lemma_reachable_within(fns: Seq<BirFunction>, f: Set<InstV>)
    requires
        closed_under_calls(fns, f),
    ensures
        reachable(fns).subset_of(f),
{
    assert forall|j: InstV| reachable(fns).contains(j) implies f.contains(j) by {
        let n = choose|n: nat| #[trigger] reach(fns, n).contains(j);
        lemma_reach_within(fns, f, n);
    }
}

/// Each stage of `reach` lies in any set that holds the seeds and is closed under calls.
proof fn lemma_reach_within(fns: Seq<BirFunction>, f: Set<InstV>, n: nat)
    requires
        closed_under_calls(fns, f),
    ensures
        reach(fns, n).subset_of(f),
    decreases n,
{
    if n > 0 {
        lemma_reach_within(fns, f, (n - 1) as nat);
        let prev = reach(fns, (n - 1) as nat);
        assert forall|j: InstV| reach(fns, n).contains(j) implies f.contains(j) by {
            if !prev.contains(j) {
                let i = choose|i: InstV| prev.contains(i) && #[trigger] step(fns, i).contains(j);
                assert(step(fns, i).subset_of(f));
            }
        }
    }
}

/// What a reachable instance calls is reachable too.
pub proof fn lemma_step_reachable(fns: Seq<BirFunction>, i: InstV)
    requires
        reachable(fns).contains(i),
    ensures
        step(fns, i).subset_of(reachable(fns)),
{
    let n = choose|n: nat| #[trigger] reach(fns, n).contains(i);
    assert forall|j: InstV| step(fns, i).contains(j) implies reachable(fns).contains(j) by {
        assert(reach(fns, n + 1).contains(j));
    }
}

/// The seeds are reachable.
pub proof fn lemma_seeds_reachable(fns: Seq<BirFunction>)
    ensures
        seed_calls(fns).subset_of(reachable(fns)),
{
    assert forall|j: InstV| seed_calls(fns).contains(j) implies reachable(fns).contains(j) by {
        assert(reach(fns, 0).contains(j));
    }
}


/// Once the queue is empty the search stays where it is.
pub proof fn lemma_work_run_settles(fns: Seq<BirFunction>, n1: nat, n2: nat)
    requires
        n1 <= n2,
        work_run(fns, n1).1.len() == 0,
    ensures
        work_run(fns, n2) == work_run(fns, n1),
    decreases n2,
{
    if n2 > n1 {
        lemma_work_run_settles(fns, n1, (n2 - 1) as nat);
    }
}

/// The order of the search is determined by the functions alone: two lists that both are
/// what the search has done when its queue runs empty are the same list.
pub proof fn lemma_work_order_unique(fns: Seq<BirFunction>, a: Seq<InstV>, b: Seq<InstV>)
    requires
        work_order(fns, a),
        work_order(fns, b),
    ensures
        a == b,
{
    let na = choose|n: nat| (#[trigger] work_run(fns, n)).1.len() == 0 && work_run(fns, n).2 == a;
    let nb = choose|n: nat| (#[trigger] work_run(fns, n)).1.len() == 0 && work_run(fns, n).2 == b;
    if na <= nb {
        lemma_work_run_settles(fns, na, nb);
    } else {
        lemma_work_run_settles(fns, nb, na);
    }
}

/// The position of the last function called `name`.
pub(crate) fn find_function(fns: &Vec<BirFunction>, name: &String) -> (r: Option<usize>)
    ensures
        match r {
            Some(j) => j < fns@.len() && function_named(fns@, name@) == Some(j as int),
            None => function_named(fns@, name@) is None,
        },
{
    let mut k: usize = fns.len();
    assert(fns@.take(k as int) =~= fns@);
    while k > 0
        invariant
            k <= fns@.len(),
            function_named(fns@, name@) == function_named(fns@.take(k as int), name@),
        decreases k,
    {
        assert(fns@.take(k as int).drop_last() =~= fns@.take(k - 1));
        if fns[k - 1].name.eq(name) {
            return Some(k - 1);
        }
        k = k - 1;
    }
    None
}

/// The generic instances and generic struct instances that a module needs.
pub struct MonoCollectResult {
    /// Each needed function instance once, in the order it was processed.
    pub func_instances: Vec<Instance>,
    /// Each needed generic struct instance once.
    pub struct_instances: Vec<(String, Vec<BirType>)>,
}

/// Collects, from the non-generic functions outward, every generic function instance and
/// generic struct instance the module needs.
///
/// The search ends only when finitely many instances are reachable.
pub fn mono_collect(bir: &BirModule, _entry: &str) -> (r: MonoCollectResult)
    requires
        finitely_many_instances(bir.functions@),
    ensures
        insts_view(r.func_instances@).no_duplicates(),
        insts_view(r.func_instances@).to_set() == reachable(bir.functions@),
        work_order(bir.functions@, insts_view(r.func_instances@)),
        struct_insts_view(r.struct_instances@).no_duplicates(),
        struct_insts_view(r.struct_instances@).to_set() == reachable_structs(bir.functions@),
{
    let ghost fns = bir.functions@;
    let mut func_instances: Vec<Instance> = Vec::new();
    let mut seen: Vec<Instance> = Vec::new();
    let mut struct_instances: Vec<(String, Vec<BirType>)> = Vec::new();
    let mut worklist: Vec<Instance> = Vec::new();
    let empty_subst: Vec<(String, BirType)> = Vec::new();
    assert(subst_view(empty_subst@) =~= Seq::<(Seq<char>, TypeV)>::empty());
    assert(insts_view(seen@) =~= Seq::<InstV>::empty());
    assert(insts_view(worklist@) =~= Seq::<InstV>::empty());
    assert(struct_insts_view(struct_instances@) =~= Seq::<StructInstV>::empty());
    assert(insts_view(seen@).to_set() =~= Set::<InstV>::empty());
    assert(struct_insts_view(struct_instances@).to_set() =~= Set::<StructInstV>::empty());
    proof { lemma_grew_refl(insts_view(seen@), insts_view(worklist@)); }

    // Seed: scan every non-generic function.
    let mut k: usize = 0;
    while k < bir.functions.len()
        invariant
            k <= fns.len(),
            fns == bir.functions@,
            subst_view(empty_subst@) == Seq::<(Seq<char>, TypeV)>::empty(),
            func_instances@.len() == 0,
            insts_view(seen@).no_duplicates(),
            struct_insts_view(struct_instances@).no_duplicates(),
            insts_view(seen@) == insts_view(worklist@),
            insts_view(seen@).to_set() == seed_calls(fns.take(k as int)),
            insts_view(seen@) == add_new(Seq::empty(), seed_seq(fns.take(k as int))),
            struct_insts_view(struct_instances@).to_set() == seed_structs(fns.take(k as int)),
        decreases fns.len() - k,
    {
        let func = &bir.functions[k];
        proof {
            assert(fns.take(k + 1).drop_last() =~= fns.take(k as int));
            assert(fns.take(k + 1).last() == fns[k as int]);
        }
        if func.type_params.len() == 0 {
            let ghost s0 = insts_view(seen@);
            let ghost w0 = insts_view(worklist@);
            scan_function(func, &empty_subst, &mut worklist, &mut seen, &mut struct_instances);
            proof {
                lemma_add_new_concat(Seq::empty(), seed_seq(fns.take(k as int)), blocks_calls(fns[k as int].blocks@, Seq::empty()));
                assert(seed_seq(fns.take(k + 1)) == seed_seq(fns.take(k as int)) + blocks_calls(fns[k as int].blocks@, Seq::empty()));
                let s1 = insts_view(seen@);
                let w1 = insts_view(worklist@);
                assert(s1 =~= s1.take(s0.len() as int) + s1.skip(s0.len() as int));
                assert(w1 =~= w1.take(w0.len() as int) + w1.skip(w0.len() as int));
            }
        }
        k = k + 1;
    }
    assert(fns.take(fns.len() as int) =~= fns);

    let ghost bound = choose|f: Set<InstV>| f.finite() && closed_under_calls(fns, f);
    let ghost mut n: nat = 0;
    assert(work_run(fns, 0) == (insts_view(seen@), insts_view(worklist@), insts_view(func_instances@)));
    proof {
        lemma_reachable_within(fns, bound);
        lemma_seeds_reachable(fns);
        assert(insts_view(func_instances@) =~= Seq::<InstV>::empty());
        insts_view(seen@).unique_seq_to_set();
        vstd::set_lib::lemma_len_subset(insts_view(seen@).to_set(), bound);
    }

    // Process the worklist.
    while worklist.len() > 0
        invariant
            fns == bir.functions@,
            bound.finite(),
            closed_under_calls(fns, bound),
            reachable(fns).subset_of(bound),
            insts_view(seen@).no_duplicates(),
            insts_view(worklist@).no_duplicates(),
            insts_view(func_instances@).no_duplicates(),
            struct_insts_view(struct_instances@).no_duplicates(),
            insts_view(func_instances@).to_set() + insts_view(worklist@).to_set() == insts_view(seen@).to_set(),
            insts_view(func_instances@).to_set().disjoint(insts_view(worklist@).to_set()),
            seed_calls(fns).subset_of(insts_view(seen@).to_set()),
            forall|i: InstV| #[trigger] insts_view(func_instances@).to_set().contains(i) ==> step(fns, i).subset_of(insts_view(seen@).to_set()),
            insts_view(seen@).to_set().subset_of(reachable(fns)),
            struct_insts_view(struct_instances@).to_set() == seed_structs(fns) + Set::new(
                |x: StructInstV| exists|i: InstV| insts_view(func_instances@).to_set().contains(i) && #[trigger] inst_structs(fns, i).contains(x),
            ),
            seen@.len() <= bound.len(),
            work_run(fns, n) == (insts_view(seen@), insts_view(worklist@), insts_view(func_instances@)),
        decreases 2 * (bound.len() - seen@.len()) + worklist@.len(),
    {
        let ghost s0 = insts_view(seen@);
        let ghost w0 = insts_view(worklist@);
        let ghost fi0 = insts_view(func_instances@);
        let ghost st0 = struct_insts_view(struct_instances@).to_set();
        let inst = worklist.pop().unwrap();
        let ghost p = inst@;
        let ghost w1 = insts_view(worklist@);
        proof {
            assert(w0 =~= w1.push(p));
            w1.lemma_push_to_set_commute(p);
        }
        match find_function(&bir.functions, &inst.func_name) {
            Some(j) => {
                let func = &bir.functions[j];
                let subst = inst.substitution_map(&func.type_params);
                scan_function(func, &subst, &mut worklist, &mut seen, &mut struct_instances);
            },
            None => {
                proof {
                    lemma_grew_refl(s0, w1);
                    assert(add_new(s0, Seq::<InstV>::empty()) == s0);
                }
            },
        }
        let ghost s2 = insts_view(seen@);
        let ghost w2 = insts_view(worklist@);
        let ghost added = s2.skip(s0.len() as int);
        proof {
            // What the scan added: new to `seen`, queued once each.
            assert(s2 =~= s0 + added);
            assert(w2 =~= w1 + added);
            seq_to_set_distributes_over_add(s0, added);
            seq_to_set_distributes_over_add(w1, added);
            assert(s2.to_set() == s0.to_set() + step(fns, p));
        }
        func_instances.push(inst);
        proof {
            let fi1 = insts_view(func_instances@);
            assert(fi1 =~= fi0.push(p));
            fi0.lemma_push_to_set_commute(p);
            // `p` was queued, so it was not processed before.
            assert(w0[w0.len() - 1] == p);
            assert(w0.contains(p));
            assert(!fi0.to_set().contains(p));
            assert(fi1.no_duplicates()) by {
                assert forall|a: int, b: int| 0 <= a < b < fi1.len() implies fi1[a] != fi1[b] by {
                    if b == fi0.len() {
                        assert(fi0.contains(fi0[a]));
                    }
                }
            }
            // The added instances are new to `seen`, hence distinct from the processed and queued ones.
            assert forall|x: InstV| added.contains(x) implies !s0.contains(x) by {
                let t = choose|t: int| 0 <= t < added.len() && added[t] == x;
                assert(s2[s0.len() + t] == x);
                if s0.contains(x) {
                    let u = choose|u: int| 0 <= u < s0.len() && s0[u] == x;
                    assert(s2[u] == x);
                }
            }
            assert(w2.no_duplicates()) by {
                assert forall|a: int, b: int| 0 <= a < b < w2.len() implies w2[a] != w2[b] by {
                    if b >= w1.len() {
                        if a < w1.len() {
                            assert(added[b - w1.len()] == w2[b]);
                            assert(added.contains(w2[b]));
                            assert(w0[a] == w1[a]);
                            assert(w0.contains(w1[a]));
                            assert(s0.to_set().contains(w1[a]));
                        } else {
                            assert(s2[s0.len() + (a - w1.len())] == w2[a]);
                            assert(s2[s0.len() + (b - w1.len())] == w2[b]);
                        }
                    } else {
                        assert(w0[a] == w1[a]);
                        assert(w0[b] == w1[b]);
                    }
                }
            }
            assert(fi1.to_set() + w2.to_set() =~= s2.to_set());
            assert(fi1.to_set().disjoint(w2.to_set())) by {
                assert forall|x: InstV| fi1.to_set().contains(x) && w2.to_set().contains(x) implies false by {
                    if x == p {
                        if w1.to_set().contains(x) {
                            let a = choose|a: int| 0 <= a < w1.len() && w1[a] == x;
                            assert(w0[a] == x);
                            assert(w0[w0.len() - 1] == x);
                        } else {
                            assert(added.contains(x));
                            assert(s0.to_set().contains(p));
                        }
                    } else {
                        assert(fi0.to_set().contains(x));
                        if w1.to_set().contains(x) {
                            assert(w0.to_set().contains(x));
                        } else {
                            assert(added.contains(x));
                            assert(s0.to_set().contains(x));
                        }
                    }
                }
            }
            // Everything processed has its calls in `seen`.
            assert forall|i: InstV| #[trigger] fi1.to_set().contains(i) implies step(fns, i).subset_of(s2.to_set()) by {
                if i != p {
                    assert(fi0.to_set().contains(i));
                }
            }
            // Soundness: what was added is reachable.
            assert(s0.to_set().contains(p));
            lemma_step_reachable(fns, p);
            assert(s2.to_set().subset_of(reachable(fns)));
            // The struct instances gained those of `p`.
            assert(struct_insts_view(struct_instances@).to_set() =~= seed_structs(fns) + Set::new(
                |x: StructInstV| exists|i: InstV| fi1.to_set().contains(i) && #[trigger] inst_structs(fns, i).contains(x),
            )) by {
                assert forall|x: StructInstV| #[trigger] struct_insts_view(struct_instances@).to_set().contains(x)
                    implies seed_structs(fns).contains(x) || exists|i: InstV| fi1.to_set().contains(i) && #[trigger] inst_structs(fns, i).contains(x) by {
                    if !st0.contains(x) {
                        assert(inst_structs(fns, p).contains(x));
                    } else if !seed_structs(fns).contains(x) {
                        let i = choose|i: InstV| fi0.to_set().contains(i) && #[trigger] inst_structs(fns, i).contains(x);
                        assert(fi1.to_set().contains(i));
                    }
                }
                assert forall|x: StructInstV| (exists|i: InstV| fi1.to_set().contains(i) && #[trigger] inst_structs(fns, i).contains(x))
                    implies #[trigger] struct_insts_view(struct_instances@).to_set().contains(x) by {
                    let i = choose|i: InstV| fi1.to_set().contains(i) && #[trigger] inst_structs(fns, i).contains(x);
                    if i != p {
                        assert(fi0.to_set().contains(i));
                        assert(st0.contains(x));
                    }
                }
            }
            // The measure: `seen` stays within the bound.
            s2.unique_seq_to_set();
            vstd::set_lib::lemma_len_subset(s2.to_set(), bound);
            // The step taken is the next step of the search.
            assert(w0.last() == p);
            assert(w0.drop_last() =~= w1);
            assert(s2 == add_new(s0, next_calls(fns, p)));
            assert(work_run(fns, n + 1) == work_step(fns, work_run(fns, n)));
            n = n + 1;
        }
    }

    proof {
        let fi = insts_view(func_instances@);
        let sn = insts_view(seen@);
        assert(insts_view(worklist@) =~= Seq::<InstV>::empty());
        assert(insts_view(worklist@).to_set() =~= Set::<InstV>::empty());
        assert(fi.to_set() =~= sn.to_set());
        // Completeness: the processed instances hold the seeds and are closed under calls.
        assert(closed_under_calls(fns, fi.to_set()));
        lemma_reachable_within(fns, fi.to_set());
        assert(fi.to_set() =~= reachable(fns));
        assert(struct_insts_view(struct_instances@).to_set() =~= reachable_structs(fns));
        assert(work_run(fns, n).1.len() == 0);
    }
    MonoCollectResult { func_instances, struct_instances }
}

} // verus!
