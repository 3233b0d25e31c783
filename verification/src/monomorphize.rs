//! Monomorphization of written types: the names of specializations and the
//! substitution of type arguments for type parameters.
use vstd::prelude::*;

use crate::ast::{
    annotation_views, copy_annotations, lemma_annotation_views, Block, Expr, ExprKind, Function, Param, Program, Stmt,
    StructDef, StructMember, TypeAnnotation, TypeAnnotationV, TypeParam,
};
use crate::semantic::{InferredSite, InferredTypeArgs};
use crate::text::{decimal, push_decimal, push_str};

verus! {

/// The text of a written type in a specialization's name: `Int32`, a struct's
/// name, a generic's name followed by `_` and each argument's text, or
/// `Array_<element>_<size>`.
pub open spec fn annotation_text(t: TypeAnnotationV) -> Seq<char>
    decreases t, 0int,
{
    match t {
        TypeAnnotationV::I32 => "Int32"@,
        TypeAnnotationV::I64 => "Int64"@,
        TypeAnnotationV::F32 => "Float32"@,
        TypeAnnotationV::F64 => "Float64"@,
        TypeAnnotationV::Bool => "Bool"@,
        TypeAnnotationV::Unit => "Unit"@,
        TypeAnnotationV::Named(n) => n,
        TypeAnnotationV::Generic { name, args } => name + args_suffix(args),
        TypeAnnotationV::Array { element, size } => "Array_"@ + annotation_text(*element) + "_"@ + decimal(size as nat),
    }
}

/// Each written type of the list, preceded by `_`.
pub open spec fn args_suffix(ts: Seq<TypeAnnotationV>) -> Seq<char>
    decreases ts, 1int,
{
    if ts.len() == 0 {
        Seq::empty()
    } else {
        args_suffix(ts.drop_last()) + "_"@ + annotation_text(ts.last())
    }
}

/// Appends the text of a written type.
fn push_annotation_text(out: &mut String, t: &TypeAnnotation)
    ensures
        final(out)@ == old(out)@ + annotation_text(t@),
    decreases t, 0int,
{
    proof {
        reveal_strlit("Int32");
        reveal_strlit("Int64");
        reveal_strlit("Float32");
        reveal_strlit("Float64");
        reveal_strlit("Bool");
        reveal_strlit("Unit");
        reveal_strlit("Array_");
        reveal_strlit("_");
    }
    let ghost start = out@;
    match t {
        TypeAnnotation::I32 => push_str(out, "Int32"),
        TypeAnnotation::I64 => push_str(out, "Int64"),
        TypeAnnotation::F32 => push_str(out, "Float32"),
        TypeAnnotation::F64 => push_str(out, "Float64"),
        TypeAnnotation::Bool => push_str(out, "Bool"),
        TypeAnnotation::Unit => push_str(out, "Unit"),
        TypeAnnotation::Named(n) => push_str(out, n.as_str()),
        TypeAnnotation::Generic { name, args } => {
            push_str(out, name.as_str());
            push_args_suffix(out, args);
            assert(out@ =~= start + annotation_text(t@));
        },
        TypeAnnotation::Array { element, size } => {
            push_str(out, "Array_");
            push_annotation_text(out, element);
            push_str(out, "_");
            push_decimal(out, *size);
            assert(out@ =~= start + annotation_text(t@));
        },
    }
}

/// Appends `_` and the text of each written type of the list.
fn push_args_suffix(out: &mut String, ts: &Vec<TypeAnnotation>)
    ensures
        final(out)@ == old(out)@ + args_suffix(annotation_views(ts@)),
    decreases ts, 1int,
{
    let ghost start = out@;
    let mut k: usize = 0;
    assert(annotation_views(ts@.take(0)) =~= Seq::<TypeAnnotationV>::empty());
    assert(start + args_suffix(Seq::<TypeAnnotationV>::empty()) =~= start);
    while k < ts.len()
        invariant
            k <= ts@.len(),
            out@ == start + args_suffix(annotation_views(ts@.take(k as int))),
        decreases ts@.len() - k,
    {
        assert(decreases_to!(ts => ts@[k as int]));
        assert(ts@.take(k + 1).drop_last() =~= ts@.take(k as int));
        assert(ts@.take(k + 1).last() == ts@[k as int]);
        let ghost before = out@;
        proof { reveal_strlit("_"); }
        push_str(out, "_");
        push_annotation_text(out, &ts[k]);
        assert(out@ =~= before + "_"@ + annotation_text(ts@[k as int]@));
        let ghost av = annotation_views(ts@.take(k + 1));
        assert(av.drop_last() == annotation_views(ts@.take(k as int)));
        assert(av.last() == ts@[k as int]@);
        assert(args_suffix(av) == args_suffix(av.drop_last()) + "_"@ + annotation_text(av.last()));
        assert(out@ =~= start + args_suffix(av));
        k = k + 1;
    }
    assert(ts@.take(ts@.len() as int) =~= ts@);
}

/// The text of a written type in a specialization's name.
pub fn type_annotation_to_string(t: &TypeAnnotation) -> (r: String)
    ensures
        r@ == annotation_text(t@),
{
    let mut r = String::new();
    push_annotation_text(&mut r, t);
    r
}

/// The name of the specialization of `name` for the given type arguments:
/// `name` followed by `_` and each argument's text, as in `identity_Int32`.
pub fn mangle_name(name: &str, type_args: &Vec<TypeAnnotation>) -> (r: String)
    ensures
        r@ == name@ + args_suffix(annotation_views(type_args@)),
{
    let mut r = String::new();
    push_str(&mut r, name);
    push_args_suffix(&mut r, type_args);
    r
}

/// The models of a substitution's pairs.
pub open spec fn subst_pairs(s: Seq<(String, TypeAnnotation)>) -> Seq<(Seq<char>, TypeAnnotationV)> {
    Seq::new(s.len(), |i: int| (s[i].0@, s[i].1@))
}

/// The type a substitution gives for `n`; a later pair takes precedence.
pub open spec fn subst_lookup(s: Seq<(Seq<char>, TypeAnnotationV)>, n: Seq<char>) -> Option<TypeAnnotationV>
    decreases s.len(),
{
    if s.len() == 0 {
        None
    } else if s.last().0 == n {
        Some(s.last().1)
    } else {
        subst_lookup(s.drop_last(), n)
    }
}

/// A written type with each named type that the substitution covers replaced,
/// inside generic arguments and array elements too.
pub open spec fn subst_annotation(t: TypeAnnotationV, s: Seq<(Seq<char>, TypeAnnotationV)>) -> TypeAnnotationV
    decreases t, 0int,
{
    match t {
        TypeAnnotationV::Named(n) => match subst_lookup(s, n) {
            Some(c) => c,
            None => t,
        },
        TypeAnnotationV::Generic { name, args } => TypeAnnotationV::Generic { name, args: subst_annotations(args, s) },
        TypeAnnotationV::Array { element, size } => TypeAnnotationV::Array {
            element: Box::new(subst_annotation(*element, s)),
            size,
        },
        _ => t,
    }
}

/// `subst_annotation` of each written type of a list.
pub open spec fn subst_annotations(ts: Seq<TypeAnnotationV>, s: Seq<(Seq<char>, TypeAnnotationV)>) -> Seq<TypeAnnotationV>
    decreases ts, 1int,
{
    if ts.len() == 0 {
        Seq::empty()
    } else {
        subst_annotations(ts.drop_last(), s).push(subst_annotation(ts.last(), s))
    }
}

/// The substitution of a specialization: each type parameter paired with the
/// type argument at its position, as far as both lists go.
pub fn build_substitution(type_params: &Vec<TypeParam>, type_args: &Vec<TypeAnnotation>) -> (r: Vec<(String, TypeAnnotation)>)
    ensures
        r@.len() == if type_params@.len() < type_args@.len() { type_params@.len() } else { type_args@.len() },
        forall|i: int| 0 <= i < r@.len() ==> (#[trigger] r@[i]).0@ == type_params@[i].name@ && r@[i].1@ == type_args@[i]@,
{
    let mut r: Vec<(String, TypeAnnotation)> = Vec::new();
    let mut k: usize = 0;
    while k < type_params.len() && k < type_args.len()
        invariant
            k <= type_params@.len(),
            k <= type_args@.len(),
            r@.len() == k,
            forall|i: int| 0 <= i < k ==> (#[trigger] r@[i]).0@ == type_params@[i].name@ && r@[i].1@ == type_args@[i]@,
        decreases type_params@.len() - k,
    {
        r.push((type_params[k].name.clone(), type_args[k].copy()));
        k = k + 1;
    }
    r
}

/// The type that the substitution gives for `n`.
fn lookup_subst<'a>(s: &'a Vec<(String, TypeAnnotation)>, n: &String) -> (r: Option<&'a TypeAnnotation>)
    ensures
        match r {
            Some(t) => subst_lookup(subst_pairs(s@), n@) == Some(t@),
            None => subst_lookup(subst_pairs(s@), n@) is None,
        },
{
    let mut k: usize = s.len();
    assert(subst_pairs(s@.take(k as int)) =~= subst_pairs(s@));
    while k > 0
        invariant
            k <= s@.len(),
            subst_lookup(subst_pairs(s@), n@) == subst_lookup(subst_pairs(s@.take(k as int)), n@),
        decreases k,
    {
        assert(subst_pairs(s@.take(k as int)).drop_last() =~= subst_pairs(s@.take(k - 1)));
        if s[k - 1].0.eq(n) {
            return Some(&s[k - 1].1);
        }
        k = k - 1;
    }
    None
}

/// A written type with the substitution applied.
pub fn substitute_type(t: &TypeAnnotation, s: &Vec<(String, TypeAnnotation)>) -> (r: TypeAnnotation)
    ensures
        r@ == subst_annotation(t@, subst_pairs(s@)),
    decreases t, 0int,
{
    match t {
        TypeAnnotation::Named(n) => match lookup_subst(s, n) {
            Some(c) => c.copy(),
            None => TypeAnnotation::Named(n.clone()),
        },
        TypeAnnotation::Generic { name, args } => TypeAnnotation::Generic {
            name: name.clone(),
            args: substitute_types(args, s),
        },
        TypeAnnotation::Array { element, size } => TypeAnnotation::Array {
            element: Box::new(substitute_type(element, s)),
            size: *size,
        },
        TypeAnnotation::I32 => TypeAnnotation::I32,
        TypeAnnotation::I64 => TypeAnnotation::I64,
        TypeAnnotation::F32 => TypeAnnotation::F32,
        TypeAnnotation::F64 => TypeAnnotation::F64,
        TypeAnnotation::Bool => TypeAnnotation::Bool,
        TypeAnnotation::Unit => TypeAnnotation::Unit,
    }
}

/// Each written type of the list with the substitution applied.
fn substitute_types(ts: &Vec<TypeAnnotation>, s: &Vec<(String, TypeAnnotation)>) -> (r: Vec<TypeAnnotation>)
    ensures
        annotation_views(r@) == subst_annotations(annotation_views(ts@), subst_pairs(s@)),
    decreases ts, 1int,
{
    let mut r: Vec<TypeAnnotation> = Vec::new();
    let mut k: usize = 0;
    assert(ts@.take(0) =~= Seq::<TypeAnnotation>::empty());
    assert(annotation_views(ts@.take(0)) =~= Seq::<TypeAnnotationV>::empty());
    while k < ts.len()
        invariant
            k <= ts@.len(),
            annotation_views(r@) == subst_annotations(annotation_views(ts@.take(k as int)), subst_pairs(s@)),
        decreases ts@.len() - k,
    {
        assert(decreases_to!(ts => ts@[k as int]));
        assert(ts@.take(k + 1).drop_last() =~= ts@.take(k as int));
        assert(annotation_views(ts@.take(k + 1)).drop_last() == annotation_views(ts@.take(k as int)));
        let ghost before = r@;
        r.push(substitute_type(&ts[k], s));
        assert(r@.drop_last() =~= before);
        k = k + 1;
    }
    assert(ts@.take(ts@.len() as int) =~= ts@);
    r
}

/// The model of an instantiation: a generic's name and its type arguments.
pub open spec fn inst_view(x: (String, Vec<TypeAnnotation>)) -> (Seq<char>, Seq<TypeAnnotationV>) {
    (x.0@, annotation_views(x.1@))
}

/// The models of a list of instantiations.
pub open spec fn insts_view(l: Seq<(String, Vec<TypeAnnotation>)>) -> Seq<(Seq<char>, Seq<TypeAnnotationV>)> {
    Seq::new(l.len(), |i: int| inst_view(l[i]))
}

/// The name of a specialization.
pub open spec fn renamed(name: Seq<char>, args: Seq<TypeAnnotationV>) -> Seq<char> {
    name + args_suffix(args)
}

/// An optional written type with the substitution applied.
pub open spec fn opt_subst(o: Option<TypeAnnotation>, i: Option<TypeAnnotation>, s: Seq<(Seq<char>, TypeAnnotationV)>) -> bool {
    match (o, i) {
        (None, None) => true,
        (Some(a), Some(b)) => a@ == subst_annotation(b@, s),
        _ => false,
    }
}

/// `o` is expression `e` of a generic body specialized by substitution `s`:
/// type arguments and cast targets substituted; a call or struct literal whose
/// substituted type arguments are one of the struct instantiations `si` names
/// that struct's specialization, without type arguments; everything else kept.
pub open spec fn sub_expr(
    o: Expr,
    e: Expr,
    s: Seq<(Seq<char>, TypeAnnotationV)>,
    si: Seq<(Seq<char>, Seq<TypeAnnotationV>)>,
) -> bool
    decreases e,
{
    &&& o.id == e.id
    &&& o.span == e.span
    &&& match e.kind {
        ExprKind::Call { name, type_args, args } => {
            let nt = subst_annotations(annotation_views(type_args@), s);
            &&& o.kind matches ExprKind::Call { name: on, type_args: ot, args: oa }
            &&& oa@.len() == args@.len()
            &&& forall|i: int| 0 <= i < args@.len() ==> sub_expr(#[trigger] oa@[i], args@[i], s, si)
            &&& if nt.len() > 0 && si.contains((name@, nt)) {
                on@ == renamed(name@, nt) && ot@.len() == 0
            } else {
                on@ == name@ && annotation_views(ot@) == nt
            }
        },
        ExprKind::StructInit { name, type_args, args } => {
            let nt = subst_annotations(annotation_views(type_args@), s);
            &&& o.kind matches ExprKind::StructInit { name: on, type_args: ot, args: oa }
            &&& oa@.len() == args@.len()
            &&& forall|i: int| 0 <= i < args@.len() ==> (#[trigger] oa@[i]).0@ == args@[i].0@ && sub_expr(oa@[i].1, args@[i].1, s, si)
            &&& if nt.len() > 0 && si.contains((name@, nt)) {
                on@ == renamed(name@, nt) && ot@.len() == 0
            } else {
                on@ == name@ && annotation_views(ot@) == nt
            }
        },
        ExprKind::BinaryOp { op, left, right } => o.kind matches ExprKind::BinaryOp { op: oo, left: ol, right: or }
            && oo == op && sub_expr(*ol, *left, s, si) && sub_expr(*or, *right, s, si),
        ExprKind::UnaryOp { op, operand } => o.kind matches ExprKind::UnaryOp { op: oo, operand: x } && oo == op
            && sub_expr(*x, *operand, s, si),
        ExprKind::Block(b) => o.kind matches ExprKind::Block(ob) && sub_block(ob, b, s, si),
        ExprKind::If { condition, then_block, else_block } => o.kind matches ExprKind::If {
            condition: oc,
            then_block: ot,
            else_block: oe,
        } && sub_expr(*oc, *condition, s, si) && sub_block(ot, then_block, s, si) && match (oe, else_block) {
            (None, None) => true,
            (Some(x), Some(y)) => sub_block(x, y, s, si),
            _ => false,
        },
        ExprKind::While { condition, body, nobreak } => o.kind matches ExprKind::While {
            condition: oc,
            body: ob,
            nobreak: on,
        } && sub_expr(*oc, *condition, s, si) && sub_block(ob, body, s, si) && match (on, nobreak) {
            (None, None) => true,
            (Some(x), Some(y)) => sub_block(x, y, s, si),
            _ => false,
        },
        ExprKind::Cast { expr, target_type } => o.kind matches ExprKind::Cast { expr: ox, target_type: ot }
            && sub_expr(*ox, *expr, s, si) && ot@ == subst_annotation(target_type@, s),
        ExprKind::FieldAccess { object, field } => o.kind matches ExprKind::FieldAccess { object: ox, field: of }
            && of@ == field@ && sub_expr(*ox, *object, s, si),
        ExprKind::MethodCall { object, method, args } => {
            &&& o.kind matches ExprKind::MethodCall { object: ox, method: om, args: oa }
            &&& om@ == method@
            &&& sub_expr(*ox, *object, s, si)
            &&& oa@.len() == args@.len()
            &&& forall|i: int| 0 <= i < args@.len() ==> sub_expr(#[trigger] oa@[i], args@[i], s, si)
        },
        ExprKind::ArrayLiteral { elements } => {
            &&& o.kind matches ExprKind::ArrayLiteral { elements: oe }
            &&& oe@.len() == elements@.len()
            &&& forall|i: int| 0 <= i < elements@.len() ==> sub_expr(#[trigger] oe@[i], elements@[i], s, si)
        },
        ExprKind::IndexAccess { object, index } => o.kind matches ExprKind::IndexAccess { object: ox, index: oi }
            && sub_expr(*ox, *object, s, si) && sub_expr(*oi, *index, s, si),
        ExprKind::Number(n) => o.kind == ExprKind::Number(n),
        ExprKind::Float(f) => o.kind == ExprKind::Float(f),
        ExprKind::Bool(b) => o.kind == ExprKind::Bool(b),
        ExprKind::Ident(n) => o.kind matches ExprKind::Ident(m) && m@ == n@,
        ExprKind::SelfRef => o.kind is SelfRef,
    }
}

/// `o` is block `b` specialized statement by statement.
pub open spec fn sub_block(
    o: Block,
    b: Block,
    s: Seq<(Seq<char>, TypeAnnotationV)>,
    si: Seq<(Seq<char>, Seq<TypeAnnotationV>)>,
) -> bool
    decreases b,
{
    &&& o.stmts@.len() == b.stmts@.len()
    &&& forall|i: int| 0 <= i < b.stmts@.len() ==> sub_stmt(#[trigger] o.stmts@[i], b.stmts@[i], s, si)
}

/// `o` is statement `st` specialized: its written type and expressions.
pub open spec fn sub_stmt(
    o: Stmt,
    st: Stmt,
    s: Seq<(Seq<char>, TypeAnnotationV)>,
    si: Seq<(Seq<char>, Seq<TypeAnnotationV>)>,
) -> bool
    decreases st,
{
    match st {
        Stmt::Let { name, ty, value } => o matches Stmt::Let { name: on, ty: ot, value: ov } && on@ == name@ && opt_subst(
            ot,
            ty,
            s,
        ) && sub_expr(ov, value, s, si),
        Stmt::Var { name, ty, value } => o matches Stmt::Var { name: on, ty: ot, value: ov } && on@ == name@ && opt_subst(
            ot,
            ty,
            s,
        ) && sub_expr(ov, value, s, si),
        Stmt::Assign { name, value } => o matches Stmt::Assign { name: on, value: ov } && on@ == name@ && sub_expr(ov, value, s, si),
        Stmt::Return(v) => o matches Stmt::Return(ov) && match (ov, v) {
            (None, None) => true,
            (Some(x), Some(y)) => sub_expr(x, y, s, si),
            _ => false,
        },
        Stmt::Yield(v) => o matches Stmt::Yield(ov) && sub_expr(ov, v, s, si),
        Stmt::Break(v) => o matches Stmt::Break(ov) && match (ov, v) {
            (None, None) => true,
            (Some(x), Some(y)) => sub_expr(x, y, s, si),
            _ => false,
        },
        Stmt::Continue => o is Continue,
        Stmt::Expr(v) => o matches Stmt::Expr(ov) && sub_expr(ov, v, s, si),
        Stmt::FieldAssign { object, field, value } => o matches Stmt::FieldAssign { object: ox, field: of, value: ov }
            && of@ == field@ && sub_expr(*ox, *object, s, si) && sub_expr(ov, value, s, si),
        Stmt::IndexAssign { object, index, value } => o matches Stmt::IndexAssign { object: ox, index: oi, value: ov }
            && sub_expr(*ox, *object, s, si) && sub_expr(*oi, *index, s, si) && sub_expr(ov, value, s, si),
    }
}

/// Whether two written types are the same.
pub fn same_annotation(a: &TypeAnnotation, b: &TypeAnnotation) -> (r: bool)
    ensures
        r == (a@ == b@),
    decreases a,
{
    match (a, b) {
        (TypeAnnotation::I32, TypeAnnotation::I32) => true,
        (TypeAnnotation::I64, TypeAnnotation::I64) => true,
        (TypeAnnotation::F32, TypeAnnotation::F32) => true,
        (TypeAnnotation::F64, TypeAnnotation::F64) => true,
        (TypeAnnotation::Bool, TypeAnnotation::Bool) => true,
        (TypeAnnotation::Unit, TypeAnnotation::Unit) => true,
        (TypeAnnotation::Named(x), TypeAnnotation::Named(y)) => x.eq(y),
        (TypeAnnotation::Generic { name: n1, args: a1 }, TypeAnnotation::Generic { name: n2, args: a2 }) => {
            n1.eq(n2) && same_annotations(a1, a2)
        },
        (TypeAnnotation::Array { element: e1, size: s1 }, TypeAnnotation::Array { element: e2, size: s2 }) => {
            *s1 == *s2 && same_annotation(e1, e2)
        },
        _ => false,
    }
}

/// Whether two lists of written types are the same.
pub fn same_annotations(a: &Vec<TypeAnnotation>, b: &Vec<TypeAnnotation>) -> (r: bool)
    ensures
        r == (annotation_views(a@) == annotation_views(b@)),
    decreases a,
{
    proof {
        lemma_annotation_views(a@);
        lemma_annotation_views(b@);
    }
    if a.len() != b.len() {
        return false;
    }
    let mut k: usize = 0;
    while k < a.len()
        invariant
            k <= a@.len(),
            a@.len() == b@.len(),
            annotation_views(a@).len() == a@.len(),
            annotation_views(b@).len() == b@.len(),
            forall|i: int| 0 <= i < a@.len() ==> #[trigger] annotation_views(a@)[i] == a@[i]@,
            forall|i: int| 0 <= i < b@.len() ==> #[trigger] annotation_views(b@)[i] == b@[i]@,
            forall|i: int| 0 <= i < k ==> a@[i]@ == b@[i]@,
        decreases a@.len() - k,
    {
        assert(decreases_to!(a => a@[k as int]));
        if !same_annotation(&a[k], &b[k]) {
            assert(annotation_views(a@)[k as int] != annotation_views(b@)[k as int]);
            return false;
        }
        k = k + 1;
    }
    assert(annotation_views(a@) =~= annotation_views(b@));
    true
}

/// Whether the list of instantiations holds `name` with these type arguments.
pub fn has_inst(l: &Vec<(String, Vec<TypeAnnotation>)>, name: &String, args: &Vec<TypeAnnotation>) -> (r: bool)
    ensures
        r == insts_view(l@).contains((name@, annotation_views(args@))),
{
    let mut k: usize = 0;
    while k < l.len()
        invariant
            k <= l@.len(),
            forall|i: int| 0 <= i < k ==> insts_view(l@)[i] != (name@, annotation_views(args@)),
        decreases l@.len() - k,
    {
        if l[k].0.eq(name) && same_annotations(&l[k].1, args) {
            assert(insts_view(l@)[k as int] == (name@, annotation_views(args@)));
            return true;
        }
        k = k + 1;
    }
    false
}

/// The name and type arguments of a call or struct literal in a specialized
/// body: the specialization's name without type arguments when the substituted
/// type arguments name one of the struct instantiations, otherwise the name with
/// the substituted type arguments.
fn sub_callee(
    name: &String,
    type_args: &Vec<TypeAnnotation>,
    s: &Vec<(String, TypeAnnotation)>,
    si: &Vec<(String, Vec<TypeAnnotation>)>,
) -> (r: (String, Vec<TypeAnnotation>))
    ensures
        ({
            let nt = subst_annotations(annotation_views(type_args@), subst_pairs(s@));
            if nt.len() > 0 && insts_view(si@).contains((name@, nt)) {
                r.0@ == renamed(name@, nt) && r.1@.len() == 0
            } else {
                r.0@ == name@ && annotation_views(r.1@) == nt
            }
        }),
{
    let nt = substitute_types(type_args, s);
    proof { lemma_annotation_views(nt@); }
    if nt.len() > 0 && has_inst(si, name, &nt) {
        (mangle_name(name.as_str(), &nt), Vec::new())
    } else {
        (name.clone(), nt)
    }
}

/// Expressions of a generic body, specialized one by one.
fn substitute_exprs(es: &Vec<Expr>, s: &Vec<(String, TypeAnnotation)>, si: &Vec<(String, Vec<TypeAnnotation>)>) -> (r: Vec<Expr>)
    ensures
        r@.len() == es@.len(),
        forall|i: int| 0 <= i < es@.len() ==> sub_expr(#[trigger] r@[i], es@[i], subst_pairs(s@), insts_view(si@)),
    decreases es,
{
    let mut r: Vec<Expr> = Vec::new();
    let mut k: usize = 0;
    while k < es.len()
        invariant
            k <= es@.len(),
            r@.len() == k,
            forall|i: int| 0 <= i < k ==> sub_expr(#[trigger] r@[i], es@[i], subst_pairs(s@), insts_view(si@)),
        decreases es@.len() - k,
    {
        assert(decreases_to!(es => es@[k as int]));
        r.push(substitute_expr(&es[k], s, si));
        k = k + 1;
    }
    r
}

/// Named expressions of a generic body, specialized one by one.
fn substitute_named_exprs(
    args: &Vec<(String, Expr)>,
    s: &Vec<(String, TypeAnnotation)>,
    si: &Vec<(String, Vec<TypeAnnotation>)>,
) -> (r: Vec<(String, Expr)>)
    ensures
        r@.len() == args@.len(),
        forall|i: int| 0 <= i < args@.len() ==> (#[trigger] r@[i]).0@ == args@[i].0@ && sub_expr(
            r@[i].1,
            args@[i].1,
            subst_pairs(s@),
            insts_view(si@),
        ),
    decreases args,
{
    let mut new_args: Vec<(String, Expr)> = Vec::new();
    let mut k: usize = 0;
    while k < args.len()
        invariant
            k <= args@.len(),
            new_args@.len() == k,
            forall|i: int| 0 <= i < k ==> (#[trigger] new_args@[i]).0@ == args@[i].0@ && sub_expr(
                new_args@[i].1,
                args@[i].1,
                subst_pairs(s@),
                insts_view(si@),
            ),
        decreases args@.len() - k,
    {
        assert(decreases_to!(args => args@[k as int]));
        new_args.push((args[k].0.clone(), substitute_expr(&args[k].1, s, si)));
        k = k + 1;
    }
    new_args
}

/// An expression of a generic body, specialized by substitution `s`.
pub fn substitute_expr(e: &Expr, s: &Vec<(String, TypeAnnotation)>, si: &Vec<(String, Vec<TypeAnnotation>)>) -> (r: Expr)
    ensures
        sub_expr(r, *e, subst_pairs(s@), insts_view(si@)),
    decreases e,
{
    let kind = match &e.kind {
        ExprKind::Call { name, type_args, args } => {
            let new_args = substitute_exprs(args, s, si);
            let (n, t) = sub_callee(name, type_args, s, si);
            ExprKind::Call { name: n, type_args: t, args: new_args }
        },
        ExprKind::StructInit { name, type_args, args } => {
            let new_args = substitute_named_exprs(args, s, si);
            let (n, t) = sub_callee(name, type_args, s, si);
            ExprKind::StructInit { name: n, type_args: t, args: new_args }
        },
        ExprKind::BinaryOp { op, left, right } => ExprKind::BinaryOp {
            op: *op,
            left: Box::new(substitute_expr(left, s, si)),
            right: Box::new(substitute_expr(right, s, si)),
        },
        ExprKind::UnaryOp { op, operand } => ExprKind::UnaryOp { op: *op, operand: Box::new(substitute_expr(operand, s, si)) },
        ExprKind::Block(b) => ExprKind::Block(substitute_block(b, s, si)),
        ExprKind::If { condition, then_block, else_block } => ExprKind::If {
            condition: Box::new(substitute_expr(condition, s, si)),
            then_block: substitute_block(then_block, s, si),
            else_block: match else_block {
                Some(b) => Some(substitute_block(b, s, si)),
                None => None,
            },
        },
        ExprKind::While { condition, body, nobreak } => ExprKind::While {
            condition: Box::new(substitute_expr(condition, s, si)),
            body: substitute_block(body, s, si),
            nobreak: match nobreak {
                Some(b) => Some(substitute_block(b, s, si)),
                None => None,
            },
        },
        ExprKind::Cast { expr, target_type } => ExprKind::Cast {
            expr: Box::new(substitute_expr(expr, s, si)),
            target_type: substitute_type(target_type, s),
        },
        ExprKind::FieldAccess { object, field } => ExprKind::FieldAccess {
            object: Box::new(substitute_expr(object, s, si)),
            field: field.clone(),
        },
        ExprKind::MethodCall { object, method, args } => ExprKind::MethodCall {
            object: Box::new(substitute_expr(object, s, si)),
            method: method.clone(),
            args: substitute_exprs(args, s, si),
        },
        ExprKind::ArrayLiteral { elements } => ExprKind::ArrayLiteral { elements: substitute_exprs(elements, s, si) },
        ExprKind::IndexAccess { object, index } => ExprKind::IndexAccess {
            object: Box::new(substitute_expr(object, s, si)),
            index: Box::new(substitute_expr(index, s, si)),
        },
        ExprKind::Number(n) => ExprKind::Number(*n),
        ExprKind::Float(f) => ExprKind::Float(*f),
        ExprKind::Bool(b) => ExprKind::Bool(*b),
        ExprKind::Ident(n) => ExprKind::Ident(n.clone()),
        ExprKind::SelfRef => ExprKind::SelfRef,
    };
    Expr { id: e.id, kind, span: e.span }
}

/// An optional written type with the substitution applied.
fn substitute_opt_type(t: &Option<TypeAnnotation>, s: &Vec<(String, TypeAnnotation)>) -> (r: Option<TypeAnnotation>)
    ensures
        opt_subst(r, *t, subst_pairs(s@)),
{
    match t {
        Some(x) => Some(substitute_type(x, s)),
        None => None,
    }
}

/// A block of a generic body, specialized statement by statement.
pub fn substitute_block(b: &Block, s: &Vec<(String, TypeAnnotation)>, si: &Vec<(String, Vec<TypeAnnotation>)>) -> (r: Block)
    ensures
        sub_block(r, *b, subst_pairs(s@), insts_view(si@)),
    decreases b,
{
    let mut stmts: Vec<Stmt> = Vec::new();
    let mut k: usize = 0;
    while k < b.stmts.len()
        invariant
            k <= b.stmts@.len(),
            stmts@.len() == k,
            forall|i: int| 0 <= i < k ==> sub_stmt(#[trigger] stmts@[i], b.stmts@[i], subst_pairs(s@), insts_view(si@)),
        decreases b.stmts@.len() - k,
    {
        assert(decreases_to!(b => b.stmts@[k as int]));
        stmts.push(substitute_stmt(&b.stmts[k], s, si));
        k = k + 1;
    }
    Block { stmts }
}

/// A statement of a generic body, specialized.
fn substitute_stmt(st: &Stmt, s: &Vec<(String, TypeAnnotation)>, si: &Vec<(String, Vec<TypeAnnotation>)>) -> (r: Stmt)
    ensures
        sub_stmt(r, *st, subst_pairs(s@), insts_view(si@)),
    decreases st,
{
    match st {
        Stmt::Let { name, ty, value } => Stmt::Let {
            name: name.clone(),
            ty: substitute_opt_type(ty, s),
            value: substitute_expr(value, s, si),
        },
        Stmt::Var { name, ty, value } => Stmt::Var {
            name: name.clone(),
            ty: substitute_opt_type(ty, s),
            value: substitute_expr(value, s, si),
        },
        Stmt::Assign { name, value } => Stmt::Assign { name: name.clone(), value: substitute_expr(value, s, si) },
        Stmt::Return(v) => Stmt::Return(
            match v {
                Some(x) => Some(substitute_expr(x, s, si)),
                None => None,
            },
        ),
        Stmt::Yield(v) => Stmt::Yield(substitute_expr(v, s, si)),
        Stmt::Break(v) => Stmt::Break(
            match v {
                Some(x) => Some(substitute_expr(x, s, si)),
                None => None,
            },
        ),
        Stmt::Continue => Stmt::Continue,
        Stmt::Expr(v) => Stmt::Expr(substitute_expr(v, s, si)),
        Stmt::FieldAssign { object, field, value } => Stmt::FieldAssign {
            object: Box::new(substitute_expr(object, s, si)),
            field: field.clone(),
            value: substitute_expr(value, s, si),
        },
        Stmt::IndexAssign { object, index, value } => Stmt::IndexAssign {
            object: Box::new(substitute_expr(object, s, si)),
            index: Box::new(substitute_expr(index, s, si)),
            value: substitute_expr(value, s, si),
        },
    }
}

/// The inferred type arguments recorded for expression `id`; a later entry takes precedence.
pub open spec fn inferred_for(inf: Seq<(u32, InferredSite)>, id: u32) -> Option<Seq<TypeAnnotationV>>
    decreases inf.len(),
{
    if inf.len() == 0 {
        None
    } else if inf.last().0 == id {
        Some(annotation_views(inf.last().1.type_args@))
    } else {
        inferred_for(inf.drop_last(), id)
    }
}

/// The type arguments a call or struct literal has in effect: those written,
/// else those inferred for it, else none.
pub open spec fn effective_args(written: Seq<TypeAnnotationV>, inf: Seq<(u32, InferredSite)>, id: u32) -> Seq<TypeAnnotationV> {
    if written.len() > 0 {
        written
    } else {
        match inferred_for(inf, id) {
            Some(a) => a,
            None => Seq::empty(),
        }
    }
}

/// The type arguments in effect at expression `id`.
fn effective_type_args(type_args: &Vec<TypeAnnotation>, inferred: &InferredTypeArgs, id: u32) -> (r: Vec<TypeAnnotation>)
    ensures
        annotation_views(r@) == effective_args(annotation_views(type_args@), inferred.map@, id),
{
    proof { lemma_annotation_views(type_args@); }
    if type_args.len() > 0 {
        return copy_annotations(type_args);
    }
    let mut k: usize = inferred.map.len();
    assert(inferred.map@.take(k as int) =~= inferred.map@);
    while k > 0
        invariant
            k <= inferred.map@.len(),
            inferred_for(inferred.map@, id) == inferred_for(inferred.map@.take(k as int), id),
            annotation_views(type_args@).len() == 0,
        decreases k,
    {
        assert(inferred.map@.take(k as int).drop_last() =~= inferred.map@.take(k - 1));
        if inferred.map[k - 1].0 == id {
            assert(inferred.map@.take(k as int).last() == inferred.map@[k - 1]);
            assert(inferred_for(inferred.map@, id) == Some(annotation_views(inferred.map@[k - 1].1.type_args@)));
            assert(annotation_views(type_args@).len() == 0);
            assert(effective_args(annotation_views(type_args@), inferred.map@, id) == annotation_views(inferred.map@[k - 1].1.type_args@));
            return copy_annotations(&inferred.map[k - 1].1.type_args);
        }
        k = k - 1;
    }
    let r: Vec<TypeAnnotation> = Vec::new();
    assert(annotation_views(r@) =~= Seq::<TypeAnnotationV>::empty());
    r
}

/// A written type with each generic application that is one of the struct
/// instantiations `si` replaced by the name of its specialization.
pub open spec fn rw_annotation(t: TypeAnnotationV, si: Seq<(Seq<char>, Seq<TypeAnnotationV>)>) -> TypeAnnotationV
    decreases t, 0int,
{
    match t {
        TypeAnnotationV::Generic { name, args } => if si.contains((name, args)) {
            TypeAnnotationV::Named(renamed(name, args))
        } else {
            TypeAnnotationV::Generic { name, args: rw_annotations(args, si) }
        },
        TypeAnnotationV::Array { element, size } => TypeAnnotationV::Array { element: Box::new(rw_annotation(*element, si)), size },
        _ => t,
    }
}

/// `rw_annotation` of each written type of a list.
pub open spec fn rw_annotations(ts: Seq<TypeAnnotationV>, si: Seq<(Seq<char>, Seq<TypeAnnotationV>)>) -> Seq<TypeAnnotationV>
    decreases ts, 1int,
{
    if ts.len() == 0 {
        Seq::empty()
    } else {
        rw_annotations(ts.drop_last(), si).push(rw_annotation(ts.last(), si))
    }
}

/// A written type with the struct instantiations renamed.
pub fn rewrite_type_annotation(t: &TypeAnnotation, si: &Vec<(String, Vec<TypeAnnotation>)>) -> (r: TypeAnnotation)
    ensures
        r@ == rw_annotation(t@, insts_view(si@)),
    decreases t, 0int,
{
    match t {
        TypeAnnotation::Generic { name, args } => {
            if has_inst(si, name, args) {
                TypeAnnotation::Named(mangle_name(name.as_str(), args))
            } else {
                TypeAnnotation::Generic { name: name.clone(), args: rewrite_type_annotations(args, si) }
            }
        },
        TypeAnnotation::Array { element, size } => TypeAnnotation::Array {
            element: Box::new(rewrite_type_annotation(element, si)),
            size: *size,
        },
        _ => t.copy(),
    }
}

/// Each written type of the list with the struct instantiations renamed.
fn rewrite_type_annotations(ts: &Vec<TypeAnnotation>, si: &Vec<(String, Vec<TypeAnnotation>)>) -> (r: Vec<TypeAnnotation>)
    ensures
        annotation_views(r@) == rw_annotations(annotation_views(ts@), insts_view(si@)),
    decreases ts, 1int,
{
    let mut r: Vec<TypeAnnotation> = Vec::new();
    let mut k: usize = 0;
    assert(ts@.take(0) =~= Seq::<TypeAnnotation>::empty());
    assert(annotation_views(ts@.take(0)) =~= Seq::<TypeAnnotationV>::empty());
    while k < ts.len()
        invariant
            k <= ts@.len(),
            annotation_views(r@) == rw_annotations(annotation_views(ts@.take(k as int)), insts_view(si@)),
        decreases ts@.len() - k,
    {
        assert(decreases_to!(ts => ts@[k as int]));
        assert(ts@.take(k + 1).drop_last() =~= ts@.take(k as int));
        assert(annotation_views(ts@.take(k + 1)).drop_last() == annotation_views(ts@.take(k as int)));
        let ghost before = r@;
        r.push(rewrite_type_annotation(&ts[k], si));
        assert(r@.drop_last() =~= before);
        k = k + 1;
    }
    assert(ts@.take(ts@.len() as int) =~= ts@);
    r
}

/// An optional written type with the struct instantiations renamed.
pub open spec fn opt_rw(o: Option<TypeAnnotation>, i: Option<TypeAnnotation>, si: Seq<(Seq<char>, Seq<TypeAnnotationV>)>) -> bool {
    match (o, i) {
        (None, None) => true,
        (Some(a), Some(b)) => a@ == rw_annotation(b@, si),
        _ => false,
    }
}

/// The callee of a call after rewriting: the specialization of a function
/// instantiation `fi`, or else of a struct instantiation `si`, that its name and
/// type arguments in effect select, without type arguments; otherwise unchanged.
pub open spec fn rw_call_callee(
    on: Seq<char>,
    ot: Seq<TypeAnnotationV>,
    name: Seq<char>,
    written: Seq<TypeAnnotationV>,
    eff: Seq<TypeAnnotationV>,
    fi: Seq<(Seq<char>, Seq<TypeAnnotationV>)>,
    si: Seq<(Seq<char>, Seq<TypeAnnotationV>)>,
) -> bool {
    if eff.len() > 0 && (fi.contains((name, eff)) || si.contains((name, eff))) {
        on == renamed(name, eff) && ot.len() == 0
    } else {
        on == name && ot == written
    }
}

/// `o` is expression `e` with its calls and struct literals rewritten to name
/// the specializations (functions `fi`, structs `si`) that their type arguments
/// in effect select, and the written types of its bindings rewritten.
pub open spec fn rw_expr(
    o: Expr,
    e: Expr,
    inf: Seq<(u32, InferredSite)>,
    fi: Seq<(Seq<char>, Seq<TypeAnnotationV>)>,
    si: Seq<(Seq<char>, Seq<TypeAnnotationV>)>,
) -> bool
    decreases e,
{
    &&& o.id == e.id
    &&& o.span == e.span
    &&& match e.kind {
        ExprKind::Call { name, type_args, args } => {
            &&& o.kind matches ExprKind::Call { name: on, type_args: ot, args: oa }
            &&& oa@.len() == args@.len()
            &&& forall|i: int| 0 <= i < args@.len() ==> rw_expr(#[trigger] oa@[i], args@[i], inf, fi, si)
            &&& rw_call_callee(
                on@,
                annotation_views(ot@),
                name@,
                annotation_views(type_args@),
                effective_args(annotation_views(type_args@), inf, e.id),
                fi,
                si,
            )
        },
        ExprKind::StructInit { name, type_args, args } => {
            let eff = effective_args(annotation_views(type_args@), inf, e.id);
            &&& o.kind matches ExprKind::StructInit { name: on, type_args: ot, args: oa }
            &&& oa@.len() == args@.len()
            &&& forall|i: int| 0 <= i < args@.len() ==> (#[trigger] oa@[i]).0@ == args@[i].0@ && rw_expr(oa@[i].1, args@[i].1, inf, fi, si)
            &&& if eff.len() > 0 && si.contains((name@, eff)) {
                on@ == renamed(name@, eff) && ot@.len() == 0
            } else {
                on@ == name@ && annotation_views(ot@) == annotation_views(type_args@)
            }
        },
        ExprKind::BinaryOp { op, left, right } => o.kind matches ExprKind::BinaryOp { op: oo, left: ol, right: or }
            && oo == op && rw_expr(*ol, *left, inf, fi, si) && rw_expr(*or, *right, inf, fi, si),
        ExprKind::UnaryOp { op, operand } => o.kind matches ExprKind::UnaryOp { op: oo, operand: x } && oo == op
            && rw_expr(*x, *operand, inf, fi, si),
        ExprKind::Block(b) => o.kind matches ExprKind::Block(ob) && rw_block(ob, b, inf, fi, si),
        ExprKind::If { condition, then_block, else_block } => o.kind matches ExprKind::If {
            condition: oc,
            then_block: ot,
            else_block: oe,
        } && rw_expr(*oc, *condition, inf, fi, si) && rw_block(ot, then_block, inf, fi, si) && match (oe, else_block) {
            (None, None) => true,
            (Some(x), Some(y)) => rw_block(x, y, inf, fi, si),
            _ => false,
        },
        ExprKind::While { condition, body, nobreak } => o.kind matches ExprKind::While {
            condition: oc,
            body: ob,
            nobreak: on,
        } && rw_expr(*oc, *condition, inf, fi, si) && rw_block(ob, body, inf, fi, si) && match (on, nobreak) {
            (None, None) => true,
            (Some(x), Some(y)) => rw_block(x, y, inf, fi, si),
            _ => false,
        },
        ExprKind::Cast { expr, target_type } => o.kind matches ExprKind::Cast { expr: ox, target_type: ot }
            && rw_expr(*ox, *expr, inf, fi, si) && ot@ == target_type@,
        ExprKind::FieldAccess { object, field } => o.kind matches ExprKind::FieldAccess { object: ox, field: of }
            && of@ == field@ && rw_expr(*ox, *object, inf, fi, si),
        ExprKind::MethodCall { object, method, args } => {
            &&& o.kind matches ExprKind::MethodCall { object: ox, method: om, args: oa }
            &&& om@ == method@
            &&& rw_expr(*ox, *object, inf, fi, si)
            &&& oa@.len() == args@.len()
            &&& forall|i: int| 0 <= i < args@.len() ==> rw_expr(#[trigger] oa@[i], args@[i], inf, fi, si)
        },
        ExprKind::ArrayLiteral { elements } => {
            &&& o.kind matches ExprKind::ArrayLiteral { elements: oe }
            &&& oe@.len() == elements@.len()
            &&& forall|i: int| 0 <= i < elements@.len() ==> rw_expr(#[trigger] oe@[i], elements@[i], inf, fi, si)
        },
        ExprKind::IndexAccess { object, index } => o.kind matches ExprKind::IndexAccess { object: ox, index: oi }
            && rw_expr(*ox, *object, inf, fi, si) && rw_expr(*oi, *index, inf, fi, si),
        ExprKind::Number(n) => o.kind == ExprKind::Number(n),
        ExprKind::Float(f) => o.kind == ExprKind::Float(f),
        ExprKind::Bool(b) => o.kind == ExprKind::Bool(b),
        ExprKind::Ident(n) => o.kind matches ExprKind::Ident(m) && m@ == n@,
        ExprKind::SelfRef => o.kind is SelfRef,
    }
}

/// `o` is block `b` rewritten statement by statement.
pub open spec fn rw_block(
    o: Block,
    b: Block,
    inf: Seq<(u32, InferredSite)>,
    fi: Seq<(Seq<char>, Seq<TypeAnnotationV>)>,
    si: Seq<(Seq<char>, Seq<TypeAnnotationV>)>,
) -> bool
    decreases b,
{
    &&& o.stmts@.len() == b.stmts@.len()
    &&& forall|i: int| 0 <= i < b.stmts@.len() ==> rw_stmt(#[trigger] o.stmts@[i], b.stmts@[i], inf, fi, si)
}

/// `o` is statement `st` rewritten: its written type and expressions.
pub open spec fn rw_stmt(
    o: Stmt,
    st: Stmt,
    inf: Seq<(u32, InferredSite)>,
    fi: Seq<(Seq<char>, Seq<TypeAnnotationV>)>,
    si: Seq<(Seq<char>, Seq<TypeAnnotationV>)>,
) -> bool
    decreases st,
{
    match st {
        Stmt::Let { name, ty, value } => o matches Stmt::Let { name: on, ty: ot, value: ov } && on@ == name@ && opt_rw(
            ot,
            ty,
            si,
        ) && rw_expr(ov, value, inf, fi, si),
        Stmt::Var { name, ty, value } => o matches Stmt::Var { name: on, ty: ot, value: ov } && on@ == name@ && opt_rw(
            ot,
            ty,
            si,
        ) && rw_expr(ov, value, inf, fi, si),
        Stmt::Assign { name, value } => o matches Stmt::Assign { name: on, value: ov } && on@ == name@ && rw_expr(ov, value, inf, fi, si),
        Stmt::Return(v) => o matches Stmt::Return(ov) && match (ov, v) {
            (None, None) => true,
            (Some(x), Some(y)) => rw_expr(x, y, inf, fi, si),
            _ => false,
        },
        Stmt::Yield(v) => o matches Stmt::Yield(ov) && rw_expr(ov, v, inf, fi, si),
        Stmt::Break(v) => o matches Stmt::Break(ov) && match (ov, v) {
            (None, None) => true,
            (Some(x), Some(y)) => rw_expr(x, y, inf, fi, si),
            _ => false,
        },
        Stmt::Continue => o is Continue,
        Stmt::Expr(v) => o matches Stmt::Expr(ov) && rw_expr(ov, v, inf, fi, si),
        Stmt::FieldAssign { object, field, value } => o matches Stmt::FieldAssign { object: ox, field: of, value: ov }
            && of@ == field@ && rw_expr(*ox, *object, inf, fi, si) && rw_expr(ov, value, inf, fi, si),
        Stmt::IndexAssign { object, index, value } => o matches Stmt::IndexAssign { object: ox, index: oi, value: ov }
            && rw_expr(*ox, *object, inf, fi, si) && rw_expr(*oi, *index, inf, fi, si) && rw_expr(ov, value, inf, fi, si),
    }
}

/// The callee of a call after rewriting.
fn rewrite_call_callee(
    e_id: u32,
    name: &String,
    type_args: &Vec<TypeAnnotation>,
    inferred: &InferredTypeArgs,
    fi: &Vec<(String, Vec<TypeAnnotation>)>,
    si: &Vec<(String, Vec<TypeAnnotation>)>,
) -> (r: (String, Vec<TypeAnnotation>))
    ensures
        rw_call_callee(
            r.0@,
            annotation_views(r.1@),
            name@,
            annotation_views(type_args@),
            effective_args(annotation_views(type_args@), inferred.map@, e_id),
            insts_view(fi@),
            insts_view(si@),
        ),
{
    let eff = effective_type_args(type_args, inferred, e_id);
    proof { lemma_annotation_views(eff@); }
    if eff.len() > 0 && (has_inst(fi, name, &eff) || has_inst(si, name, &eff)) {
        let r: Vec<TypeAnnotation> = Vec::new();
        assert(annotation_views(r@) =~= Seq::<TypeAnnotationV>::empty());
        (mangle_name(name.as_str(), &eff), r)
    } else {
        (name.clone(), copy_annotations(type_args))
    }
}

/// The callee of a struct literal after rewriting.
fn rewrite_init_callee(
    e_id: u32,
    name: &String,
    type_args: &Vec<TypeAnnotation>,
    inferred: &InferredTypeArgs,
    si: &Vec<(String, Vec<TypeAnnotation>)>,
) -> (r: (String, Vec<TypeAnnotation>))
    ensures
        ({
            let eff = effective_args(annotation_views(type_args@), inferred.map@, e_id);
            if eff.len() > 0 && insts_view(si@).contains((name@, eff)) {
                r.0@ == renamed(name@, eff) && r.1@.len() == 0
            } else {
                r.0@ == name@ && annotation_views(r.1@) == annotation_views(type_args@)
            }
        }),
{
    let eff = effective_type_args(type_args, inferred, e_id);
    proof { lemma_annotation_views(eff@); }
    if eff.len() > 0 && has_inst(si, name, &eff) {
        (mangle_name(name.as_str(), &eff), Vec::new())
    } else {
        (name.clone(), copy_annotations(type_args))
    }
}

fn rewrite_exprs(
    es: &Vec<Expr>,
    inf: &InferredTypeArgs,
    fi: &Vec<(String, Vec<TypeAnnotation>)>,
    si: &Vec<(String, Vec<TypeAnnotation>)>,
) -> (r: Vec<Expr>)
    ensures
        r@.len() == es@.len(),
        forall|i: int| 0 <= i < es@.len() ==> rw_expr(#[trigger] r@[i], es@[i], inf.map@, insts_view(fi@), insts_view(si@)),
    decreases es,
{
    let mut r: Vec<Expr> = Vec::new();
    let mut k: usize = 0;
    while k < es.len()
        invariant
            k <= es@.len(),
            r@.len() == k,
            forall|i: int| 0 <= i < k ==> rw_expr(#[trigger] r@[i], es@[i], inf.map@, insts_view(fi@), insts_view(si@)),
        decreases es@.len() - k,
    {
        assert(decreases_to!(es => es@[k as int]));
        r.push(rewrite_expr(&es[k], inf, fi, si));
        k = k + 1;
    }
    r
}

fn rewrite_named_exprs(
    args: &Vec<(String, Expr)>,
    inf: &InferredTypeArgs,
    fi: &Vec<(String, Vec<TypeAnnotation>)>,
    si: &Vec<(String, Vec<TypeAnnotation>)>,
) -> (r: Vec<(String, Expr)>)
    ensures
        r@.len() == args@.len(),
        forall|i: int| 0 <= i < args@.len() ==> (#[trigger] r@[i]).0@ == args@[i].0@ && rw_expr(
            r@[i].1,
            args@[i].1,
            inf.map@,
            insts_view(fi@),
            insts_view(si@),
        ),
    decreases args,
{
    let mut r: Vec<(String, Expr)> = Vec::new();
    let mut k: usize = 0;
    while k < args.len()
        invariant
            k <= args@.len(),
            r@.len() == k,
            forall|i: int| 0 <= i < k ==> (#[trigger] r@[i]).0@ == args@[i].0@ && rw_expr(
                r@[i].1,
                args@[i].1,
                inf.map@,
                insts_view(fi@),
                insts_view(si@),
            ),
        decreases args@.len() - k,
    {
        assert(decreases_to!(args => args@[k as int]));
        r.push((args[k].0.clone(), rewrite_expr(&args[k].1, inf, fi, si)));
        k = k + 1;
    }
    r
}

/// An expression with its calls and struct literals renamed to their specializations.
pub fn rewrite_expr(
    e: &Expr,
    inf: &InferredTypeArgs,
    fi: &Vec<(String, Vec<TypeAnnotation>)>,
    si: &Vec<(String, Vec<TypeAnnotation>)>,
) -> (r: Expr)
    ensures
        rw_expr(r, *e, inf.map@, insts_view(fi@), insts_view(si@)),
    decreases e,
{
    let kind = match &e.kind {
        ExprKind::Call { name, type_args, args } => {
            let new_args = rewrite_exprs(args, inf, fi, si);
            let (n, t) = rewrite_call_callee(e.id, name, type_args, inf, fi, si);
            ExprKind::Call { name: n, type_args: t, args: new_args }
        },
        ExprKind::StructInit { name, type_args, args } => {
            let new_args = rewrite_named_exprs(args, inf, fi, si);
            let (n, t) = rewrite_init_callee(e.id, name, type_args, inf, si);
            ExprKind::StructInit { name: n, type_args: t, args: new_args }
        },
        ExprKind::BinaryOp { op, left, right } => ExprKind::BinaryOp {
            op: *op,
            left: Box::new(rewrite_expr(left, inf, fi, si)),
            right: Box::new(rewrite_expr(right, inf, fi, si)),
        },
        ExprKind::UnaryOp { op, operand } => ExprKind::UnaryOp { op: *op, operand: Box::new(rewrite_expr(operand, inf, fi, si)) },
        ExprKind::Block(b) => ExprKind::Block(rewrite_block(b, inf, fi, si)),
        ExprKind::If { condition, then_block, else_block } => ExprKind::If {
            condition: Box::new(rewrite_expr(condition, inf, fi, si)),
            then_block: rewrite_block(then_block, inf, fi, si),
            else_block: match else_block {
                Some(b) => Some(rewrite_block(b, inf, fi, si)),
                None => None,
            },
        },
        ExprKind::While { condition, body, nobreak } => ExprKind::While {
            condition: Box::new(rewrite_expr(condition, inf, fi, si)),
            body: rewrite_block(body, inf, fi, si),
            nobreak: match nobreak {
                Some(b) => Some(rewrite_block(b, inf, fi, si)),
                None => None,
            },
        },
        ExprKind::Cast { expr, target_type } => ExprKind::Cast {
            expr: Box::new(rewrite_expr(expr, inf, fi, si)),
            target_type: target_type.copy(),
        },
        ExprKind::FieldAccess { object, field } => ExprKind::FieldAccess {
            object: Box::new(rewrite_expr(object, inf, fi, si)),
            field: field.clone(),
        },
        ExprKind::MethodCall { object, method, args } => ExprKind::MethodCall {
            object: Box::new(rewrite_expr(object, inf, fi, si)),
            method: method.clone(),
            args: rewrite_exprs(args, inf, fi, si),
        },
        ExprKind::ArrayLiteral { elements } => ExprKind::ArrayLiteral { elements: rewrite_exprs(elements, inf, fi, si) },
        ExprKind::IndexAccess { object, index } => ExprKind::IndexAccess {
            object: Box::new(rewrite_expr(object, inf, fi, si)),
            index: Box::new(rewrite_expr(index, inf, fi, si)),
        },
        ExprKind::Number(n) => ExprKind::Number(*n),
        ExprKind::Float(f) => ExprKind::Float(*f),
        ExprKind::Bool(b) => ExprKind::Bool(*b),
        ExprKind::Ident(n) => ExprKind::Ident(n.clone()),
        ExprKind::SelfRef => ExprKind::SelfRef,
    };
    Expr { id: e.id, kind, span: e.span }
}

fn rewrite_opt_type(t: &Option<TypeAnnotation>, si: &Vec<(String, Vec<TypeAnnotation>)>) -> (r: Option<TypeAnnotation>)
    ensures
        opt_rw(r, *t, insts_view(si@)),
{
    match t {
        Some(x) => Some(rewrite_type_annotation(x, si)),
        None => None,
    }
}

/// A block with its calls and struct literals renamed to their specializations.
pub fn rewrite_block(
    b: &Block,
    inf: &InferredTypeArgs,
    fi: &Vec<(String, Vec<TypeAnnotation>)>,
    si: &Vec<(String, Vec<TypeAnnotation>)>,
) -> (r: Block)
    ensures
        rw_block(r, *b, inf.map@, insts_view(fi@), insts_view(si@)),
    decreases b,
{
    let mut stmts: Vec<Stmt> = Vec::new();
    let mut k: usize = 0;
    while k < b.stmts.len()
        invariant
            k <= b.stmts@.len(),
            stmts@.len() == k,
            forall|i: int| 0 <= i < k ==> rw_stmt(#[trigger] stmts@[i], b.stmts@[i], inf.map@, insts_view(fi@), insts_view(si@)),
        decreases b.stmts@.len() - k,
    {
        assert(decreases_to!(b => b.stmts@[k as int]));
        stmts.push(rewrite_stmt(&b.stmts[k], inf, fi, si));
        k = k + 1;
    }
    Block { stmts }
}

fn rewrite_stmt(
    st: &Stmt,
    inf: &InferredTypeArgs,
    fi: &Vec<(String, Vec<TypeAnnotation>)>,
    si: &Vec<(String, Vec<TypeAnnotation>)>,
) -> (r: Stmt)
    ensures
        rw_stmt(r, *st, inf.map@, insts_view(fi@), insts_view(si@)),
    decreases st,
{
    match st {
        Stmt::Let { name, ty, value } => Stmt::Let {
            name: name.clone(),
            ty: rewrite_opt_type(ty, si),
            value: rewrite_expr(value, inf, fi, si),
        },
        Stmt::Var { name, ty, value } => Stmt::Var {
            name: name.clone(),
            ty: rewrite_opt_type(ty, si),
            value: rewrite_expr(value, inf, fi, si),
        },
        Stmt::Assign { name, value } => Stmt::Assign { name: name.clone(), value: rewrite_expr(value, inf, fi, si) },
        Stmt::Return(v) => Stmt::Return(
            match v {
                Some(x) => Some(rewrite_expr(x, inf, fi, si)),
                None => None,
            },
        ),
        Stmt::Yield(v) => Stmt::Yield(rewrite_expr(v, inf, fi, si)),
        Stmt::Break(v) => Stmt::Break(
            match v {
                Some(x) => Some(rewrite_expr(x, inf, fi, si)),
                None => None,
            },
        ),
        Stmt::Continue => Stmt::Continue,
        Stmt::Expr(v) => Stmt::Expr(rewrite_expr(v, inf, fi, si)),
        Stmt::FieldAssign { object, field, value } => Stmt::FieldAssign {
            object: Box::new(rewrite_expr(object, inf, fi, si)),
            field: field.clone(),
            value: rewrite_expr(value, inf, fi, si),
        },
        Stmt::IndexAssign { object, index, value } => Stmt::IndexAssign {
            object: Box::new(rewrite_expr(object, inf, fi, si)),
            index: Box::new(rewrite_expr(index, inf, fi, si)),
            value: rewrite_expr(value, inf, fi, si),
        },
    }
}

/// Parameters with the substitution applied to their types.
pub open spec fn params_sub(o: Seq<Param>, p: Seq<Param>, s: Seq<(Seq<char>, TypeAnnotationV)>) -> bool {
    &&& o.len() == p.len()
    &&& forall|i: int| 0 <= i < p.len() ==> (#[trigger] o[i]).name@ == p[i].name@ && o[i].ty@ == subst_annotation(p[i].ty@, s)
}

/// The same parameters.
pub open spec fn params_same(o: Seq<Param>, p: Seq<Param>) -> bool {
    &&& o.len() == p.len()
    &&& forall|i: int| 0 <= i < p.len() ==> (#[trigger] o[i]).name@ == p[i].name@ && o[i].ty@ == p[i].ty@
}

/// The same type parameters.
pub open spec fn type_params_same(o: Seq<TypeParam>, p: Seq<TypeParam>) -> bool {
    &&& o.len() == p.len()
    &&& forall|i: int| 0 <= i < p.len() ==> (#[trigger] o[i]).name@ == p[i].name@ && opt_text(o[i].bound) == opt_text(p[i].bound)
}

/// The text of an optional string.
pub open spec fn opt_text(o: Option<String>) -> Option<Seq<char>> {
    match o {
        Some(x) => Some(x@),
        None => None,
    }
}

/// The same texts, in order.
pub open spec fn texts_same(o: Seq<String>, p: Seq<String>) -> bool {
    &&& o.len() == p.len()
    &&& forall|i: int| 0 <= i < p.len() ==> (#[trigger] o[i])@ == p[i]@
}

/// `o` is function `g` specialized under name `mangled` by substitution `s`:
/// no type parameters, parameter and return types substituted, body specialized.
pub open spec fn specialized_function(
    o: Function,
    g: Function,
    mangled: Seq<char>,
    s: Seq<(Seq<char>, TypeAnnotationV)>,
    si: Seq<(Seq<char>, Seq<TypeAnnotationV>)>,
) -> bool {
    &&& o.visibility == g.visibility
    &&& o.name@ == mangled
    &&& o.type_params@.len() == 0
    &&& params_sub(o.params@, g.params@, s)
    &&& o.return_type@ == subst_annotation(g.return_type@, s)
    &&& sub_block(o.body, g.body, s, si)
}

/// `o` is member `m` of a generic struct, specialized.
pub open spec fn sub_member(
    o: StructMember,
    m: StructMember,
    s: Seq<(Seq<char>, TypeAnnotationV)>,
    si: Seq<(Seq<char>, Seq<TypeAnnotationV>)>,
) -> bool {
    match m {
        StructMember::StoredProperty { visibility, name, ty } => o matches StructMember::StoredProperty {
            visibility: ov,
            name: on,
            ty: ot,
        } && ov == visibility && on@ == name@ && ot@ == subst_annotation(ty@, s),
        StructMember::ComputedProperty { visibility, name, ty, getter, setter } => o matches StructMember::ComputedProperty {
            visibility: ov,
            name: on,
            ty: ot,
            getter: og,
            setter: os,
        } && ov == visibility && on@ == name@ && ot@ == subst_annotation(ty@, s) && sub_block(og, getter, s, si) && match (
            os,
            setter,
        ) {
            (None, None) => true,
            (Some(x), Some(y)) => sub_block(x, y, s, si),
            _ => false,
        },
        StructMember::Initializer { visibility, params, body } => o matches StructMember::Initializer {
            visibility: ov,
            params: op,
            body: ob,
        } && ov == visibility && params_sub(op@, params@, s) && sub_block(ob, body, s, si),
        StructMember::Method { visibility, name, params, return_type, body } => o matches StructMember::Method {
            visibility: ov,
            name: on,
            params: op,
            return_type: ort,
            body: ob,
        } && ov == visibility && on@ == name@ && params_sub(op@, params@, s) && ort@ == subst_annotation(return_type@, s)
            && sub_block(ob, body, s, si),
    }
}

/// `o` is struct `g` specialized under name `mangled` by substitution `s`.
pub open spec fn specialized_struct(
    o: StructDef,
    g: StructDef,
    mangled: Seq<char>,
    s: Seq<(Seq<char>, TypeAnnotationV)>,
    si: Seq<(Seq<char>, Seq<TypeAnnotationV>)>,
) -> bool {
    &&& o.visibility == g.visibility
    &&& o.name@ == mangled
    &&& o.type_params@.len() == 0
    &&& texts_same(o.conformances@, g.conformances@)
    &&& o.members@.len() == g.members@.len()
    &&& forall|i: int| 0 <= i < g.members@.len() ==> sub_member(#[trigger] o.members@[i], g.members@[i], s, si)
}

/// `o` is function `f` with its body rewritten.
pub open spec fn rewritten_function(
    o: Function,
    f: Function,
    inf: Seq<(u32, InferredSite)>,
    fi: Seq<(Seq<char>, Seq<TypeAnnotationV>)>,
    si: Seq<(Seq<char>, Seq<TypeAnnotationV>)>,
) -> bool {
    &&& o.visibility == f.visibility
    &&& o.name@ == f.name@
    &&& type_params_same(o.type_params@, f.type_params@)
    &&& params_same(o.params@, f.params@)
    &&& o.return_type@ == f.return_type@
    &&& rw_block(o.body, f.body, inf, fi, si)
}

/// `o` is member `m` with its bodies rewritten.
pub open spec fn rw_member(
    o: StructMember,
    m: StructMember,
    inf: Seq<(u32, InferredSite)>,
    fi: Seq<(Seq<char>, Seq<TypeAnnotationV>)>,
    si: Seq<(Seq<char>, Seq<TypeAnnotationV>)>,
) -> bool {
    match m {
        StructMember::StoredProperty { visibility, name, ty } => o matches StructMember::StoredProperty {
            visibility: ov,
            name: on,
            ty: ot,
        } && ov == visibility && on@ == name@ && ot@ == ty@,
        StructMember::ComputedProperty { visibility, name, ty, getter, setter } => o matches StructMember::ComputedProperty {
            visibility: ov,
            name: on,
            ty: ot,
            getter: og,
            setter: os,
        } && ov == visibility && on@ == name@ && ot@ == ty@ && rw_block(og, getter, inf, fi, si) && match (os, setter) {
            (None, None) => true,
            (Some(x), Some(y)) => rw_block(x, y, inf, fi, si),
            _ => false,
        },
        StructMember::Initializer { visibility, params, body } => o matches StructMember::Initializer {
            visibility: ov,
            params: op,
            body: ob,
        } && ov == visibility && params_same(op@, params@) && rw_block(ob, body, inf, fi, si),
        StructMember::Method { visibility, name, params, return_type, body } => o matches StructMember::Method {
            visibility: ov,
            name: on,
            params: op,
            return_type: ort,
            body: ob,
        } && ov == visibility && on@ == name@ && params_same(op@, params@) && ort@ == return_type@ && rw_block(ob, body, inf, fi, si),
    }
}

/// `o` is struct `d` with its members' bodies rewritten.
pub open spec fn rewritten_struct(
    o: StructDef,
    d: StructDef,
    inf: Seq<(u32, InferredSite)>,
    fi: Seq<(Seq<char>, Seq<TypeAnnotationV>)>,
    si: Seq<(Seq<char>, Seq<TypeAnnotationV>)>,
) -> bool {
    &&& o.visibility == d.visibility
    &&& o.name@ == d.name@
    &&& type_params_same(o.type_params@, d.type_params@)
    &&& texts_same(o.conformances@, d.conformances@)
    &&& o.members@.len() == d.members@.len()
    &&& forall|i: int| 0 <= i < d.members@.len() ==> rw_member(#[trigger] o.members@[i], d.members@[i], inf, fi, si)
}

fn substitute_params(ps: &Vec<Param>, s: &Vec<(String, TypeAnnotation)>) -> (r: Vec<Param>)
    ensures
        params_sub(r@, ps@, subst_pairs(s@)),
{
    let mut r: Vec<Param> = Vec::new();
    let mut k: usize = 0;
    while k < ps.len()
        invariant
            k <= ps@.len(),
            r@.len() == k,
            forall|i: int| 0 <= i < k ==> (#[trigger] r@[i]).name@ == ps@[i].name@ && r@[i].ty@ == subst_annotation(ps@[i].ty@, subst_pairs(s@)),
        decreases ps@.len() - k,
    {
        r.push(Param { name: ps[k].name.clone(), ty: substitute_type(&ps[k].ty, s) });
        k = k + 1;
    }
    r
}

fn copy_params(ps: &Vec<Param>) -> (r: Vec<Param>)
    ensures
        params_same(r@, ps@),
{
    let mut r: Vec<Param> = Vec::new();
    let mut k: usize = 0;
    while k < ps.len()
        invariant
            k <= ps@.len(),
            r@.len() == k,
            forall|i: int| 0 <= i < k ==> (#[trigger] r@[i]).name@ == ps@[i].name@ && r@[i].ty@ == ps@[i].ty@,
        decreases ps@.len() - k,
    {
        r.push(Param { name: ps[k].name.clone(), ty: ps[k].ty.copy() });
        k = k + 1;
    }
    r
}

fn copy_type_params(ps: &Vec<TypeParam>) -> (r: Vec<TypeParam>)
    ensures
        type_params_same(r@, ps@),
{
    let mut r: Vec<TypeParam> = Vec::new();
    let mut k: usize = 0;
    while k < ps.len()
        invariant
            k <= ps@.len(),
            r@.len() == k,
            forall|i: int| 0 <= i < k ==> (#[trigger] r@[i]).name@ == ps@[i].name@ && opt_text(r@[i].bound) == opt_text(ps@[i].bound),
        decreases ps@.len() - k,
    {
        let bound = match &ps[k].bound {
            Some(b) => Some(b.clone()),
            None => None,
        };
        r.push(TypeParam { name: ps[k].name.clone(), bound });
        k = k + 1;
    }
    r
}

fn copy_texts(ps: &Vec<String>) -> (r: Vec<String>)
    ensures
        texts_same(r@, ps@),
{
    let mut r: Vec<String> = Vec::new();
    let mut k: usize = 0;
    while k < ps.len()
        invariant
            k <= ps@.len(),
            r@.len() == k,
            forall|i: int| 0 <= i < k ==> (#[trigger] r@[i])@ == ps@[i]@,
        decreases ps@.len() - k,
    {
        r.push(ps[k].clone());
        k = k + 1;
    }
    r
}

/// A generic function specialized under name `mangled` by substitution `s`.
pub fn specialize_function(
    g: &Function,
    mangled: &str,
    s: &Vec<(String, TypeAnnotation)>,
    si: &Vec<(String, Vec<TypeAnnotation>)>,
) -> (r: Function)
    ensures
        specialized_function(r, *g, mangled@, subst_pairs(s@), insts_view(si@)),
{
    let mut name = String::new();
    push_str(&mut name, mangled);
    Function {
        visibility: g.visibility,
        name,
        type_params: Vec::new(),
        params: substitute_params(&g.params, s),
        return_type: substitute_type(&g.return_type, s),
        body: substitute_block(&g.body, s, si),
    }
}

fn specialize_member(
    m: &StructMember,
    s: &Vec<(String, TypeAnnotation)>,
    si: &Vec<(String, Vec<TypeAnnotation>)>,
) -> (r: StructMember)
    ensures
        sub_member(r, *m, subst_pairs(s@), insts_view(si@)),
{
    match m {
        StructMember::StoredProperty { visibility, name, ty } => StructMember::StoredProperty {
            visibility: *visibility,
            name: name.clone(),
            ty: substitute_type(ty, s),
        },
        StructMember::ComputedProperty { visibility, name, ty, getter, setter } => StructMember::ComputedProperty {
            visibility: *visibility,
            name: name.clone(),
            ty: substitute_type(ty, s),
            getter: substitute_block(getter, s, si),
            setter: match setter {
                Some(b) => Some(substitute_block(b, s, si)),
                None => None,
            },
        },
        StructMember::Initializer { visibility, params, body } => StructMember::Initializer {
            visibility: *visibility,
            params: substitute_params(params, s),
            body: substitute_block(body, s, si),
        },
        StructMember::Method { visibility, name, params, return_type, body } => StructMember::Method {
            visibility: *visibility,
            name: name.clone(),
            params: substitute_params(params, s),
            return_type: substitute_type(return_type, s),
            body: substitute_block(body, s, si),
        },
    }
}

/// A generic struct specialized under name `mangled` by substitution `s`.
pub fn specialize_struct(
    g: &StructDef,
    mangled: &str,
    s: &Vec<(String, TypeAnnotation)>,
    si: &Vec<(String, Vec<TypeAnnotation>)>,
) -> (r: StructDef)
    ensures
        specialized_struct(r, *g, mangled@, subst_pairs(s@), insts_view(si@)),
{
    let mut members: Vec<StructMember> = Vec::new();
    let mut k: usize = 0;
    while k < g.members.len()
        invariant
            k <= g.members@.len(),
            members@.len() == k,
            forall|i: int| 0 <= i < k ==> sub_member(#[trigger] members@[i], g.members@[i], subst_pairs(s@), insts_view(si@)),
        decreases g.members@.len() - k,
    {
        members.push(specialize_member(&g.members[k], s, si));
        k = k + 1;
    }
    let mut name = String::new();
    push_str(&mut name, mangled);
    StructDef {
        visibility: g.visibility,
        name,
        type_params: Vec::new(),
        conformances: copy_texts(&g.conformances),
        members,
        span: g.span,
    }
}

/// A function with its body rewritten.
pub fn rewrite_function(
    f: &Function,
    inf: &InferredTypeArgs,
    fi: &Vec<(String, Vec<TypeAnnotation>)>,
    si: &Vec<(String, Vec<TypeAnnotation>)>,
) -> (r: Function)
    ensures
        rewritten_function(r, *f, inf.map@, insts_view(fi@), insts_view(si@)),
{
    Function {
        visibility: f.visibility,
        name: f.name.clone(),
        type_params: copy_type_params(&f.type_params),
        params: copy_params(&f.params),
        return_type: f.return_type.copy(),
        body: rewrite_block(&f.body, inf, fi, si),
    }
}

fn rewrite_member(
    m: &StructMember,
    inf: &InferredTypeArgs,
    fi: &Vec<(String, Vec<TypeAnnotation>)>,
    si: &Vec<(String, Vec<TypeAnnotation>)>,
) -> (r: StructMember)
    ensures
        rw_member(r, *m, inf.map@, insts_view(fi@), insts_view(si@)),
{
    match m {
        StructMember::StoredProperty { visibility, name, ty } => StructMember::StoredProperty {
            visibility: *visibility,
            name: name.clone(),
            ty: ty.copy(),
        },
        StructMember::ComputedProperty { visibility, name, ty, getter, setter } => StructMember::ComputedProperty {
            visibility: *visibility,
            name: name.clone(),
            ty: ty.copy(),
            getter: rewrite_block(getter, inf, fi, si),
            setter: match setter {
                Some(b) => Some(rewrite_block(b, inf, fi, si)),
                None => None,
            },
        },
        StructMember::Initializer { visibility, params, body } => StructMember::Initializer {
            visibility: *visibility,
            params: copy_params(params),
            body: rewrite_block(body, inf, fi, si),
        },
        StructMember::Method { visibility, name, params, return_type, body } => StructMember::Method {
            visibility: *visibility,
            name: name.clone(),
            params: copy_params(params),
            return_type: return_type.copy(),
            body: rewrite_block(body, inf, fi, si),
        },
    }
}

/// A struct with its members' bodies rewritten.
pub fn rewrite_struct(
    d: &StructDef,
    inf: &InferredTypeArgs,
    fi: &Vec<(String, Vec<TypeAnnotation>)>,
    si: &Vec<(String, Vec<TypeAnnotation>)>,
) -> (r: StructDef)
    ensures
        rewritten_struct(r, *d, inf.map@, insts_view(fi@), insts_view(si@)),
{
    let mut members: Vec<StructMember> = Vec::new();
    let mut k: usize = 0;
    while k < d.members.len()
        invariant
            k <= d.members@.len(),
            members@.len() == k,
            forall|i: int| 0 <= i < k ==> rw_member(#[trigger] members@[i], d.members@[i], inf.map@, insts_view(fi@), insts_view(si@)),
        decreases d.members@.len() - k,
    {
        members.push(rewrite_member(&d.members[k], inf, fi, si));
        k = k + 1;
    }
    StructDef {
        visibility: d.visibility,
        name: d.name.clone(),
        type_params: copy_type_params(&d.type_params),
        conformances: copy_texts(&d.conformances),
        members,
        span: d.span,
    }
}

/// A site that may instantiate a generic: whether it is a call (rather than a
/// struct literal), the name it uses, and the type arguments in effect.
pub type Site = (bool, Seq<char>, Seq<TypeAnnotationV>);

/// The call and struct-literal sites of an expression, in the order of a
/// walk that visits a site before its arguments and operands left to right.
pub open spec fn expr_sites(e: Expr, inf: Seq<(u32, InferredSite)>) -> Seq<Site>
    decreases e,
{
    match e.kind {
        ExprKind::Call { name, type_args, args } => seq![
            (true, name@, effective_args(annotation_views(type_args@), inf, e.id)),
        ] + exprs_sites(args@, inf),
        ExprKind::StructInit { name, type_args, args } => seq![
            (false, name@, effective_args(annotation_views(type_args@), inf, e.id)),
        ] + named_sites(args@, inf),
        ExprKind::BinaryOp { left, right, .. } => expr_sites(*left, inf) + expr_sites(*right, inf),
        ExprKind::UnaryOp { operand, .. } => expr_sites(*operand, inf),
        ExprKind::Block(b) => block_sites(b, inf),
        ExprKind::If { condition, then_block, else_block } => expr_sites(*condition, inf) + block_sites(then_block, inf)
            + match else_block {
            Some(b) => block_sites(b, inf),
            None => Seq::empty(),
        },
        ExprKind::While { condition, body, nobreak } => expr_sites(*condition, inf) + block_sites(body, inf) + match nobreak {
            Some(b) => block_sites(b, inf),
            None => Seq::empty(),
        },
        ExprKind::Cast { expr, .. } => expr_sites(*expr, inf),
        ExprKind::FieldAccess { object, .. } => expr_sites(*object, inf),
        ExprKind::MethodCall { object, args, .. } => expr_sites(*object, inf) + exprs_sites(args@, inf),
        ExprKind::ArrayLiteral { elements } => exprs_sites(elements@, inf),
        ExprKind::IndexAccess { object, index } => expr_sites(*object, inf) + expr_sites(*index, inf),
        _ => Seq::empty(),
    }
}

/// The sites of a list of expressions, in order.
pub open spec fn exprs_sites(es: Seq<Expr>, inf: Seq<(u32, InferredSite)>) -> Seq<Site>
    decreases es,
{
    if es.len() == 0 {
        Seq::empty()
    } else {
        exprs_sites(es.drop_last(), inf) + expr_sites(es.last(), inf)
    }
}

/// The sites of a list of named expressions, in order.
pub open spec fn named_sites(es: Seq<(String, Expr)>, inf: Seq<(u32, InferredSite)>) -> Seq<Site>
    decreases es,
{
    if es.len() == 0 {
        Seq::empty()
    } else {
        named_sites(es.drop_last(), inf) + expr_sites(es.last().1, inf)
    }
}

/// The sites of a block, statement by statement.
pub open spec fn block_sites(b: Block, inf: Seq<(u32, InferredSite)>) -> Seq<Site>
    decreases b,
{
    stmts_sites(b.stmts@, inf)
}

/// The sites of a list of statements, in order.
pub open spec fn stmts_sites(ss: Seq<Stmt>, inf: Seq<(u32, InferredSite)>) -> Seq<Site>
    decreases ss,
{
    if ss.len() == 0 {
        Seq::empty()
    } else {
        stmts_sites(ss.drop_last(), inf) + stmt_sites(ss.last(), inf)
    }
}

/// The sites of a statement.
pub open spec fn stmt_sites(st: Stmt, inf: Seq<(u32, InferredSite)>) -> Seq<Site>
    decreases st,
{
    match st {
        Stmt::Let { value, .. } | Stmt::Var { value, .. } | Stmt::Assign { value, .. } => expr_sites(value, inf),
        Stmt::Return(Some(v)) | Stmt::Yield(v) | Stmt::Break(Some(v)) | Stmt::Expr(v) => expr_sites(v, inf),
        Stmt::FieldAssign { object, value, .. } => expr_sites(*object, inf) + expr_sites(value, inf),
        Stmt::IndexAssign { object, index, value } => expr_sites(*object, inf) + expr_sites(*index, inf) + expr_sites(value, inf),
        _ => Seq::empty(),
    }
}

/// Whether the program defines a generic function of this name.
pub open spec fn is_generic_function(fns: Seq<Function>, name: Seq<char>) -> bool {
    exists|i: int| 0 <= i < fns.len() && (#[trigger] fns[i]).name@ == name && fns[i].type_params@.len() > 0
}

/// Whether the program defines a generic struct of this name.
pub open spec fn is_generic_struct(ss: Seq<StructDef>, name: Seq<char>) -> bool {
    exists|i: int| 0 <= i < ss.len() && (#[trigger] ss[i]).name@ == name && ss[i].type_params@.len() > 0
}

/// The function instantiations after the sites `xs`, starting from `l`: each
/// call of a generic function with type arguments in effect, once, in the order
/// first met.
pub open spec fn add_func_insts(
    l: Seq<(Seq<char>, Seq<TypeAnnotationV>)>,
    xs: Seq<Site>,
    fns: Seq<Function>,
) -> Seq<(Seq<char>, Seq<TypeAnnotationV>)>
    decreases xs.len(),
{
    if xs.len() == 0 {
        l
    } else {
        let l0 = add_func_insts(l, xs.drop_last(), fns);
        let x = xs.last();
        if x.2.len() > 0 && x.0 && is_generic_function(fns, x.1) && !l0.contains((x.1, x.2)) {
            l0.push((x.1, x.2))
        } else {
            l0
        }
    }
}

/// The struct instantiations after the sites `xs`, starting from `l`: each
/// call or struct literal of a generic struct with type arguments in effect,
/// once, in the order first met.
pub open spec fn add_struct_insts(
    l: Seq<(Seq<char>, Seq<TypeAnnotationV>)>,
    xs: Seq<Site>,
    ss: Seq<StructDef>,
) -> Seq<(Seq<char>, Seq<TypeAnnotationV>)>
    decreases xs.len(),
{
    if xs.len() == 0 {
        l
    } else {
        let l0 = add_struct_insts(l, xs.drop_last(), ss);
        let x = xs.last();
        if x.2.len() > 0 && is_generic_struct(ss, x.1) && !l0.contains((x.1, x.2)) {
            l0.push((x.1, x.2))
        } else {
            l0
        }
    }
}

/// Adding two runs of sites one after the other.
pub proof fn lemma_add_insts_concat(
    l: Seq<(Seq<char>, Seq<TypeAnnotationV>)>,
    a: Seq<Site>,
    b: Seq<Site>,
    fns: Seq<Function>,
    ss: Seq<StructDef>,
)
    ensures
        add_func_insts(l, a + b, fns) == add_func_insts(add_func_insts(l, a, fns), b, fns),
        add_struct_insts(l, a + b, ss) == add_struct_insts(add_struct_insts(l, a, ss), b, ss),
    decreases b.len(),
{
    if b.len() == 0 {
        assert(a + b =~= a);
    } else {
        lemma_add_insts_concat(l, a, b.drop_last(), fns, ss);
        assert((a + b).drop_last() =~= a + b.drop_last());
        assert((a + b).last() == b.last());
    }
}

/// The program's function instantiations and struct instantiations so far.
pub open spec fn insts_after(
    fi: Seq<(String, Vec<TypeAnnotation>)>,
    si: Seq<(String, Vec<TypeAnnotation>)>,
    fi0: Seq<(String, Vec<TypeAnnotation>)>,
    si0: Seq<(String, Vec<TypeAnnotation>)>,
    xs: Seq<Site>,
    fns: Seq<Function>,
    ss: Seq<StructDef>,
) -> bool {
    &&& insts_view(fi) == add_func_insts(insts_view(fi0), xs, fns)
    &&& insts_view(si) == add_struct_insts(insts_view(si0), xs, ss)
}

/// Whether the program defines a generic function of this name.
fn generic_function_named(fns: &Vec<Function>, name: &String) -> (r: bool)
    ensures
        r == is_generic_function(fns@, name@),
{
    let mut k: usize = 0;
    while k < fns.len()
        invariant
            k <= fns@.len(),
            forall|i: int| 0 <= i < k ==> !((#[trigger] fns@[i]).name@ == name@ && fns@[i].type_params@.len() > 0),
        decreases fns@.len() - k,
    {
        if fns[k].name.eq(name) && fns[k].type_params.len() > 0 {
            assert(fns@[k as int].name@ == name@ && fns@[k as int].type_params@.len() > 0);
            return true;
        }
        k = k + 1;
    }
    false
}

/// Whether the program defines a generic struct of this name.
fn generic_struct_named(ss: &Vec<StructDef>, name: &String) -> (r: bool)
    ensures
        r == is_generic_struct(ss@, name@),
{
    let mut k: usize = 0;
    while k < ss.len()
        invariant
            k <= ss@.len(),
            forall|i: int| 0 <= i < k ==> !((#[trigger] ss@[i]).name@ == name@ && ss@[i].type_params@.len() > 0),
        decreases ss@.len() - k,
    {
        if ss[k].name.eq(name) && ss[k].type_params.len() > 0 {
            assert(ss@[k as int].name@ == name@ && ss@[k as int].type_params@.len() > 0);
            return true;
        }
        k = k + 1;
    }
    false
}

/// Records the instantiations of one site.
fn note_site(
    is_call: bool,
    name: &String,
    eff: &Vec<TypeAnnotation>,
    fns: &Vec<Function>,
    ss: &Vec<StructDef>,
    fi: &mut Vec<(String, Vec<TypeAnnotation>)>,
    si: &mut Vec<(String, Vec<TypeAnnotation>)>,
)
    ensures
        insts_after(final(fi)@, final(si)@, old(fi)@, old(si)@, seq![(is_call, name@, annotation_views(eff@))], fns@, ss@),
{
    let ghost x: Site = (is_call, name@, annotation_views(eff@));
    let ghost fi0 = insts_view(fi@);
    let ghost si0 = insts_view(si@);
    assert(seq![x].drop_last() =~= Seq::<Site>::empty());
    assert(seq![x].last() == x);
    assert(add_func_insts(fi0, Seq::<Site>::empty(), fns@) == fi0);
    assert(add_struct_insts(si0, Seq::<Site>::empty(), ss@) == si0);
    proof { lemma_annotation_views(eff@); }
    if eff.len() > 0 {
        if is_call && generic_function_named(fns, name) && !has_inst(fi, name, eff) {
            fi.push((name.clone(), copy_annotations(eff)));
            assert(insts_view(fi@) =~= fi0.push((name@, annotation_views(eff@))));
        }
        if generic_struct_named(ss, name) && !has_inst(si, name, eff) {
            si.push((name.clone(), copy_annotations(eff)));
            assert(insts_view(si@) =~= si0.push((name@, annotation_views(eff@))));
        }
    }
    assert(insts_view(fi@) =~= add_func_insts(fi0, seq![x], fns@));
    assert(insts_view(si@) =~= add_struct_insts(si0, seq![x], ss@));
}

/// Records the instantiations of a list of expressions, in order.
fn collect_from_exprs(
    es: &Vec<Expr>,
    inf: &InferredTypeArgs,
    fns: &Vec<Function>,
    ss: &Vec<StructDef>,
    fi: &mut Vec<(String, Vec<TypeAnnotation>)>,
    si: &mut Vec<(String, Vec<TypeAnnotation>)>,
)
    ensures
        insts_after(final(fi)@, final(si)@, old(fi)@, old(si)@, exprs_sites(es@, inf.map@), fns@, ss@),
    decreases es,
{
    let ghost fi0 = fi@;
    let ghost si0 = si@;
    let mut k: usize = 0;
    assert(es@.take(0) =~= Seq::<Expr>::empty());
    while k < es.len()
        invariant
            k <= es@.len(),
            insts_after(fi@, si@, fi0, si0, exprs_sites(es@.take(k as int), inf.map@), fns@, ss@),
        decreases es@.len() - k,
    {
        assert(decreases_to!(es => es@[k as int]));
        assert(es@.take(k + 1).drop_last() =~= es@.take(k as int));
        assert(es@.take(k + 1).last() == es@[k as int]);
        proof {
            lemma_add_insts_concat(insts_view(fi0), exprs_sites(es@.take(k as int), inf.map@), expr_sites(es@[k as int], inf.map@), fns@, ss@);
            lemma_add_insts_concat(insts_view(si0), exprs_sites(es@.take(k as int), inf.map@), expr_sites(es@[k as int], inf.map@), fns@, ss@);
        }
        collect_from_expr(&es[k], inf, fns, ss, fi, si);
        k = k + 1;
    }
    assert(es@.take(es@.len() as int) =~= es@);
}

/// Records the instantiations of a list of named expressions, in order.
fn collect_from_named(
    es: &Vec<(String, Expr)>,
    inf: &InferredTypeArgs,
    fns: &Vec<Function>,
    ss: &Vec<StructDef>,
    fi: &mut Vec<(String, Vec<TypeAnnotation>)>,
    si: &mut Vec<(String, Vec<TypeAnnotation>)>,
)
    ensures
        insts_after(final(fi)@, final(si)@, old(fi)@, old(si)@, named_sites(es@, inf.map@), fns@, ss@),
    decreases es,
{
    let ghost fi0 = fi@;
    let ghost si0 = si@;
    let mut k: usize = 0;
    assert(es@.take(0) =~= Seq::<(String, Expr)>::empty());
    while k < es.len()
        invariant
            k <= es@.len(),
            insts_after(fi@, si@, fi0, si0, named_sites(es@.take(k as int), inf.map@), fns@, ss@),
        decreases es@.len() - k,
    {
        assert(decreases_to!(es => es@[k as int]));
        assert(es@.take(k + 1).drop_last() =~= es@.take(k as int));
        assert(es@.take(k + 1).last() == es@[k as int]);
        proof {
            lemma_add_insts_concat(insts_view(fi0), named_sites(es@.take(k as int), inf.map@), expr_sites(es@[k as int].1, inf.map@), fns@, ss@);
            lemma_add_insts_concat(insts_view(si0), named_sites(es@.take(k as int), inf.map@), expr_sites(es@[k as int].1, inf.map@), fns@, ss@);
        }
        collect_from_expr(&es[k].1, inf, fns, ss, fi, si);
        k = k + 1;
    }
    assert(es@.take(es@.len() as int) =~= es@);
}

/// Records, after those already recorded, the generic instantiations of an
/// expression's calls and struct literals, in walk order and each once.
pub fn collect_from_expr(
    e: &Expr,
    inf: &InferredTypeArgs,
    fns: &Vec<Function>,
    ss: &Vec<StructDef>,
    fi: &mut Vec<(String, Vec<TypeAnnotation>)>,
    si: &mut Vec<(String, Vec<TypeAnnotation>)>,
)
    ensures
        insts_after(final(fi)@, final(si)@, old(fi)@, old(si)@, expr_sites(*e, inf.map@), fns@, ss@),
    decreases e,
{
    let ghost fi0 = insts_view(fi@);
    let ghost si0 = insts_view(si@);
    let ghost m = inf.map@;
    match &e.kind {
        ExprKind::Call { name, type_args, args } => {
            let eff = effective_type_args(type_args, inf, e.id);
            note_site(true, name, &eff, fns, ss, fi, si);
            let ghost a = seq![(true, name@, annotation_views(eff@))];
            collect_from_exprs(args, inf, fns, ss, fi, si);
            proof { lemma_add_insts_concat(fi0, a, exprs_sites(args@, m), fns@, ss@); lemma_add_insts_concat(si0, a, exprs_sites(args@, m), fns@, ss@); }
        },
        ExprKind::StructInit { name, type_args, args } => {
            let eff = effective_type_args(type_args, inf, e.id);
            note_site(false, name, &eff, fns, ss, fi, si);
            let ghost a = seq![(false, name@, annotation_views(eff@))];
            collect_from_named(args, inf, fns, ss, fi, si);
            proof { lemma_add_insts_concat(fi0, a, named_sites(args@, m), fns@, ss@); lemma_add_insts_concat(si0, a, named_sites(args@, m), fns@, ss@); }
        },
        ExprKind::BinaryOp { left, right, .. } => {
            collect_from_expr(left, inf, fns, ss, fi, si);
            collect_from_expr(right, inf, fns, ss, fi, si);
            proof { lemma_add_insts_concat(fi0, expr_sites(**left, m), expr_sites(**right, m), fns@, ss@); lemma_add_insts_concat(si0, expr_sites(**left, m), expr_sites(**right, m), fns@, ss@); }
        },
        ExprKind::UnaryOp { operand, .. } => {
            collect_from_expr(operand, inf, fns, ss, fi, si);
        },
        ExprKind::Block(b) => {
            collect_from_block(b, inf, fns, ss, fi, si);
        },
        ExprKind::If { condition, then_block, else_block } => {
            collect_from_expr(condition, inf, fns, ss, fi, si);
            collect_from_block(then_block, inf, fns, ss, fi, si);
            let ghost c = expr_sites(**condition, m);
            let ghost t = block_sites(*then_block, m);
            let ghost el = match else_block { Some(b) => block_sites(*b, m), None => Seq::<Site>::empty() };
            match else_block {
                Some(b) => collect_from_block(b, inf, fns, ss, fi, si),
                None => {
                    assert(add_func_insts(add_func_insts(fi0, c + t, fns@), el, fns@) == add_func_insts(fi0, c + t, fns@));
                    assert(add_struct_insts(add_struct_insts(si0, c + t, ss@), el, ss@) == add_struct_insts(si0, c + t, ss@));
                },
            }
            proof {
                lemma_add_insts_concat(fi0, c, t, fns@, ss@);
                lemma_add_insts_concat(si0, c, t, fns@, ss@);
                lemma_add_insts_concat(fi0, c + t, el, fns@, ss@);
                lemma_add_insts_concat(si0, c + t, el, fns@, ss@);
            }
        },
        ExprKind::While { condition, body, nobreak } => {
            collect_from_expr(condition, inf, fns, ss, fi, si);
            collect_from_block(body, inf, fns, ss, fi, si);
            let ghost c = expr_sites(**condition, m);
            let ghost t = block_sites(*body, m);
            let ghost el = match nobreak { Some(b) => block_sites(*b, m), None => Seq::<Site>::empty() };
            match nobreak {
                Some(b) => collect_from_block(b, inf, fns, ss, fi, si),
                None => {
                    assert(add_func_insts(add_func_insts(fi0, c + t, fns@), el, fns@) == add_func_insts(fi0, c + t, fns@));
                    assert(add_struct_insts(add_struct_insts(si0, c + t, ss@), el, ss@) == add_struct_insts(si0, c + t, ss@));
                },
            }
            proof {
                lemma_add_insts_concat(fi0, c, t, fns@, ss@);
                lemma_add_insts_concat(si0, c, t, fns@, ss@);
                lemma_add_insts_concat(fi0, c + t, el, fns@, ss@);
                lemma_add_insts_concat(si0, c + t, el, fns@, ss@);
            }
        },
        ExprKind::Cast { expr, .. } => {
            collect_from_expr(expr, inf, fns, ss, fi, si);
        },
        ExprKind::FieldAccess { object, .. } => {
            collect_from_expr(object, inf, fns, ss, fi, si);
        },
        ExprKind::MethodCall { object, args, .. } => {
            collect_from_expr(object, inf, fns, ss, fi, si);
            collect_from_exprs(args, inf, fns, ss, fi, si);
            proof { lemma_add_insts_concat(fi0, expr_sites(**object, m), exprs_sites(args@, m), fns@, ss@); lemma_add_insts_concat(si0, expr_sites(**object, m), exprs_sites(args@, m), fns@, ss@); }
        },
        ExprKind::ArrayLiteral { elements } => {
            collect_from_exprs(elements, inf, fns, ss, fi, si);
        },
        ExprKind::IndexAccess { object, index } => {
            collect_from_expr(object, inf, fns, ss, fi, si);
            collect_from_expr(index, inf, fns, ss, fi, si);
            proof { lemma_add_insts_concat(fi0, expr_sites(**object, m), expr_sites(**index, m), fns@, ss@); lemma_add_insts_concat(si0, expr_sites(**object, m), expr_sites(**index, m), fns@, ss@); }
        },
        _ => {
            assert(expr_sites(*e, m) =~= Seq::<Site>::empty());
        },
    }
}

/// Records the instantiations of a block, statement by statement.
pub fn collect_from_block(
    b: &Block,
    inf: &InferredTypeArgs,
    fns: &Vec<Function>,
    ss: &Vec<StructDef>,
    fi: &mut Vec<(String, Vec<TypeAnnotation>)>,
    si: &mut Vec<(String, Vec<TypeAnnotation>)>,
)
    ensures
        insts_after(final(fi)@, final(si)@, old(fi)@, old(si)@, block_sites(*b, inf.map@), fns@, ss@),
    decreases b,
{
    let ghost fi0 = fi@;
    let ghost si0 = si@;
    let ghost st = b.stmts@;
    let mut k: usize = 0;
    assert(st.take(0) =~= Seq::<Stmt>::empty());
    while k < b.stmts.len()
        invariant
            k <= st.len(),
            st == b.stmts@,
            insts_after(fi@, si@, fi0, si0, stmts_sites(st.take(k as int), inf.map@), fns@, ss@),
        decreases st.len() - k,
    {
        assert(decreases_to!(b => b.stmts@[k as int]));
        assert(st.take(k + 1).drop_last() =~= st.take(k as int));
        assert(st.take(k + 1).last() == st[k as int]);
        proof {
            lemma_add_insts_concat(insts_view(fi0), stmts_sites(st.take(k as int), inf.map@), stmt_sites(st[k as int], inf.map@), fns@, ss@);
            lemma_add_insts_concat(insts_view(si0), stmts_sites(st.take(k as int), inf.map@), stmt_sites(st[k as int], inf.map@), fns@, ss@);
        }
        collect_from_stmt(&b.stmts[k], inf, fns, ss, fi, si);
        k = k + 1;
    }
    assert(st.take(st.len() as int) =~= st);
}

/// Records the instantiations of a statement.
fn collect_from_stmt(
    st: &Stmt,
    inf: &InferredTypeArgs,
    fns: &Vec<Function>,
    ss: &Vec<StructDef>,
    fi: &mut Vec<(String, Vec<TypeAnnotation>)>,
    si: &mut Vec<(String, Vec<TypeAnnotation>)>,
)
    ensures
        insts_after(final(fi)@, final(si)@, old(fi)@, old(si)@, stmt_sites(*st, inf.map@), fns@, ss@),
    decreases st,
{
    let ghost fi0 = insts_view(fi@);
    let ghost si0 = insts_view(si@);
    let ghost m = inf.map@;
    match st {
        Stmt::Let { value, .. } | Stmt::Var { value, .. } | Stmt::Assign { value, .. } => {
            collect_from_expr(value, inf, fns, ss, fi, si);
        },
        Stmt::Return(Some(v)) | Stmt::Yield(v) | Stmt::Break(Some(v)) | Stmt::Expr(v) => {
            collect_from_expr(v, inf, fns, ss, fi, si);
        },
        Stmt::FieldAssign { object, value, .. } => {
            collect_from_expr(object, inf, fns, ss, fi, si);
            collect_from_expr(value, inf, fns, ss, fi, si);
            proof { lemma_add_insts_concat(fi0, expr_sites(**object, m), expr_sites(*value, m), fns@, ss@); lemma_add_insts_concat(si0, expr_sites(**object, m), expr_sites(*value, m), fns@, ss@); }
        },
        Stmt::IndexAssign { object, index, value } => {
            collect_from_expr(object, inf, fns, ss, fi, si);
            collect_from_expr(index, inf, fns, ss, fi, si);
            collect_from_expr(value, inf, fns, ss, fi, si);
            proof {
                let a = expr_sites(**object, m);
                let b = expr_sites(**index, m);
                let c = expr_sites(*value, m);
                lemma_add_insts_concat(fi0, a, b, fns@, ss@);
                lemma_add_insts_concat(si0, a, b, fns@, ss@);
                lemma_add_insts_concat(fi0, a + b, c, fns@, ss@);
                lemma_add_insts_concat(si0, a + b, c, fns@, ss@);
            }
        },
        _ => {
            assert(stmt_sites(*st, m) =~= Seq::<Site>::empty());
        },
    }
}

/// The sites of a struct member's bodies: an initializer's or method's body,
/// a computed property's getter and then its setter.
pub open spec fn member_sites(m: StructMember, inf: Seq<(u32, InferredSite)>) -> Seq<Site> {
    match m {
        StructMember::Initializer { body, .. } => block_sites(body, inf),
        StructMember::Method { body, .. } => block_sites(body, inf),
        StructMember::ComputedProperty { getter, setter, .. } => block_sites(getter, inf) + match setter {
            Some(b) => block_sites(b, inf),
            None => Seq::empty(),
        },
        StructMember::StoredProperty { .. } => Seq::empty(),
    }
}

/// The sites of a list of members, in order.
pub open spec fn members_sites(ms: Seq<StructMember>, inf: Seq<(u32, InferredSite)>) -> Seq<Site>
    decreases ms.len(),
{
    if ms.len() == 0 {
        Seq::empty()
    } else {
        members_sites(ms.drop_last(), inf) + member_sites(ms.last(), inf)
    }
}

/// The sites of the functions' bodies, in order.
pub open spec fn functions_sites(fs: Seq<Function>, inf: Seq<(u32, InferredSite)>) -> Seq<Site>
    decreases fs.len(),
{
    if fs.len() == 0 {
        Seq::empty()
    } else {
        functions_sites(fs.drop_last(), inf) + block_sites(fs.last().body, inf)
    }
}

/// The sites of the structs' members, in order.
pub open spec fn structs_sites(ss: Seq<StructDef>, inf: Seq<(u32, InferredSite)>) -> Seq<Site>
    decreases ss.len(),
{
    if ss.len() == 0 {
        Seq::empty()
    } else {
        structs_sites(ss.drop_last(), inf) + members_sites(ss.last().members@, inf)
    }
}

/// The sites of a program: its functions' bodies, then its structs' members.
pub open spec fn program_sites<I, P>(p: Program<I, P>, inf: Seq<(u32, InferredSite)>) -> Seq<Site> {
    functions_sites(p.functions@, inf) + structs_sites(p.structs@, inf)
}

/// The program's function instantiations, in the order first met.
pub open spec fn func_insts_of<I, P>(p: Program<I, P>, inf: Seq<(u32, InferredSite)>) -> Seq<(Seq<char>, Seq<TypeAnnotationV>)> {
    add_func_insts(Seq::empty(), program_sites(p, inf), p.functions@)
}

/// The program's struct instantiations, in the order first met.
pub open spec fn struct_insts_of<I, P>(p: Program<I, P>, inf: Seq<(u32, InferredSite)>) -> Seq<(Seq<char>, Seq<TypeAnnotationV>)> {
    add_struct_insts(Seq::empty(), program_sites(p, inf), p.structs@)
}

/// The position of the generic function of this name; the last one where
/// several share it.
pub open spec fn generic_function_at(fns: Seq<Function>, name: Seq<char>) -> int
    decreases fns.len(),
{
    if fns.len() == 0 {
        -1
    } else if fns.last().name@ == name && fns.last().type_params@.len() > 0 {
        fns.len() - 1
    } else {
        generic_function_at(fns.drop_last(), name)
    }
}

/// The position of the generic struct of this name; the last one where several share it.
pub open spec fn generic_struct_at(ss: Seq<StructDef>, name: Seq<char>) -> int
    decreases ss.len(),
{
    if ss.len() == 0 {
        -1
    } else if ss.last().name@ == name && ss.last().type_params@.len() > 0 {
        ss.len() - 1
    } else {
        generic_struct_at(ss.drop_last(), name)
    }
}

/// The substitution of a specialization: each type parameter with the argument at its position.
pub open spec fn subst_of(tps: Seq<TypeParam>, args: Seq<TypeAnnotationV>) -> Seq<(Seq<char>, TypeAnnotationV)> {
    Seq::new(if tps.len() < args.len() { tps.len() } else { args.len() }, |i: int| (tps[i].name@, args[i]))
}

/// The positions of the functions without type parameters, in order.
pub open spec fn plain_function_positions(fs: Seq<Function>) -> Seq<int>
    decreases fs.len(),
{
    if fs.len() == 0 {
        Seq::empty()
    } else if fs.last().type_params@.len() == 0 {
        plain_function_positions(fs.drop_last()).push(fs.len() - 1)
    } else {
        plain_function_positions(fs.drop_last())
    }
}

/// The positions of the structs without type parameters, in order.
pub open spec fn plain_struct_positions(ss: Seq<StructDef>) -> Seq<int>
    decreases ss.len(),
{
    if ss.len() == 0 {
        Seq::empty()
    } else if ss.last().type_params@.len() == 0 {
        plain_struct_positions(ss.drop_last()).push(ss.len() - 1)
    } else {
        plain_struct_positions(ss.drop_last())
    }
}

/// `o` is the specialization of function instantiation `x` of program `p`, with its body rewritten.
pub open spec fn function_instance<I, P>(
    o: Function,
    p: Program<I, P>,
    x: (Seq<char>, Seq<TypeAnnotationV>),
    inf: Seq<(u32, InferredSite)>,
) -> bool {
    let g = p.functions@[generic_function_at(p.functions@, x.0)];
    exists|mid: Function|
        #[trigger] specialized_function(mid, g, renamed(x.0, x.1), subst_of(g.type_params@, x.1), struct_insts_of(p, inf))
            && rewritten_function(o, mid, inf, func_insts_of(p, inf), struct_insts_of(p, inf))
}

/// `o` is the specialization of struct instantiation `x` of program `p`, with its members rewritten.
pub open spec fn struct_instance<I, P>(
    o: StructDef,
    p: Program<I, P>,
    x: (Seq<char>, Seq<TypeAnnotationV>),
    inf: Seq<(u32, InferredSite)>,
) -> bool {
    let g = p.structs@[generic_struct_at(p.structs@, x.0)];
    exists|mid: StructDef|
        #[trigger] specialized_struct(mid, g, renamed(x.0, x.1), subst_of(g.type_params@, x.1), struct_insts_of(p, inf))
            && rewritten_struct(o, mid, inf, func_insts_of(p, inf), struct_insts_of(p, inf))
}

/// Every recorded function instantiation is of a generic function of the program.
proof fn lemma_func_insts_generic(l: Seq<(Seq<char>, Seq<TypeAnnotationV>)>, xs: Seq<Site>, fns: Seq<Function>)
    requires
        forall|i: int| 0 <= i < l.len() ==> is_generic_function(fns, (#[trigger] l[i]).0),
    ensures
        forall|i: int| 0 <= i < add_func_insts(l, xs, fns).len() ==> is_generic_function(fns, (#[trigger] add_func_insts(l, xs, fns)[i]).0),
    decreases xs.len(),
{
    if xs.len() > 0 {
        lemma_func_insts_generic(l, xs.drop_last(), fns);
        let l0 = add_func_insts(l, xs.drop_last(), fns);
        let r = add_func_insts(l, xs, fns);
        assert forall|i: int| 0 <= i < r.len() implies is_generic_function(fns, (#[trigger] r[i]).0) by {
            if i < l0.len() {
                assert(r[i] == l0[i]);
            }
        }
    }
}

/// Every recorded struct instantiation is of a generic struct of the program.
proof fn lemma_struct_insts_generic(l: Seq<(Seq<char>, Seq<TypeAnnotationV>)>, xs: Seq<Site>, ss: Seq<StructDef>)
    requires
        forall|i: int| 0 <= i < l.len() ==> is_generic_struct(ss, (#[trigger] l[i]).0),
    ensures
        forall|i: int| 0 <= i < add_struct_insts(l, xs, ss).len() ==> is_generic_struct(ss, (#[trigger] add_struct_insts(l, xs, ss)[i]).0),
    decreases xs.len(),
{
    if xs.len() > 0 {
        lemma_struct_insts_generic(l, xs.drop_last(), ss);
        let l0 = add_struct_insts(l, xs.drop_last(), ss);
        let r = add_struct_insts(l, xs, ss);
        assert forall|i: int| 0 <= i < r.len() implies is_generic_struct(ss, (#[trigger] r[i]).0) by {
            if i < l0.len() {
                assert(r[i] == l0[i]);
            }
        }
    }
}

/// The generic function of a name is found where the program defines one.
proof fn lemma_generic_function_at(fns: Seq<Function>, name: Seq<char>)
    requires
        is_generic_function(fns, name),
    ensures
        0 <= generic_function_at(fns, name) < fns.len(),
    decreases fns.len(),
{
    if !(fns.last().name@ == name && fns.last().type_params@.len() > 0) {
        let i = choose|i: int| 0 <= i < fns.len() && (#[trigger] fns[i]).name@ == name && fns[i].type_params@.len() > 0;
        assert(fns.drop_last()[i] == fns[i]);
        lemma_generic_function_at(fns.drop_last(), name);
    }
}

/// The generic struct of a name is found where the program defines one.
proof fn lemma_generic_struct_at(ss: Seq<StructDef>, name: Seq<char>)
    requires
        is_generic_struct(ss, name),
    ensures
        0 <= generic_struct_at(ss, name) < ss.len(),
    decreases ss.len(),
{
    if !(ss.last().name@ == name && ss.last().type_params@.len() > 0) {
        let i = choose|i: int| 0 <= i < ss.len() && (#[trigger] ss[i]).name@ == name && ss[i].type_params@.len() > 0;
        assert(ss.drop_last()[i] == ss[i]);
        lemma_generic_struct_at(ss.drop_last(), name);
    }
}

/// The position of the last generic function of this name.
fn find_generic_function(fns: &Vec<Function>, name: &String) -> (r: usize)
    requires
        is_generic_function(fns@, name@),
    ensures
        r == generic_function_at(fns@, name@),
{
    proof { lemma_generic_function_at(fns@, name@); }
    let mut k: usize = fns.len();
    assert(fns@.take(k as int) =~= fns@);
    while k > 0
        invariant
            k <= fns@.len(),
            generic_function_at(fns@, name@) == generic_function_at(fns@.take(k as int), name@),
            0 <= generic_function_at(fns@, name@),
        decreases k,
    {
        assert(fns@.take(k as int).drop_last() =~= fns@.take(k - 1));
        if fns[k - 1].name.eq(name) && fns[k - 1].type_params.len() > 0 {
            return k - 1;
        }
        k = k - 1;
    }
    0
}

/// The position of the last generic struct of this name.
fn find_generic_struct(ss: &Vec<StructDef>, name: &String) -> (r: usize)
    requires
        is_generic_struct(ss@, name@),
    ensures
        r == generic_struct_at(ss@, name@),
{
    proof { lemma_generic_struct_at(ss@, name@); }
    let mut k: usize = ss.len();
    assert(ss@.take(k as int) =~= ss@);
    while k > 0
        invariant
            k <= ss@.len(),
            generic_struct_at(ss@, name@) == generic_struct_at(ss@.take(k as int), name@),
            0 <= generic_struct_at(ss@, name@),
        decreases k,
    {
        assert(ss@.take(k as int).drop_last() =~= ss@.take(k - 1));
        if ss[k - 1].name.eq(name) && ss[k - 1].type_params.len() > 0 {
            return k - 1;
        }
        k = k - 1;
    }
    0
}

/// Records the instantiations of a struct member's bodies.
fn collect_from_member(
    m: &StructMember,
    inf: &InferredTypeArgs,
    fns: &Vec<Function>,
    ss: &Vec<StructDef>,
    fi: &mut Vec<(String, Vec<TypeAnnotation>)>,
    si: &mut Vec<(String, Vec<TypeAnnotation>)>,
)
    ensures
        insts_after(final(fi)@, final(si)@, old(fi)@, old(si)@, member_sites(*m, inf.map@), fns@, ss@),
{
    let ghost fi0 = insts_view(fi@);
    let ghost si0 = insts_view(si@);
    match m {
        StructMember::Initializer { body, .. } => collect_from_block(body, inf, fns, ss, fi, si),
        StructMember::Method { body, .. } => collect_from_block(body, inf, fns, ss, fi, si),
        StructMember::ComputedProperty { getter, setter, .. } => {
            collect_from_block(getter, inf, fns, ss, fi, si);
            let ghost a = block_sites(*getter, inf.map@);
            let ghost b = match setter { Some(x) => block_sites(*x, inf.map@), None => Seq::<Site>::empty() };
            match setter {
                Some(x) => collect_from_block(x, inf, fns, ss, fi, si),
                None => {
                    assert(add_func_insts(add_func_insts(fi0, a, fns@), b, fns@) == add_func_insts(fi0, a, fns@));
                    assert(add_struct_insts(add_struct_insts(si0, a, ss@), b, ss@) == add_struct_insts(si0, a, ss@));
                },
            }
            proof {
                lemma_add_insts_concat(fi0, a, b, fns@, ss@);
                lemma_add_insts_concat(si0, a, b, fns@, ss@);
            }
        },
        StructMember::StoredProperty { .. } => {
            assert(add_func_insts(fi0, Seq::<Site>::empty(), fns@) == fi0);
            assert(add_struct_insts(si0, Seq::<Site>::empty(), ss@) == si0);
        },
    }
}

/// All generic instantiations of a program, functions and structs, each in
/// the order first met.
pub fn collect_instantiations<I, P>(p: &Program<I, P>, inf: &InferredTypeArgs) -> (r: (
    Vec<(String, Vec<TypeAnnotation>)>,
    Vec<(String, Vec<TypeAnnotation>)>,
))
    ensures
        insts_view(r.0@) == func_insts_of(*p, inf.map@),
        insts_view(r.1@) == struct_insts_of(*p, inf.map@),
{
    let mut fi: Vec<(String, Vec<TypeAnnotation>)> = Vec::new();
    let mut si: Vec<(String, Vec<TypeAnnotation>)> = Vec::new();
    let ghost e: Seq<(String, Vec<TypeAnnotation>)> = Seq::empty();
    assert(insts_view(fi@) =~= Seq::<(Seq<char>, Seq<TypeAnnotationV>)>::empty());
    assert(insts_view(si@) =~= Seq::<(Seq<char>, Seq<TypeAnnotationV>)>::empty());
    assert(insts_view(e) =~= Seq::<(Seq<char>, Seq<TypeAnnotationV>)>::empty());
    let ghost fs = p.functions@;
    let ghost sd = p.structs@;
    let ghost m = inf.map@;
    let mut k: usize = 0;
    assert(fs.take(0) =~= Seq::<Function>::empty());
    while k < p.functions.len()
        invariant
            k <= fs.len(),
            fs == p.functions@,
            sd == p.structs@,
            m == inf.map@,
            insts_view(e) == Seq::<(Seq<char>, Seq<TypeAnnotationV>)>::empty(),
            insts_after(fi@, si@, e, e, functions_sites(fs.take(k as int), m), fs, sd),
        decreases fs.len() - k,
    {
        assert(fs.take(k + 1).drop_last() =~= fs.take(k as int));
        assert(fs.take(k + 1).last() == fs[k as int]);
        proof {
            lemma_add_insts_concat(insts_view(e), functions_sites(fs.take(k as int), m), block_sites(fs[k as int].body, m), fs, sd);
        }
        collect_from_block(&p.functions[k].body, inf, &p.functions, &p.structs, &mut fi, &mut si);
        k = k + 1;
    }
    assert(fs.take(fs.len() as int) =~= fs);
    let ghost after_fns = functions_sites(fs, m);
    let mut k: usize = 0;
    assert(sd.take(0) =~= Seq::<StructDef>::empty());
    assert(after_fns + structs_sites(sd.take(0), m) =~= after_fns);
    while k < p.structs.len()
        invariant
            k <= sd.len(),
            fs == p.functions@,
            sd == p.structs@,
            m == inf.map@,
            after_fns == functions_sites(fs, m),
            insts_view(e) == Seq::<(Seq<char>, Seq<TypeAnnotationV>)>::empty(),
            insts_after(fi@, si@, e, e, after_fns + structs_sites(sd.take(k as int), m), fs, sd),
        decreases sd.len() - k,
    {
        assert(sd.take(k + 1).drop_last() =~= sd.take(k as int));
        assert(sd.take(k + 1).last() == sd[k as int]);
        let ghost before = after_fns + structs_sites(sd.take(k as int), m);
        let ghost ms = sd[k as int].members@;
        let members = &p.structs[k].members;
        let mut j: usize = 0;
        assert(ms.take(0) =~= Seq::<StructMember>::empty());
        assert(before + members_sites(ms.take(0), m) =~= before);
        while j < members.len()
            invariant
                j <= ms.len(),
                ms == members@,
                fs == p.functions@,
                sd == p.structs@,
                m == inf.map@,
                insts_view(e) == Seq::<(Seq<char>, Seq<TypeAnnotationV>)>::empty(),
                insts_after(fi@, si@, e, e, before + members_sites(ms.take(j as int), m), fs, sd),
            decreases ms.len() - j,
        {
            assert(ms.take(j + 1).drop_last() =~= ms.take(j as int));
            assert(ms.take(j + 1).last() == ms[j as int]);
            proof {
                lemma_add_insts_concat(insts_view(e), before + members_sites(ms.take(j as int), m), member_sites(ms[j as int], m), fs, sd);
                assert(before + members_sites(ms.take(j as int), m) + member_sites(ms[j as int], m) =~= before + members_sites(ms.take(j + 1), m));
            }
            collect_from_member(&members[j], inf, &p.functions, &p.structs, &mut fi, &mut si);
            j = j + 1;
        }
        assert(ms.take(ms.len() as int) =~= ms);
        assert(before + members_sites(ms, m) =~= after_fns + structs_sites(sd.take(k + 1), m));
        k = k + 1;
    }
    assert(sd.take(sd.len() as int) =~= sd);
    (fi, si)
}

/// `o` is program `p` monomorphized: the functions without type parameters,
/// in order, with their bodies rewritten to call specializations, then one
/// specialization per function instantiation, in the order first met; the same
/// for structs; module and import declarations and protocols as they were.
pub open spec fn monomorphized<I, P>(o: Program<I, P>, p: Program<I, P>, inf: Seq<(u32, InferredSite)>) -> bool {
    let fi = func_insts_of(p, inf);
    let si = struct_insts_of(p, inf);
    let pf = plain_function_positions(p.functions@);
    let ps = plain_struct_positions(p.structs@);
    &&& o.module_decls == p.module_decls
    &&& o.import_decls == p.import_decls
    &&& o.protocols == p.protocols
    &&& o.functions@.len() == pf.len() + fi.len()
    &&& forall|i: int| 0 <= i < pf.len() ==> rewritten_function(#[trigger] o.functions@[i], p.functions@[pf[i]], inf, fi, si)
    &&& forall|j: int| 0 <= j < fi.len() ==> function_instance(#[trigger] o.functions@[pf.len() + j], p, fi[j], inf)
    &&& o.structs@.len() == ps.len() + si.len()
    &&& forall|i: int| 0 <= i < ps.len() ==> rewritten_struct(#[trigger] o.structs@[i], p.structs@[ps[i]], inf, fi, si)
    &&& forall|j: int| 0 <= j < si.len() ==> struct_instance(#[trigger] o.structs@[ps.len() + j], p, si[j], inf)
}

/// The functions without type parameters, with their bodies rewritten.
fn rewrite_plain_functions(
    fns: &Vec<Function>,
    inf: &InferredTypeArgs,
    fi: &Vec<(String, Vec<TypeAnnotation>)>,
    si: &Vec<(String, Vec<TypeAnnotation>)>,
) -> (r: Vec<Function>)
    ensures
        r@.len() == plain_function_positions(fns@).len(),
        forall|i: int|
            0 <= i < r@.len() ==> rewritten_function(
                #[trigger] r@[i],
                fns@[plain_function_positions(fns@)[i]],
                inf.map@,
                insts_view(fi@),
                insts_view(si@),
            ),
{
    let ghost fs = fns@;
    let mut r: Vec<Function> = Vec::new();
    let mut k: usize = 0;
    assert(fs.take(0) =~= Seq::<Function>::empty());
    while k < fns.len()
        invariant
            k <= fs.len(),
            fs == fns@,
            r@.len() == plain_function_positions(fs.take(k as int)).len(),
            forall|i: int| 0 <= i < plain_function_positions(fs.take(k as int)).len() ==> 0 <= #[trigger] plain_function_positions(fs.take(k as int))[i] < k,
            forall|i: int|
                0 <= i < r@.len() ==> rewritten_function(
                    #[trigger] r@[i],
                    fs[plain_function_positions(fs.take(k as int))[i]],
                    inf.map@,
                    insts_view(fi@),
                    insts_view(si@),
                ),
        decreases fs.len() - k,
    {
        assert(fs.take(k + 1).drop_last() =~= fs.take(k as int));
        assert(fs.take(k + 1).last() == fs[k as int]);
        if fns[k].type_params.len() == 0 {
            r.push(rewrite_function(&fns[k], inf, fi, si));
        }
        k = k + 1;
    }
    assert(fs.take(fs.len() as int) =~= fs);
    r
}

/// The structs without type parameters, with their members rewritten.
fn rewrite_plain_structs(
    ss: &Vec<StructDef>,
    inf: &InferredTypeArgs,
    fi: &Vec<(String, Vec<TypeAnnotation>)>,
    si: &Vec<(String, Vec<TypeAnnotation>)>,
) -> (r: Vec<StructDef>)
    ensures
        r@.len() == plain_struct_positions(ss@).len(),
        forall|i: int|
            0 <= i < r@.len() ==> rewritten_struct(
                #[trigger] r@[i],
                ss@[plain_struct_positions(ss@)[i]],
                inf.map@,
                insts_view(fi@),
                insts_view(si@),
            ),
{
    let ghost sd = ss@;
    let mut r: Vec<StructDef> = Vec::new();
    let mut k: usize = 0;
    assert(sd.take(0) =~= Seq::<StructDef>::empty());
    while k < ss.len()
        invariant
            k <= sd.len(),
            sd == ss@,
            r@.len() == plain_struct_positions(sd.take(k as int)).len(),
            forall|i: int| 0 <= i < plain_struct_positions(sd.take(k as int)).len() ==> 0 <= #[trigger] plain_struct_positions(sd.take(k as int))[i] < k,
            forall|i: int|
                0 <= i < r@.len() ==> rewritten_struct(
                    #[trigger] r@[i],
                    sd[plain_struct_positions(sd.take(k as int))[i]],
                    inf.map@,
                    insts_view(fi@),
                    insts_view(si@),
                ),
        decreases sd.len() - k,
    {
        assert(sd.take(k + 1).drop_last() =~= sd.take(k as int));
        assert(sd.take(k + 1).last() == sd[k as int]);
        if ss[k].type_params.len() == 0 {
            r.push(rewrite_struct(&ss[k], inf, fi, si));
        }
        k = k + 1;
    }
    assert(sd.take(sd.len() as int) =~= sd);
    r
}

/// The substitution of a specialization, as `subst_of` describes it.
fn substitution_for(tps: &Vec<TypeParam>, args: &Vec<TypeAnnotation>) -> (r: Vec<(String, TypeAnnotation)>)
    ensures
        subst_pairs(r@) == subst_of(tps@, annotation_views(args@)),
{
    let r = build_substitution(tps, args);
    proof {
        lemma_annotation_views(args@);
        assert(subst_pairs(r@) =~= subst_of(tps@, annotation_views(args@)));
    }
    r
}

/// Every function instantiation of `p` has its specialization, by name, among `o`'s functions.
pub open spec fn specializations_present<I, P>(o: Program<I, P>, p: Program<I, P>, inf: Seq<(u32, InferredSite)>) -> bool {
    forall|j: int|
        0 <= j < func_insts_of(p, inf).len() ==> has_function_named(o, renamed(
            #[trigger] func_insts_of(p, inf)[j].0,
            func_insts_of(p, inf)[j].1,
        ))
}

/// Whether the program has a function of this name.
pub open spec fn has_function_named<I, P>(o: Program<I, P>, name: Seq<char>) -> bool {
    exists|k: int| 0 <= k < o.functions@.len() && (#[trigger] o.functions@[k]).name@ == name
}

/// Monomorphizes a program: collects the instantiations of generic functions
/// and structs at calls and struct literals (with their written or inferred
/// type arguments), makes one specialization of each by substituting its type
/// arguments, rewrites call sites to name the specializations, and drops the
/// generic definitions.
pub fn monomorphize<I, P>(program: Program<I, P>, inferred: &InferredTypeArgs) -> (r: Program<I, P>)
    ensures
        monomorphized(r, program, inferred.map@),
        specializations_present(r, program, inferred.map@),
{
    let ghost p = program;
    let ghost m = inferred.map@;
    let (fi, si) = collect_instantiations(&program, inferred);
    let ghost fiv = insts_view(fi@);
    let ghost siv = insts_view(si@);
    proof {
        lemma_func_insts_generic(Seq::empty(), program_sites(p, m), p.functions@);
        lemma_struct_insts_generic(Seq::empty(), program_sites(p, m), p.structs@);
    }
    let mut functions = rewrite_plain_functions(&program.functions, inferred, &fi, &si);
    let ghost npf = functions@.len();
    let mut j: usize = 0;
    while j < fi.len()
        invariant
            j <= fi@.len(),
            p == program,
            m == inferred.map@,
            fiv == insts_view(fi@),
            siv == insts_view(si@),
            fiv == func_insts_of(p, m),
            siv == struct_insts_of(p, m),
            forall|i: int| 0 <= i < fiv.len() ==> is_generic_function(p.functions@, (#[trigger] fiv[i]).0),
            npf == plain_function_positions(p.functions@).len(),
            functions@.len() == npf + j,
            forall|i: int| 0 <= i < npf ==> rewritten_function(
                #[trigger] functions@[i],
                p.functions@[plain_function_positions(p.functions@)[i]],
                m,
                fiv,
                siv,
            ),
            forall|i: int| 0 <= i < j ==> function_instance(#[trigger] functions@[npf + i], p, fiv[i], m),
        decreases fi@.len() - j,
    {
        assert(fiv[j as int] == (fi@[j as int].0@, annotation_views(fi@[j as int].1@)));
        assert(is_generic_function(p.functions@, fiv[j as int].0));
        let pos = find_generic_function(&program.functions, &fi[j].0);
        proof { lemma_generic_function_at(p.functions@, fiv[j as int].0); }
        let g = &program.functions[pos];
        let subst = substitution_for(&g.type_params, &fi[j].1);
        let mangled = mangle_name(fi[j].0.as_str(), &fi[j].1);
        let sf = specialize_function(g, mangled.as_str(), &subst, &si);
        let rf = rewrite_function(&sf, inferred, &fi, &si);
        assert(specialized_function(sf, p.functions@[generic_function_at(p.functions@, fiv[j as int].0)], renamed(fiv[j as int].0, fiv[j as int].1), subst_of(p.functions@[generic_function_at(p.functions@, fiv[j as int].0)].type_params@, fiv[j as int].1), struct_insts_of(p, m)));
        assert(function_instance(rf, p, fiv[j as int], m));
        let ghost before = functions@;
        functions.push(rf);
        assert forall|i: int| 0 <= i < npf implies rewritten_function(
            #[trigger] functions@[i],
            p.functions@[plain_function_positions(p.functions@)[i]],
            m,
            fiv,
            siv,
        ) by {
            assert(functions@[i] == before[i]);
        }
        assert forall|i: int| 0 <= i < j + 1 implies function_instance(#[trigger] functions@[npf + i], p, fiv[i], m) by {
            if i < j {
                assert(functions@[npf + i] == before[npf + i]);
            }
        }
        j = j + 1;
    }
    let mut structs = rewrite_plain_structs(&program.structs, inferred, &fi, &si);
    let ghost nps = structs@.len();
    let mut j: usize = 0;
    while j < si.len()
        invariant
            j <= si@.len(),
            p == program,
            m == inferred.map@,
            fiv == insts_view(fi@),
            siv == insts_view(si@),
            fiv == func_insts_of(p, m),
            siv == struct_insts_of(p, m),
            forall|i: int| 0 <= i < siv.len() ==> is_generic_struct(p.structs@, (#[trigger] siv[i]).0),
            nps == plain_struct_positions(p.structs@).len(),
            structs@.len() == nps + j,
            forall|i: int| 0 <= i < nps ==> rewritten_struct(
                #[trigger] structs@[i],
                p.structs@[plain_struct_positions(p.structs@)[i]],
                m,
                fiv,
                siv,
            ),
            forall|i: int| 0 <= i < j ==> struct_instance(#[trigger] structs@[nps + i], p, siv[i], m),
        decreases si@.len() - j,
    {
        assert(siv[j as int] == (si@[j as int].0@, annotation_views(si@[j as int].1@)));
        assert(is_generic_struct(p.structs@, siv[j as int].0));
        let pos = find_generic_struct(&program.structs, &si[j].0);
        proof { lemma_generic_struct_at(p.structs@, siv[j as int].0); }
        let g = &program.structs[pos];
        let subst = substitution_for(&g.type_params, &si[j].1);
        let mangled = mangle_name(si[j].0.as_str(), &si[j].1);
        let sd = specialize_struct(g, mangled.as_str(), &subst, &si);
        let rs = rewrite_struct(&sd, inferred, &fi, &si);
        assert(specialized_struct(sd, p.structs@[generic_struct_at(p.structs@, siv[j as int].0)], renamed(siv[j as int].0, siv[j as int].1), subst_of(p.structs@[generic_struct_at(p.structs@, siv[j as int].0)].type_params@, siv[j as int].1), struct_insts_of(p, m)));
        assert(struct_instance(rs, p, siv[j as int], m));
        let ghost before = structs@;
        structs.push(rs);
        assert forall|i: int| 0 <= i < nps implies rewritten_struct(
            #[trigger] structs@[i],
            p.structs@[plain_struct_positions(p.structs@)[i]],
            m,
            fiv,
            siv,
        ) by {
            assert(structs@[i] == before[i]);
        }
        assert forall|i: int| 0 <= i < j + 1 implies struct_instance(#[trigger] structs@[nps + i], p, siv[i], m) by {
            if i < j {
                assert(structs@[nps + i] == before[nps + i]);
            }
        }
        j = j + 1;
    }
    let Program { module_decls, import_decls, structs: _, protocols, functions: _ } = program;
    let r = Program { module_decls, import_decls, structs, protocols, functions };
    assert forall|j: int| 0 <= j < func_insts_of(p, m).len() implies has_function_named(r, renamed(
        #[trigger] func_insts_of(p, m)[j].0,
        func_insts_of(p, m)[j].1,
    )) by {
        let k = npf + j;
        assert(fiv[j] == func_insts_of(p, m)[j]);
        assert(function_instance(r.functions@[k], p, fiv[j], m));
        let g = p.functions@[generic_function_at(p.functions@, fiv[j].0)];
        let mid = choose|mid: Function|
            #[trigger] specialized_function(mid, g, renamed(fiv[j].0, fiv[j].1), subst_of(g.type_params@, fiv[j].1), struct_insts_of(p, m))
                && rewritten_function(r.functions@[k], mid, m, func_insts_of(p, m), struct_insts_of(p, m));
        assert(r.functions@[k].name@ == mid.name@);
        assert(r.functions@[k].name@ == renamed(fiv[j].0, fiv[j].1));
    }
    assert(specializations_present(r, p, m));
    r
}

} // verus!
