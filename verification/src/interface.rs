//! Module interfaces: what a module exports, as values, as text, and the
//! framing of interface files.
use vstd::prelude::*;

use crate::ast::{TypeParam, Visibility};
use crate::bir::instruction::BirModule;
use crate::bir::printer::{join, lemma_join_step};
use crate::error::BengalError;
use crate::package::ModulePath;
use crate::semantic::{is_resolved, Type};
use crate::text::{decimal, push_decimal, push_str};

verus! {

/// The version of the binary interface format.
pub const FORMAT_VERSION: u32 = 2;

/// The version of the text interface format.
pub const TEXT_FORMAT_VERSION: u32 = 1;

/// A type in a module interface.
#[derive(Debug, PartialEq, Eq)]
pub enum InterfaceType {
    I32,
    I64,
    F32,
    F64,
    Bool,
    Unit,
    Struct(String),
    TypeParam { name: String, bound: Option<String> },
    Generic { name: String, args: Vec<InterfaceType> },
    Array { element: Box<InterfaceType>, size: u64 },
}

/// The model of an interface type.
pub enum IType {
    I32,
    I64,
    F32,
    F64,
    Bool,
    Unit,
    Struct(Seq<char>),
    TypeParam { name: Seq<char>, bound: Option<Seq<char>> },
    Generic { name: Seq<char>, args: Seq<IType> },
    Array { element: Box<IType>, size: u64 },
}

/// The text of an optional string.
pub open spec fn opt_view(o: Option<String>) -> Option<Seq<char>> {
    match o {
        Some(s) => Some(s@),
        None => None,
    }
}

impl View for InterfaceType {
    type V = IType;

    open spec fn view(&self) -> IType {
        itype(*self)
    }
}

/// The model of an interface type.
pub open spec fn itype(t: InterfaceType) -> IType
    decreases t,
{
    match t {
        InterfaceType::I32 => IType::I32,
        InterfaceType::I64 => IType::I64,
        InterfaceType::F32 => IType::F32,
        InterfaceType::F64 => IType::F64,
        InterfaceType::Bool => IType::Bool,
        InterfaceType::Unit => IType::Unit,
        InterfaceType::Struct(name) => IType::Struct(name@),
        InterfaceType::TypeParam { name, bound } => IType::TypeParam { name: name@, bound: opt_view(bound) },
        InterfaceType::Generic { name, args } => IType::Generic { name: name@, args: itypes(args@) },
        InterfaceType::Array { element, size } => IType::Array { element: Box::new(itype(*element)), size },
    }
}

/// The models of a list of interface types.
pub open spec fn itypes(ts: Seq<InterfaceType>) -> Seq<IType>
    decreases ts,
{
    if ts.len() == 0 {
        Seq::empty()
    } else {
        itypes(ts.drop_last()).push(itype(ts.last()))
    }
}

/// `itypes` maps element by element.
pub proof fn lemma_itypes(ts: Seq<InterfaceType>)
    ensures
        itypes(ts).len() == ts.len(),
        forall|i: int| 0 <= i < ts.len() ==> #[trigger] itypes(ts)[i] == ts[i]@,
    decreases ts.len(),
{
    if ts.len() > 0 {
        lemma_itypes(ts.drop_last());
        assert forall|i: int| 0 <= i < ts.len() implies #[trigger] itypes(ts)[i] == ts[i]@ by {
            if i < ts.len() - 1 {
                assert(ts.drop_last()[i] == ts[i]);
            }
        }
    }
}

/// The interface model of a resolved semantic type.
pub open spec fn interface_of(t: Type) -> IType
    decreases t,
{
    match t {
        Type::I32 => IType::I32,
        Type::I64 => IType::I64,
        Type::F32 => IType::F32,
        Type::F64 => IType::F64,
        Type::Bool => IType::Bool,
        Type::Unit => IType::Unit,
        Type::Struct(name) => IType::Struct(name@),
        Type::TypeParam { name, bound } => IType::TypeParam { name: name@, bound: opt_view(bound) },
        Type::Generic { name, args } => IType::Generic { name: name@, args: interface_of_all(args@) },
        Type::Array { element, size } => IType::Array { element: Box::new(interface_of(*element)), size },
        _ => IType::Unit,
    }
}

/// The interface models of a list of resolved semantic types.
pub open spec fn interface_of_all(ts: Seq<Type>) -> Seq<IType>
    decreases ts,
{
    if ts.len() == 0 {
        Seq::empty()
    } else {
        interface_of_all(ts.drop_last()).push(interface_of(ts.last()))
    }
}

/// A copy of an optional string.
fn copy_opt(o: &Option<String>) -> (r: Option<String>)
    ensures
        opt_view(r) == opt_view(*o),
{
    match o {
        Some(s) => Some(s.clone()),
        None => None,
    }
}

impl InterfaceType {
    /// The interface type of a fully resolved semantic type.
    pub fn from_type(ty: &Type) -> (r: InterfaceType)
        requires
            is_resolved(*ty),
        ensures
            r@ == interface_of(*ty),
        decreases ty,
    {
        match ty {
            Type::I32 => InterfaceType::I32,
            Type::I64 => InterfaceType::I64,
            Type::F32 => InterfaceType::F32,
            Type::F64 => InterfaceType::F64,
            Type::Bool => InterfaceType::Bool,
            Type::Unit => InterfaceType::Unit,
            Type::Struct(name) => InterfaceType::Struct(name.clone()),
            Type::TypeParam { name, bound } => InterfaceType::TypeParam { name: name.clone(), bound: copy_opt(bound) },
            Type::Generic { name, args } => {
                let converted = interface_types_of(args);
                InterfaceType::Generic { name: name.clone(), args: converted }
            },
            Type::Array { element, size } => InterfaceType::Array {
                element: Box::new(InterfaceType::from_type(element)),
                size: *size,
            },
            _ => InterfaceType::Unit,
        }
    }
}


/// The interface types of a list of fully resolved semantic types.
fn interface_types_of(ts: &Vec<Type>) -> (r: Vec<InterfaceType>)
    requires
        forall|i: int| 0 <= i < ts@.len() ==> is_resolved(#[trigger] ts@[i]),
    ensures
        itypes(r@) == interface_of_all(ts@),
    decreases ts,
{
    let mut r: Vec<InterfaceType> = Vec::new();
    let mut k: usize = 0;
    assert(ts@.take(0) =~= Seq::<Type>::empty());
    while k < ts.len()
        invariant
            k <= ts@.len(),
            forall|i: int| 0 <= i < ts@.len() ==> is_resolved(#[trigger] ts@[i]),
            itypes(r@) == interface_of_all(ts@.take(k as int)),
        decreases ts@.len() - k,
    {
        assert(decreases_to!(ts => ts@[k as int]));
        assert(ts@.take(k + 1).drop_last() =~= ts@.take(k as int));
        let ghost before = r@;
        r.push(InterfaceType::from_type(&ts[k]));
        assert(r@.drop_last() =~= before);
        k = k + 1;
    }
    assert(ts@.take(ts@.len() as int) =~= ts@);
    r
}


impl InterfaceType {
    /// A copy of this type.
    pub fn copy(&self) -> (r: InterfaceType)
        ensures
            r@ == self@,
        decreases self,
    {
        match self {
            InterfaceType::I32 => InterfaceType::I32,
            InterfaceType::I64 => InterfaceType::I64,
            InterfaceType::F32 => InterfaceType::F32,
            InterfaceType::F64 => InterfaceType::F64,
            InterfaceType::Bool => InterfaceType::Bool,
            InterfaceType::Unit => InterfaceType::Unit,
            InterfaceType::Struct(name) => InterfaceType::Struct(name.clone()),
            InterfaceType::TypeParam { name, bound } => InterfaceType::TypeParam {
                name: name.clone(),
                bound: copy_opt(bound),
            },
            InterfaceType::Generic { name, args } => InterfaceType::Generic { name: name.clone(), args: copy_itypes(args) },
            InterfaceType::Array { element, size } => InterfaceType::Array {
                element: Box::new((**element).copy()),
                size: *size,
            },
        }
    }
}

/// A copy of a list of interface types.
fn copy_itypes(ts: &Vec<InterfaceType>) -> (r: Vec<InterfaceType>)
    ensures
        itypes(r@) == itypes(ts@),
    decreases ts,
{
    let mut r: Vec<InterfaceType> = Vec::new();
    let mut k: usize = 0;
    assert(ts@.take(0) =~= Seq::<InterfaceType>::empty());
    while k < ts.len()
        invariant
            k <= ts@.len(),
            itypes(r@) == itypes(ts@.take(k as int)),
        decreases ts@.len() - k,
    {
        assert(decreases_to!(ts => ts@[k as int]));
        assert(ts@.take(k + 1).drop_last() =~= ts@.take(k as int));
        let ghost before = r@;
        r.push(ts[k].copy());
        assert(r@.drop_last() =~= before);
        k = k + 1;
    }
    assert(ts@.take(ts@.len() as int) =~= ts@);
    r
}

impl Clone for InterfaceType {
    fn clone(&self) -> (r: InterfaceType)
        ensures
            r@ == self@,
    {
        self.copy()
    }
}

/// A type parameter of an exported generic declaration.
#[derive(Debug, Clone, PartialEq, Eq)]
pub struct InterfaceTypeParam {
    pub name: String,
    pub bound: Option<String>,
}

impl InterfaceTypeParam {
    /// The interface form of a declared type parameter.
    pub fn from_type_param(tp: &TypeParam) -> (r: InterfaceTypeParam)
        ensures
            r.name@ == tp.name@,
            opt_view(r.bound) == opt_view(tp.bound),
    {
        InterfaceTypeParam { name: tp.name.clone(), bound: copy_opt(&tp.bound) }
    }
}

/// What a module exports.
#[derive(Debug, Clone, PartialEq, Eq)]
pub struct ModuleInterface {
    pub functions: Vec<InterfaceFuncEntry>,
    pub structs: Vec<InterfaceStructEntry>,
    pub protocols: Vec<InterfaceProtocolEntry>,
}

/// An exported function.
#[derive(Debug, Clone, PartialEq, Eq)]
pub struct InterfaceFuncEntry {
    pub visibility: Visibility,
    pub name: String,
    pub sig: InterfaceFuncSig,
}

/// A function's signature.
#[derive(Debug, Clone, PartialEq, Eq)]
pub struct InterfaceFuncSig {
    pub type_params: Vec<InterfaceTypeParam>,
    pub params: Vec<(String, InterfaceType)>,
    pub return_type: InterfaceType,
}

/// An exported struct.
#[derive(Debug, Clone, PartialEq, Eq)]
pub struct InterfaceStructEntry {
    pub visibility: Visibility,
    pub name: String,
    pub type_params: Vec<InterfaceTypeParam>,
    pub conformances: Vec<String>,
    pub fields: Vec<(String, InterfaceType)>,
    pub methods: Vec<InterfaceMethodSig>,
    pub computed: Vec<InterfaceComputedProp>,
    pub init_params: Vec<(String, InterfaceType)>,
}

/// A method's signature.
#[derive(Debug, Clone, PartialEq, Eq)]
pub struct InterfaceMethodSig {
    pub name: String,
    pub params: Vec<(String, InterfaceType)>,
    pub return_type: InterfaceType,
}

/// A computed property of a struct.
#[derive(Debug, Clone, PartialEq, Eq)]
pub struct InterfaceComputedProp {
    pub name: String,
    pub ty: InterfaceType,
    pub has_setter: bool,
}

/// An exported protocol.
#[derive(Debug, Clone, PartialEq, Eq)]
pub struct InterfaceProtocolEntry {
    pub visibility: Visibility,
    pub name: String,
    pub methods: Vec<InterfaceMethodSig>,
    pub properties: Vec<InterfacePropertyReq>,
}

/// A property that a protocol requires.
#[derive(Debug, Clone, PartialEq, Eq)]
pub struct InterfacePropertyReq {
    pub name: String,
    pub ty: InterfaceType,
    pub has_setter: bool,
}

/// The contents of an interface file: the package's name, and the BIR and the
/// interface of each of its modules.
pub struct BengalModFile {
    pub package_name: String,
    pub modules: Vec<(ModulePath, BirModule)>,
    pub interfaces: Vec<(ModulePath, ModuleInterface)>,
}


/// The text of an interface type.
pub open spec fn itype_text(t: IType) -> Seq<char>
    decreases t,
{
    match t {
        IType::I32 => "Int32"@,
        IType::I64 => "Int64"@,
        IType::F32 => "Float32"@,
        IType::F64 => "Float64"@,
        IType::Bool => "Bool"@,
        IType::Unit => "Void"@,
        IType::Struct(name) => name,
        IType::TypeParam { name, .. } => name,
        IType::Generic { name, args } => name + "<"@ + itypes_text(args) + ">"@,
        IType::Array { element, size } => "["@ + itype_text(*element) + "; "@ + decimal(size as nat) + "]"@,
    }
}

/// The texts of a list of interface types, separated by `", "`.
pub open spec fn itypes_text(ts: Seq<IType>) -> Seq<char>
    decreases ts,
{
    if ts.len() == 0 {
        Seq::empty()
    } else if ts.len() == 1 {
        itype_text(ts[0])
    } else {
        itypes_text(ts.drop_last()) + ", "@ + itype_text(ts[ts.len() - 1])
    }
}

/// The keyword of a visibility in interface text: anything not exported reads `internal`.
pub open spec fn visibility_text(v: Visibility) -> Seq<char> {
    match v {
        Visibility::Public => "public"@,
        Visibility::Package => "package"@,
        _ => "internal"@,
    }
}

/// `T` or `T: Bound`.
pub open spec fn type_param_text(tp: InterfaceTypeParam) -> Seq<char> {
    match tp.bound {
        Some(b) => tp.name@ + ": "@ + b@,
        None => tp.name@,
    }
}

/// `<T, U: Bound>` for a generic declaration, nothing otherwise.
pub open spec fn type_params_text(tps: Seq<InterfaceTypeParam>) -> Seq<char> {
    if tps.len() == 0 {
        Seq::empty()
    } else {
        "<"@ + join(Seq::new(tps.len(), |i: int| type_param_text(tps[i]))) + ">"@
    }
}

/// `name: Type` for each parameter, separated by `", "`.
pub open spec fn params_text(ps: Seq<(String, InterfaceType)>) -> Seq<char> {
    join(Seq::new(ps.len(), |i: int| ps[i].0@ + ": "@ + itype_text(ps[i].1@)))
}

/// ` -> Type`, or nothing for `Void`.
pub open spec fn return_text(t: IType) -> Seq<char> {
    match t {
        IType::Unit => Seq::empty(),
        _ => " -> "@ + itype_text(t),
    }
}

/// `{ get set }` or `{ get }`.
pub open spec fn accessor_text(has_setter: bool) -> Seq<char> {
    if has_setter {
        "{ get set }"@
    } else {
        "{ get }"@
    }
}

/// The line of an exported function.
pub open spec fn function_line(f: InterfaceFuncEntry) -> Seq<char> {
    visibility_text(f.visibility) + " func "@ + f.name@ + type_params_text(f.sig.type_params@) + "("@ + params_text(
        f.sig.params@,
    ) + ")"@ + return_text(f.sig.return_type@) + ";\n"@
}

/// The lines of a list of exported functions.
pub open spec fn function_lines(fs: Seq<InterfaceFuncEntry>) -> Seq<char>
    decreases fs.len(),
{
    if fs.len() == 0 {
        Seq::empty()
    } else {
        function_lines(fs.drop_last()) + function_line(fs.last())
    }
}

/// The line of a method, indented.
pub open spec fn method_line(m: InterfaceMethodSig) -> Seq<char> {
    "  func "@ + m.name@ + "("@ + params_text(m.params@) + ")"@ + return_text(m.return_type@) + ";\n"@
}

/// The lines of a list of methods.
pub open spec fn method_lines(ms: Seq<InterfaceMethodSig>) -> Seq<char>
    decreases ms.len(),
{
    if ms.len() == 0 {
        Seq::empty()
    } else {
        method_lines(ms.drop_last()) + method_line(ms.last())
    }
}

/// The lines of a struct's stored properties.
pub open spec fn field_lines(fs: Seq<(String, InterfaceType)>) -> Seq<char>
    decreases fs.len(),
{
    if fs.len() == 0 {
        Seq::empty()
    } else {
        field_lines(fs.drop_last()) + "  var "@ + fs.last().0@ + ": "@ + itype_text(fs.last().1@) + ";\n"@
    }
}

/// The lines of a struct's computed properties.
pub open spec fn computed_lines(cs: Seq<InterfaceComputedProp>) -> Seq<char>
    decreases cs.len(),
{
    if cs.len() == 0 {
        Seq::empty()
    } else {
        computed_lines(cs.drop_last()) + "  var "@ + cs.last().name@ + ": "@ + itype_text(cs.last().ty@) + " "@
            + accessor_text(cs.last().has_setter) + ";\n"@
    }
}

/// The lines of a protocol's property requirements.
pub open spec fn property_lines(ps: Seq<InterfacePropertyReq>) -> Seq<char>
    decreases ps.len(),
{
    if ps.len() == 0 {
        Seq::empty()
    } else {
        property_lines(ps.drop_last()) + "  var "@ + ps.last().name@ + ": "@ + itype_text(ps.last().ty@) + " "@
            + accessor_text(ps.last().has_setter) + ";\n"@
    }
}

/// `: P, Q` for a struct with conformances, nothing otherwise.
pub open spec fn conformances_text(cs: Seq<String>) -> Seq<char> {
    if cs.len() == 0 {
        Seq::empty()
    } else {
        ": "@ + join(Seq::new(cs.len(), |i: int| cs[i]@))
    }
}

/// The initializer line of a struct, when it has parameters.
pub open spec fn init_line(ps: Seq<(String, InterfaceType)>) -> Seq<char> {
    if ps.len() == 0 {
        Seq::empty()
    } else {
        "  init("@ + params_text(ps) + ");\n"@
    }
}

/// The text of an exported struct.
pub open spec fn struct_text(st: InterfaceStructEntry) -> Seq<char> {
    visibility_text(st.visibility) + " struct "@ + st.name@ + type_params_text(st.type_params@) + conformances_text(
        st.conformances@,
    ) + " {\n"@ + field_lines(st.fields@) + computed_lines(st.computed@) + init_line(st.init_params@) + method_lines(
        st.methods@,
    ) + "}\n"@
}

/// The texts of a list of exported structs.
pub open spec fn struct_texts(ss: Seq<InterfaceStructEntry>) -> Seq<char>
    decreases ss.len(),
{
    if ss.len() == 0 {
        Seq::empty()
    } else {
        struct_texts(ss.drop_last()) + struct_text(ss.last())
    }
}

/// The text of an exported protocol.
pub open spec fn protocol_text(p: InterfaceProtocolEntry) -> Seq<char> {
    visibility_text(p.visibility) + " protocol "@ + p.name@ + " {\n"@ + method_lines(p.methods@) + property_lines(
        p.properties@,
    ) + "}\n"@
}

/// The texts of a list of exported protocols.
pub open spec fn protocol_texts(ps: Seq<InterfaceProtocolEntry>) -> Seq<char>
    decreases ps.len(),
{
    if ps.len() == 0 {
        Seq::empty()
    } else {
        protocol_texts(ps.drop_last()) + protocol_text(ps.last())
    }
}

/// The text form of a module interface: a version line, then the functions,
/// the structs and the protocols, each non-empty section after the first
/// preceded by an empty line.
pub open spec fn interface_text(iface: ModuleInterface) -> Seq<char> {
    let fs = iface.functions@;
    let ss = iface.structs@;
    let ps = iface.protocols@;
    "// bengal-interface-format-version: "@ + decimal(TEXT_FORMAT_VERSION as nat) + "\n"@ + function_lines(fs) + (if ss.len()
        == 0 {
        Seq::empty()
    } else {
        (if fs.len() > 0 {
            "\n"@
        } else {
            Seq::empty()
        }) + struct_texts(ss)
    }) + (if ps.len() == 0 {
        Seq::empty()
    } else {
        (if fs.len() > 0 || ss.len() > 0 {
            "\n"@
        } else {
            Seq::empty()
        }) + protocol_texts(ps)
    })
}


/// One more type of a joined list of types.
proof fn lemma_itypes_text_step(ts: Seq<IType>, k: int)
    requires
        0 <= k < ts.len(),
    ensures
        itypes_text(ts.take(k + 1)) == if k == 0 {
            itype_text(ts[0])
        } else {
            itypes_text(ts.take(k)) + ", "@ + itype_text(ts[k])
        },
{
    assert(ts.take(k + 1).drop_last() =~= ts.take(k));
    assert(ts.take(k + 1)[0] == ts[0]);
}

/// Appends the text of an interface type.
fn push_itype(out: &mut String, ty: &InterfaceType)
    ensures
        final(out)@ == old(out)@ + itype_text(ty@),
    decreases ty,
{
    let ghost start = out@;
    match ty {
        InterfaceType::I32 => push_str(out, "Int32"),
        InterfaceType::I64 => push_str(out, "Int64"),
        InterfaceType::F32 => push_str(out, "Float32"),
        InterfaceType::F64 => push_str(out, "Float64"),
        InterfaceType::Bool => push_str(out, "Bool"),
        InterfaceType::Unit => push_str(out, "Void"),
        InterfaceType::Struct(name) => push_str(out, name.as_str()),
        InterfaceType::TypeParam { name, .. } => push_str(out, name.as_str()),
        InterfaceType::Generic { name, args } => {
            push_str(out, name.as_str());
            push_str(out, "<");
            push_itypes(out, args);
            push_str(out, ">");
        },
        InterfaceType::Array { element, size } => {
            push_str(out, "[");
            push_itype(out, element);
            push_str(out, "; ");
            push_decimal(out, *size);
            push_str(out, "]");
        },
    }
    assert(out@ =~= start + itype_text(ty@));
}

/// Appends the texts of a list of interface types, separated by `", "`.
fn push_itypes(out: &mut String, ts: &Vec<InterfaceType>)
    ensures
        final(out)@ == old(out)@ + itypes_text(itypes(ts@)),
    decreases ts,
{
    let ghost start = out@;
    let ghost vs = itypes(ts@);
    proof { lemma_itypes(ts@); }
    let mut k: usize = 0;
    assert(vs.take(0) =~= Seq::<IType>::empty());
    while k < ts.len()
        invariant
            k <= ts@.len(),
            vs == itypes(ts@),
            vs.len() == ts@.len(),
            forall|i: int| 0 <= i < ts@.len() ==> #[trigger] vs[i] == ts@[i]@,
            out@ == start + itypes_text(vs.take(k as int)),
        decreases ts@.len() - k,
    {
        assert(decreases_to!(ts => ts@[k as int]));
        proof { lemma_itypes_text_step(vs, k as int); }
        if k > 0 {
            push_str(out, ", ");
        }
        push_itype(out, &ts[k]);
        k = k + 1;
    }
    assert(vs.take(ts@.len() as int) =~= vs);
}

/// The text of an interface type.
pub fn emit_type(ty: &InterfaceType) -> (r: String)
    ensures
        r@ == itype_text(ty@),
{
    let mut r = String::new();
    push_itype(&mut r, ty);
    assert(r@ =~= itype_text(ty@));
    r
}

/// The keyword of a visibility in interface text.
pub fn emit_visibility(vis: Visibility) -> (r: &'static str)
    ensures
        r@ == visibility_text(vis),
{
    match vis {
        Visibility::Public => "public",
        Visibility::Package => "package",
        _ => "internal",
    }
}

/// `<T, U: Bound>` for a generic declaration, nothing otherwise.
pub fn emit_type_params(tps: &Vec<InterfaceTypeParam>) -> (r: String)
    ensures
        r@ == type_params_text(tps@),
{
    let mut out = String::new();
    if tps.len() == 0 {
        assert(out@ =~= type_params_text(tps@));
        return out;
    }
    let ghost parts = Seq::new(tps@.len(), |i: int| type_param_text(tps@[i]));
    push_str(&mut out, "<");
    let mut k: usize = 0;
    assert(parts.take(0) =~= Seq::<Seq<char>>::empty());
    while k < tps.len()
        invariant
            k <= tps@.len(),
            parts == Seq::new(tps@.len(), |i: int| type_param_text(tps@[i])),
            out@ == "<"@ + join(parts.take(k as int)),
        decreases tps@.len() - k,
    {
        proof { lemma_join_step(parts, k as int); }
        if k > 0 {
            push_str(&mut out, ", ");
        }
        let ghost before = out@;
        push_str(&mut out, tps[k].name.as_str());
        match &tps[k].bound {
            Some(b) => {
                push_str(&mut out, ": ");
                push_str(&mut out, b.as_str());
            },
            None => {},
        }
        assert(out@ =~= before + parts[k as int]);
        k = k + 1;
    }
    assert(parts.take(tps@.len() as int) =~= parts);
    push_str(&mut out, ">");
    assert(out@ =~= type_params_text(tps@));
    out
}

/// `name: Type` for each parameter, separated by `", "`.
pub fn emit_params(params: &Vec<(String, InterfaceType)>) -> (r: String)
    ensures
        r@ == params_text(params@),
{
    let mut out = String::new();
    let ghost parts = Seq::new(params@.len(), |i: int| params@[i].0@ + ": "@ + itype_text(params@[i].1@));
    let mut k: usize = 0;
    assert(parts.take(0) =~= Seq::<Seq<char>>::empty());
    assert(out@ =~= join(parts.take(0)));
    while k < params.len()
        invariant
            k <= params@.len(),
            parts == Seq::new(params@.len(), |i: int| params@[i].0@ + ": "@ + itype_text(params@[i].1@)),
            out@ == join(parts.take(k as int)),
        decreases params@.len() - k,
    {
        proof { lemma_join_step(parts, k as int); }
        if k > 0 {
            push_str(&mut out, ", ");
        }
        let ghost before = out@;
        push_str(&mut out, params[k].0.as_str());
        push_str(&mut out, ": ");
        push_itype(&mut out, &params[k].1);
        assert(out@ =~= before + parts[k as int]);
        k = k + 1;
    }
    assert(parts.take(params@.len() as int) =~= parts);
    out
}

/// ` -> Type`, or nothing for `Void`.
pub fn emit_return_type(ty: &InterfaceType) -> (r: String)
    ensures
        r@ == return_text(ty@),
{
    let mut out = String::new();
    match ty {
        InterfaceType::Unit => {},
        _ => {
            push_str(&mut out, " -> ");
            push_itype(&mut out, ty);
        },
    }
    assert(out@ =~= return_text(ty@));
    out
}


/// Appends the lines of a list of methods.
fn push_method_lines(out: &mut String, ms: &Vec<InterfaceMethodSig>)
    ensures
        final(out)@ == old(out)@ + method_lines(ms@),
{
    let ghost start = out@;
    let mut k: usize = 0;
    assert(ms@.take(0) =~= Seq::<InterfaceMethodSig>::empty());
    while k < ms.len()
        invariant
            k <= ms@.len(),
            out@ == start + method_lines(ms@.take(k as int)),
        decreases ms@.len() - k,
    {
        assert(ms@.take(k + 1).drop_last() =~= ms@.take(k as int));
        let m = &ms[k];
        push_str(out, "  func ");
        push_str(out, m.name.as_str());
        push_str(out, "(");
        let params = emit_params(&m.params);
        push_str(out, params.as_str());
        push_str(out, ")");
        let ret = emit_return_type(&m.return_type);
        push_str(out, ret.as_str());
        push_str(out, ";\n");
        k = k + 1;
        assert(out@ =~= start + method_lines(ms@.take(k as int)));
    }
    assert(ms@.take(ms@.len() as int) =~= ms@);
}

/// Appends the lines of a struct's stored properties.
fn push_field_lines(out: &mut String, fs: &Vec<(String, InterfaceType)>)
    ensures
        final(out)@ == old(out)@ + field_lines(fs@),
{
    let ghost start = out@;
    let mut k: usize = 0;
    assert(fs@.take(0) =~= Seq::<(String, InterfaceType)>::empty());
    while k < fs.len()
        invariant
            k <= fs@.len(),
            out@ == start + field_lines(fs@.take(k as int)),
        decreases fs@.len() - k,
    {
        assert(fs@.take(k + 1).drop_last() =~= fs@.take(k as int));
        push_str(out, "  var ");
        push_str(out, fs[k].0.as_str());
        push_str(out, ": ");
        push_itype(out, &fs[k].1);
        push_str(out, ";\n");
        k = k + 1;
        assert(out@ =~= start + field_lines(fs@.take(k as int)));
    }
    assert(fs@.take(fs@.len() as int) =~= fs@);
}

/// `{ get set }` or `{ get }`.
fn accessor(has_setter: bool) -> (r: &'static str)
    ensures
        r@ == accessor_text(has_setter),
{
    if has_setter {
        "{ get set }"
    } else {
        "{ get }"
    }
}

/// Appends the lines of a struct's computed properties.
fn push_computed_lines(out: &mut String, cs: &Vec<InterfaceComputedProp>)
    ensures
        final(out)@ == old(out)@ + computed_lines(cs@),
{
    let ghost start = out@;
    let mut k: usize = 0;
    assert(cs@.take(0) =~= Seq::<InterfaceComputedProp>::empty());
    while k < cs.len()
        invariant
            k <= cs@.len(),
            out@ == start + computed_lines(cs@.take(k as int)),
        decreases cs@.len() - k,
    {
        assert(cs@.take(k + 1).drop_last() =~= cs@.take(k as int));
        push_str(out, "  var ");
        push_str(out, cs[k].name.as_str());
        push_str(out, ": ");
        push_itype(out, &cs[k].ty);
        push_str(out, " ");
        push_str(out, accessor(cs[k].has_setter));
        push_str(out, ";\n");
        k = k + 1;
        assert(out@ =~= start + computed_lines(cs@.take(k as int)));
    }
    assert(cs@.take(cs@.len() as int) =~= cs@);
}

/// Appends the lines of a protocol's property requirements.
fn push_property_lines(out: &mut String, ps: &Vec<InterfacePropertyReq>)
    ensures
        final(out)@ == old(out)@ + property_lines(ps@),
{
    let ghost start = out@;
    let mut k: usize = 0;
    assert(ps@.take(0) =~= Seq::<InterfacePropertyReq>::empty());
    while k < ps.len()
        invariant
            k <= ps@.len(),
            out@ == start + property_lines(ps@.take(k as int)),
        decreases ps@.len() - k,
    {
        assert(ps@.take(k + 1).drop_last() =~= ps@.take(k as int));
        push_str(out, "  var ");
        push_str(out, ps[k].name.as_str());
        push_str(out, ": ");
        push_itype(out, &ps[k].ty);
        push_str(out, " ");
        push_str(out, accessor(ps[k].has_setter));
        push_str(out, ";\n");
        k = k + 1;
        assert(out@ =~= start + property_lines(ps@.take(k as int)));
    }
    assert(ps@.take(ps@.len() as int) =~= ps@);
}

/// Appends `: P, Q` for a struct with conformances.
fn push_conformances(out: &mut String, cs: &Vec<String>)
    ensures
        final(out)@ == old(out)@ + conformances_text(cs@),
{
    let ghost start = out@;
    if cs.len() > 0 {
        let ghost parts = Seq::new(cs@.len(), |i: int| cs@[i]@);
        push_str(out, ": ");
        let mut k: usize = 0;
        assert(parts.take(0) =~= Seq::<Seq<char>>::empty());
        while k < cs.len()
            invariant
                k <= cs@.len(),
                parts == Seq::new(cs@.len(), |i: int| cs@[i]@),
                out@ == start + ": "@ + join(parts.take(k as int)),
            decreases cs@.len() - k,
        {
            proof { lemma_join_step(parts, k as int); }
            if k > 0 {
                push_str(out, ", ");
            }
            push_str(out, cs[k].as_str());
            k = k + 1;
        }
        assert(parts.take(cs@.len() as int) =~= parts);
    }
    assert(out@ =~= start + conformances_text(cs@));
}

/// Appends the text of an exported struct.
#[verifier::spinoff_prover]
fn push_struct(out: &mut String, st: &InterfaceStructEntry)
    ensures
        final(out)@ == old(out)@ + struct_text(*st),
{
    let ghost start = out@;
    push_str(out, emit_visibility(st.visibility));
    push_str(out, " struct ");
    push_str(out, st.name.as_str());
    let tps = emit_type_params(&st.type_params);
    push_str(out, tps.as_str());
    push_conformances(out, &st.conformances);
    push_str(out, " {\n");
    let ghost head = out@;
    assert(head =~= start + visibility_text(st.visibility) + " struct "@ + st.name@ + type_params_text(st.type_params@)
        + conformances_text(st.conformances@) + " {\n"@);
    push_field_lines(out, &st.fields);
    push_computed_lines(out, &st.computed);
    let ghost mid = out@;
    if st.init_params.len() > 0 {
        push_str(out, "  init(");
        let params = emit_params(&st.init_params);
        push_str(out, params.as_str());
        push_str(out, ");\n");
    }
    assert(out@ =~= mid + init_line(st.init_params@));
    push_method_lines(out, &st.methods);
    push_str(out, "}\n");
    assert(out@ =~= start + struct_text(*st));
}

/// Appends the text of an exported protocol.
fn push_protocol(out: &mut String, p: &InterfaceProtocolEntry)
    ensures
        final(out)@ == old(out)@ + protocol_text(*p),
{
    let ghost start = out@;
    push_str(out, emit_visibility(p.visibility));
    push_str(out, " protocol ");
    push_str(out, p.name.as_str());
    push_str(out, " {\n");
    push_method_lines(out, &p.methods);
    push_property_lines(out, &p.properties);
    push_str(out, "}\n");
    assert(out@ =~= start + protocol_text(*p));
}

/// Appends the line of an exported function.
fn push_function_line(out: &mut String, func: &InterfaceFuncEntry)
    ensures
        final(out)@ == old(out)@ + function_line(*func),
{
    let ghost start = out@;
    push_str(out, emit_visibility(func.visibility));
    push_str(out, " func ");
    push_str(out, func.name.as_str());
    let tps = emit_type_params(&func.sig.type_params);
    push_str(out, tps.as_str());
    push_str(out, "(");
    let params = emit_params(&func.sig.params);
    push_str(out, params.as_str());
    push_str(out, ")");
    let ret = emit_return_type(&func.sig.return_type);
    push_str(out, ret.as_str());
    push_str(out, ";\n");
    assert(out@ =~= start + function_line(*func));
}

/// Appends the lines of a list of exported functions.
fn push_function_lines(out: &mut String, fs: &Vec<InterfaceFuncEntry>)
    ensures
        final(out)@ == old(out)@ + function_lines(fs@),
{
    let ghost start = out@;
    let mut k: usize = 0;
    assert(fs@.take(0) =~= Seq::<InterfaceFuncEntry>::empty());
    while k < fs.len()
        invariant
            k <= fs@.len(),
            out@ == start + function_lines(fs@.take(k as int)),
        decreases fs@.len() - k,
    {
        assert(fs@.take(k + 1).drop_last() =~= fs@.take(k as int));
        push_function_line(out, &fs[k]);
        k = k + 1;
    }
    assert(fs@.take(fs@.len() as int) =~= fs@);
}

/// Appends the texts of a list of exported structs.
fn push_struct_texts(out: &mut String, ss: &Vec<InterfaceStructEntry>)
    ensures
        final(out)@ == old(out)@ + struct_texts(ss@),
{
    let ghost start = out@;
    let mut k: usize = 0;
    assert(ss@.take(0) =~= Seq::<InterfaceStructEntry>::empty());
    while k < ss.len()
        invariant
            k <= ss@.len(),
            out@ == start + struct_texts(ss@.take(k as int)),
        decreases ss@.len() - k,
    {
        assert(ss@.take(k + 1).drop_last() =~= ss@.take(k as int));
        push_struct(out, &ss[k]);
        k = k + 1;
    }
    assert(ss@.take(ss@.len() as int) =~= ss@);
}

/// Appends the texts of a list of exported protocols.
fn push_protocol_texts(out: &mut String, ps: &Vec<InterfaceProtocolEntry>)
    ensures
        final(out)@ == old(out)@ + protocol_texts(ps@),
{
    let ghost start = out@;
    let mut k: usize = 0;
    assert(ps@.take(0) =~= Seq::<InterfaceProtocolEntry>::empty());
    while k < ps.len()
        invariant
            k <= ps@.len(),
            out@ == start + protocol_texts(ps@.take(k as int)),
        decreases ps@.len() - k,
    {
        assert(ps@.take(k + 1).drop_last() =~= ps@.take(k as int));
        push_protocol(out, &ps[k]);
        k = k + 1;
    }
    assert(ps@.take(ps@.len() as int) =~= ps@);
}

/// The text form of a module interface: a version line, then the exported
/// functions, structs and protocols, each non-empty section after the first
/// preceded by an empty line.
pub fn emit_text_interface(iface: &ModuleInterface) -> (r: String)
    ensures
        r@ == interface_text(*iface),
{
    let mut out = String::new();
    push_str(&mut out, "// bengal-interface-format-version: ");
    push_decimal(&mut out, TEXT_FORMAT_VERSION as u64);
    push_str(&mut out, "\n");
    let ghost head = out@;
    let mut has_previous_section = false;
    if iface.functions.len() > 0 {
        has_previous_section = true;
        push_function_lines(&mut out, &iface.functions);
    } else {
        assert(function_lines(iface.functions@) =~= Seq::<char>::empty());
    }
    let ghost part1 = out@;
    assert(part1 =~= head + function_lines(iface.functions@));
    if iface.structs.len() > 0 {
        if has_previous_section {
            push_str(&mut out, "\n");
        }
        has_previous_section = true;
        push_struct_texts(&mut out, &iface.structs);
    }
    let ghost part2 = out@;
    if iface.protocols.len() > 0 {
        if has_previous_section {
            push_str(&mut out, "\n");
        }
        push_protocol_texts(&mut out, &iface.protocols);
    }
    assert(out@ =~= interface_text(*iface));
    out
}


/// The first four bytes of an interface file: `BGMD`.
pub const MAGIC: [u8; 4] = [0x42, 0x47, 0x4D, 0x44];

/// The bytes of `MAGIC`.
pub open spec fn magic_bytes() -> Seq<u8> {
    seq![0x42u8, 0x47u8, 0x4Du8, 0x44u8]
}

/// The little-endian bytes of a 32-bit number.
pub open spec fn le_bytes(v: u32) -> Seq<u8> {
    seq![(v % 256) as u8, ((v / 256) % 256) as u8, ((v / 65536) % 256) as u8, (v / 16777216) as u8]
}

/// The number whose little-endian bytes are `b[i..i + 4]`.
pub open spec fn le_value(b: Seq<u8>, i: int) -> int {
    b[i] + 256 * b[i + 1] + 65536 * b[i + 2] + 16777216 * b[i + 3]
}

/// An interface file: the magic bytes, the format version in little-endian
/// order, then the serialized payload.
pub fn frame_interface(payload: &[u8]) -> (r: Vec<u8>)
    ensures
        r@ == magic_bytes() + le_bytes(FORMAT_VERSION) + payload@,
{
    let mut r: Vec<u8> = Vec::new();
    let mut k: usize = 0;
    while k < 4
        invariant
            k <= 4,
            r@ == magic_bytes().take(k as int),
        decreases 4 - k,
    {
        r.push(MAGIC[k]);
        k = k + 1;
        assert(r@ =~= magic_bytes().take(k as int));
    }
    assert(magic_bytes().take(4) =~= magic_bytes());
    let v = FORMAT_VERSION;
    r.push((v % 256) as u8);
    r.push(((v / 256) % 256) as u8);
    r.push(((v / 65536) % 256) as u8);
    r.push((v / 16777216) as u8);
    let ghost head = r@;
    assert(head =~= magic_bytes() + le_bytes(FORMAT_VERSION));
    let mut j: usize = 0;
    while j < payload.len()
        invariant
            j <= payload@.len(),
            r@ == head + payload@.take(j as int),
        decreases payload@.len() - j,
    {
        r.push(payload[j]);
        j = j + 1;
        assert(r@ =~= head + payload@.take(j as int));
    }
    assert(payload@.take(payload@.len() as int) =~= payload@);
    r
}

/// The message for an interface file of another format version.
pub open spec fn version_message(found: int) -> Seq<char> {
    "incompatible format version "@ + decimal(found as nat) + " (expected "@ + decimal(FORMAT_VERSION as nat)
        + "), please rebuild"@
}

/// `r` is an interface error with the message `msg`.
pub open spec fn interface_error(r: Result<(), BengalError>, msg: Seq<char>) -> bool {
    r matches Err(BengalError::InterfaceError { message }) && message@ == msg
}

/// A framed payload passes the header check: the file is long enough, starts
/// with the magic bytes, the version read back is the version written, and the
/// payload is what follows the eight header bytes.
pub proof fn law_framed_interface_accepted(payload: Seq<u8>)
    ensures
        (magic_bytes() + le_bytes(FORMAT_VERSION) + payload).len() >= 8,
        (magic_bytes() + le_bytes(FORMAT_VERSION) + payload).take(4) == magic_bytes(),
        le_value(magic_bytes() + le_bytes(FORMAT_VERSION) + payload, 4) == FORMAT_VERSION,
        (magic_bytes() + le_bytes(FORMAT_VERSION) + payload).skip(8) == payload,
{
    let data = magic_bytes() + le_bytes(FORMAT_VERSION) + payload;
    assert(data.take(4) =~= magic_bytes());
    assert(data.skip(8) =~= payload);
    assert(data[4] == 2u8 && data[5] == 0u8 && data[6] == 0u8 && data[7] == 0u8);
}

/// Checks the header of an interface file: it must be at least 8 bytes long,
/// start with the magic bytes, and carry the current format version; the
/// payload follows the first 8 bytes.
pub fn check_interface_header(data: &[u8]) -> (r: Result<(), BengalError>)
    ensures
        data@.len() < 8 ==> interface_error(r, "file too short to be a valid .bengalmod file"@),
        data@.len() >= 8 && data@.take(4) != magic_bytes() ==> interface_error(
            r,
            "invalid magic bytes: not a .bengalmod file"@,
        ),
        data@.len() >= 8 && data@.take(4) == magic_bytes() && le_value(data@, 4) != FORMAT_VERSION ==> interface_error(
            r,
            version_message(le_value(data@, 4)),
        ),
        data@.len() >= 8 && data@.take(4) == magic_bytes() && le_value(data@, 4) == FORMAT_VERSION ==> r is Ok,
{
    if data.len() < 8 {
        let mut message = String::new();
        push_str(&mut message, "file too short to be a valid .bengalmod file");
        return Err(BengalError::InterfaceError { message });
    }
    if data[0] != MAGIC[0] || data[1] != MAGIC[1] || data[2] != MAGIC[2] || data[3] != MAGIC[3] {
        proof {
            if data@.take(4) == magic_bytes() {
                assert(data@.take(4)[0] == data@[0]);
                assert(data@.take(4)[1] == data@[1]);
                assert(data@.take(4)[2] == data@[2]);
                assert(data@.take(4)[3] == data@[3]);
            }
        }
        let mut message = String::new();
        push_str(&mut message, "invalid magic bytes: not a .bengalmod file");
        return Err(BengalError::InterfaceError { message });
    }
    assert(data@.take(4) =~= magic_bytes());
    let version: u32 = data[4] as u32 + 256 * (data[5] as u32) + 65536 * (data[6] as u32) + 16777216 * (data[7] as u32);
    if version != FORMAT_VERSION {
        let mut message = String::new();
        push_str(&mut message, "incompatible format version ");
        push_decimal(&mut message, version as u64);
        push_str(&mut message, " (expected ");
        push_decimal(&mut message, FORMAT_VERSION as u64);
        push_str(&mut message, "), please rebuild");
        assert(message@ =~= version_message(le_value(data@, 4)));
        return Err(BengalError::InterfaceError { message });
    }
    Ok(())
}

} // verus!
