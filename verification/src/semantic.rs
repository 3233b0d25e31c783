//! The types that semantic analysis gives to expressions and declarations.
use vstd::prelude::*;

use crate::ast::{TypeAnnotation, TypeParam, Visibility};

verus! {

/// A type as semantic analysis knows it.
#[derive(Debug, PartialEq, Eq)]
pub enum Type {
    I32,
    I64,
    F32,
    F64,
    Bool,
    Unit,
    /// A struct without type arguments.
    Struct(String),
    /// A type parameter, with the protocol it must conform to, if any.
    TypeParam { name: String, bound: Option<String> },
    /// A generic struct applied to type arguments.
    Generic { name: String, args: Vec<Type> },
    Array { element: Box<Type>, size: u64 },
    /// A type still to be inferred.
    InferVar(u32),
    /// The type of an integer literal not yet fixed.
    IntegerLiteral(u32),
    /// The type of a float literal not yet fixed.
    FloatLiteral(u32),
    /// The type of an expression that failed to check.
    Error,
}

/// Whether a type is fully resolved: no inference variable, pending literal type or error in it.
pub open spec fn is_resolved(t: Type) -> bool
    decreases t,
{
    match t {
        Type::Generic { args, .. } => forall|i: int| 0 <= i < args@.len() ==> is_resolved(#[trigger] args@[i]),
        Type::Array { element, .. } => is_resolved(*element),
        Type::InferVar(_) | Type::IntegerLiteral(_) | Type::FloatLiteral(_) | Type::Error => false,
        _ => true,
    }
}

/// The signature of a function, as semantic analysis records it.
#[derive(Debug)]
pub struct FuncSig {
    pub type_params: Vec<TypeParam>,
    pub params: Vec<(String, Type)>,
    pub return_type: Type,
}

/// The signature of a method of a struct or of a protocol.
#[derive(Debug)]
pub struct MethodInfo {
    pub name: String,
    pub params: Vec<(String, Type)>,
    pub return_type: Type,
}

/// A computed property of a struct, or a property that a protocol requires.
#[derive(Debug)]
pub struct PropertyInfo {
    pub name: String,
    pub ty: Type,
    pub has_setter: bool,
}

/// The initializer of a struct.
#[derive(Debug)]
pub struct InitializerInfo {
    pub params: Vec<(String, Type)>,
}

/// What semantic analysis knows of a struct.
#[derive(Debug)]
pub struct StructInfo {
    pub type_params: Vec<TypeParam>,
    pub conformances: Vec<String>,
    pub fields: Vec<(String, Type)>,
    pub methods: Vec<MethodInfo>,
    pub computed: Vec<PropertyInfo>,
    pub init: InitializerInfo,
}

/// What semantic analysis knows of a protocol.
#[derive(Debug)]
pub struct ProtocolInfo {
    pub name: String,
    pub methods: Vec<MethodInfo>,
    pub properties: Vec<PropertyInfo>,
}

/// The declarations of a module as semantic analysis records them: its
/// functions, structs and protocols, each table keyed by name (each name once),
/// and the visibility of each declared name.
#[derive(Debug)]
pub struct SemanticInfo {
    pub functions: Vec<(String, FuncSig)>,
    pub struct_defs: Vec<(String, StructInfo)>,
    pub protocols: Vec<(String, ProtocolInfo)>,
    pub visibilities: Vec<(String, Visibility)>,
    /// The ids of the calls that construct a struct rather than call a function.
    pub struct_init_calls: Vec<u32>,
}

/// The type arguments that inference found for a call written without them.
#[derive(Debug)]
pub struct InferredSite {
    pub type_args: Vec<TypeAnnotation>,
}

/// The side table of inferred type arguments, keyed by the id of the call or
/// struct literal; a later entry takes precedence.
#[derive(Debug)]
pub struct InferredTypeArgs {
    pub map: Vec<(u32, InferredSite)>,
}

} // verus!
