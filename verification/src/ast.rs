//! What the parser records of declarations: visibility, type parameters and
//! written type annotations.
use vstd::prelude::*;

use crate::error::Span;

verus! {

/// Who may use a declaration.
#[derive(Debug, Clone, Copy, PartialEq, Eq, Structural)]
pub enum Visibility {
    Public,
    Package,
    Internal,
    Fileprivate,
    Private,
}

/// A type parameter of a generic declaration, with the protocol it must conform to, if any.
#[derive(Debug, Clone, PartialEq, Eq)]
pub struct TypeParam {
    pub name: String,
    pub bound: Option<String>,
}

/// A type as it is written in the source.
#[derive(Debug, PartialEq, Eq)]
pub enum TypeAnnotation {
    I32,
    I64,
    F32,
    F64,
    Bool,
    Unit,
    /// A struct, protocol or type parameter named without arguments.
    Named(String),
    /// A generic struct applied to type arguments.
    Generic { name: String, args: Vec<TypeAnnotation> },
    Array { element: Box<TypeAnnotation>, size: u64 },
}

/// The model of a written type.
pub enum TypeAnnotationV {
    I32,
    I64,
    F32,
    F64,
    Bool,
    Unit,
    Named(Seq<char>),
    Generic { name: Seq<char>, args: Seq<TypeAnnotationV> },
    Array { element: Box<TypeAnnotationV>, size: u64 },
}

impl View for TypeAnnotation {
    type V = TypeAnnotationV;

    open spec fn view(&self) -> TypeAnnotationV {
        annotation_view(*self)
    }
}

/// The model of a written type.
pub open spec fn annotation_view(t: TypeAnnotation) -> TypeAnnotationV
    decreases t,
{
    match t {
        TypeAnnotation::I32 => TypeAnnotationV::I32,
        TypeAnnotation::I64 => TypeAnnotationV::I64,
        TypeAnnotation::F32 => TypeAnnotationV::F32,
        TypeAnnotation::F64 => TypeAnnotationV::F64,
        TypeAnnotation::Bool => TypeAnnotationV::Bool,
        TypeAnnotation::Unit => TypeAnnotationV::Unit,
        TypeAnnotation::Named(n) => TypeAnnotationV::Named(n@),
        TypeAnnotation::Generic { name, args } => TypeAnnotationV::Generic { name: name@, args: annotation_views(args@) },
        TypeAnnotation::Array { element, size } => TypeAnnotationV::Array {
            element: Box::new(annotation_view(*element)),
            size,
        },
    }
}

/// The models of a list of written types.
pub open spec fn annotation_views(ts: Seq<TypeAnnotation>) -> Seq<TypeAnnotationV>
    decreases ts,
{
    if ts.len() == 0 {
        Seq::empty()
    } else {
        annotation_views(ts.drop_last()).push(annotation_view(ts.last()))
    }
}

/// `annotation_views` maps element by element.
pub proof fn lemma_annotation_views(ts: Seq<TypeAnnotation>)
    ensures
        annotation_views(ts).len() == ts.len(),
        forall|i: int| 0 <= i < ts.len() ==> #[trigger] annotation_views(ts)[i] == ts[i]@,
    decreases ts.len(),
{
    if ts.len() > 0 {
        lemma_annotation_views(ts.drop_last());
        assert forall|i: int| 0 <= i < ts.len() implies #[trigger] annotation_views(ts)[i] == ts[i]@ by {
            if i < ts.len() - 1 {
                assert(ts.drop_last()[i] == ts[i]);
            }
        }
    }
}

impl TypeAnnotation {
    /// A copy of this written type.
    pub fn copy(&self) -> (r: TypeAnnotation)
        ensures
            r@ == self@,
        decreases self,
    {
        match self {
            TypeAnnotation::I32 => TypeAnnotation::I32,
            TypeAnnotation::I64 => TypeAnnotation::I64,
            TypeAnnotation::F32 => TypeAnnotation::F32,
            TypeAnnotation::F64 => TypeAnnotation::F64,
            TypeAnnotation::Bool => TypeAnnotation::Bool,
            TypeAnnotation::Unit => TypeAnnotation::Unit,
            TypeAnnotation::Named(n) => TypeAnnotation::Named(n.clone()),
            TypeAnnotation::Generic { name, args } => TypeAnnotation::Generic { name: name.clone(), args: copy_annotations(args) },
            TypeAnnotation::Array { element, size } => TypeAnnotation::Array {
                element: Box::new((**element).copy()),
                size: *size,
            },
        }
    }
}

/// A copy of a list of written types.
pub fn copy_annotations(ts: &Vec<TypeAnnotation>) -> (r: Vec<TypeAnnotation>)
    ensures
        annotation_views(r@) == annotation_views(ts@),
    decreases ts,
{
    let mut r: Vec<TypeAnnotation> = Vec::new();
    let mut k: usize = 0;
    assert(ts@.take(0) =~= Seq::<TypeAnnotation>::empty());
    while k < ts.len()
        invariant
            k <= ts@.len(),
            annotation_views(r@) == annotation_views(ts@.take(k as int)),
        decreases ts@.len() - k,
    {
        assert(decreases_to!(ts => ts@[k as int]));
        assert(ts@.take(k + 1).drop_last() =~= ts@.take(k as int));
        let ghost before = r@;
        r.push(ts[k].copy());
        assert(r@.drop_last() =~= before);
        k = k + 1;
    }
    assert(ts@.take(ts@.len() as int) =~= ts@);
    r
}

/// A parameter of a function, method or initializer.
#[derive(Debug)]
pub struct Param {
    pub name: String,
    pub ty: TypeAnnotation,
}

/// Binary operators.
#[derive(Debug, Clone, Copy, PartialEq, Eq, Structural)]
pub enum BinOp {
    Add,
    Sub,
    Mul,
    Div,
    Eq,
    Ne,
    Lt,
    Gt,
    Le,
    Ge,
    And,
    Or,
}

/// Unary operators.
#[derive(Debug, Clone, Copy, PartialEq, Eq, Structural)]
pub enum UnaryOp {
    Not,
}

/// An expression, with the id that side tables key it by and its source span.
#[derive(Debug)]
pub struct Expr {
    pub id: u32,
    pub kind: ExprKind,
    pub span: Span,
}

/// The kinds of expressions.
#[derive(Debug)]
pub enum ExprKind {
    Number(i64),
    /// A float literal, held as the bits of its `f64` value.
    Float(u64),
    Bool(bool),
    Ident(String),
    SelfRef,
    /// A call of a function, or of a struct's initializer, with written type arguments.
    Call { name: String, type_args: Vec<TypeAnnotation>, args: Vec<Expr> },
    StructInit { name: String, type_args: Vec<TypeAnnotation>, args: Vec<(String, Expr)> },
    BinaryOp { op: BinOp, left: Box<Expr>, right: Box<Expr> },
    UnaryOp { op: UnaryOp, operand: Box<Expr> },
    Block(Block),
    If { condition: Box<Expr>, then_block: Block, else_block: Option<Block> },
    While { condition: Box<Expr>, body: Block, nobreak: Option<Block> },
    Cast { expr: Box<Expr>, target_type: TypeAnnotation },
    FieldAccess { object: Box<Expr>, field: String },
    MethodCall { object: Box<Expr>, method: String, args: Vec<Expr> },
    ArrayLiteral { elements: Vec<Expr> },
    IndexAccess { object: Box<Expr>, index: Box<Expr> },
}

/// A block of statements.
#[derive(Debug)]
pub struct Block {
    pub stmts: Vec<Stmt>,
}

/// Statements.
#[derive(Debug)]
pub enum Stmt {
    Let { name: String, ty: Option<TypeAnnotation>, value: Expr },
    Var { name: String, ty: Option<TypeAnnotation>, value: Expr },
    Assign { name: String, value: Expr },
    Return(Option<Expr>),
    Yield(Expr),
    Break(Option<Expr>),
    Continue,
    Expr(Expr),
    FieldAssign { object: Box<Expr>, field: String, value: Expr },
    IndexAssign { object: Box<Expr>, index: Box<Expr>, value: Expr },
}

/// A function definition.
#[derive(Debug)]
pub struct Function {
    pub visibility: Visibility,
    pub name: String,
    pub type_params: Vec<TypeParam>,
    pub params: Vec<Param>,
    pub return_type: TypeAnnotation,
    pub body: Block,
}

/// A member of a struct definition.
#[derive(Debug)]
pub enum StructMember {
    StoredProperty { visibility: Visibility, name: String, ty: TypeAnnotation },
    ComputedProperty { visibility: Visibility, name: String, ty: TypeAnnotation, getter: Block, setter: Option<Block> },
    Initializer { visibility: Visibility, params: Vec<Param>, body: Block },
    Method { visibility: Visibility, name: String, params: Vec<Param>, return_type: TypeAnnotation, body: Block },
}

/// A struct definition.
#[derive(Debug)]
pub struct StructDef {
    pub visibility: Visibility,
    pub name: String,
    pub type_params: Vec<TypeParam>,
    pub conformances: Vec<String>,
    pub members: Vec<StructMember>,
    pub span: Span,
}

/// A `module` declaration: the name of a child module.
#[derive(Debug)]
pub struct ModuleDecl {
    pub name: String,
}

/// A parsed module. Import declarations (`I`) and protocol definitions (`P`)
/// are carried through the passes here as they are given.
#[derive(Debug)]
pub struct Program<I, P> {
    pub module_decls: Vec<ModuleDecl>,
    pub import_decls: Vec<I>,
    pub structs: Vec<StructDef>,
    pub protocols: Vec<P>,
    pub functions: Vec<Function>,
}

} // verus!
