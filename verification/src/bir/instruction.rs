use vstd::prelude::*;

verus! {

/// An SSA value (`%n`).
#[derive(Debug, Clone, Copy, PartialEq, Eq, Hash)]
pub struct Value(pub u32);

/// The types of BIR.
#[derive(Debug, PartialEq, Eq, Hash)]
pub enum BirType {
    Unit,
    I32,
    I64,
    F32,
    F64,
    Bool,
    Struct { name: String, type_args: Vec<BirType> },
    Array { element: Box<BirType>, size: u64 },
    TypeParam(String),
    Error,
}

/// The mathematical model of a `BirType`: names are sequences of characters.
pub enum TypeV {
    Unit,
    I32,
    I64,
    F32,
    F64,
    Bool,
    Struct { name: Seq<char>, type_args: Seq<TypeV> },
    Array { element: Box<TypeV>, size: u64 },
    TypeParam(Seq<char>),
    Error,
}

impl View for BirType {
    type V = TypeV;

    open spec fn view(&self) -> TypeV {
        model(*self)
    }
}

/// The model of a type: each name taken by its characters.
pub open spec fn model(t: BirType) -> TypeV
    decreases t,
{
    match t {
        BirType::Unit => TypeV::Unit,
        BirType::I32 => TypeV::I32,
        BirType::I64 => TypeV::I64,
        BirType::F32 => TypeV::F32,
        BirType::F64 => TypeV::F64,
        BirType::Bool => TypeV::Bool,
        BirType::Struct { name, type_args } => TypeV::Struct { name: name@, type_args: views(type_args@) },
        BirType::Array { element, size } => TypeV::Array { element: Box::new(model(*element)), size },
        BirType::TypeParam(name) => TypeV::TypeParam(name@),
        BirType::Error => TypeV::Error,
    }
}

/// The models of a sequence of types, element by element.
pub open spec fn views(ts: Seq<BirType>) -> Seq<TypeV>
    decreases ts,
{
    if ts.len() == 0 {
        Seq::empty()
    } else {
        views(ts.drop_last()).push(model(ts.last()))
    }
}

/// `views` keeps the length and maps each element to its model.
pub broadcast proof fn lemma_views(ts: Seq<BirType>)
    ensures
        #[trigger] views(ts).len() == ts.len(),
        forall|i: int| 0 <= i < ts.len() ==> #[trigger] views(ts)[i] == ts[i]@,
    decreases ts.len(),
{
    if ts.len() > 0 {
        lemma_views(ts.drop_last());
    }
}

impl BirType {
    /// Create a non-generic struct type.
    pub fn struct_simple(name: String) -> (r: BirType)
        ensures
            r@ == (TypeV::Struct { name: name@, type_args: Seq::empty() }),
    {
        let r = BirType::Struct { name, type_args: Vec::new() };
        proof { lemma_views(Seq::<BirType>::empty()); }
        assert(r@->type_args =~= Seq::<TypeV>::empty());
        r
    }

    /// A copy with the same model.
    pub fn copy(&self) -> (r: BirType)
        ensures
            r@ == self@,
        decreases self,
    {
        match self {
            BirType::Unit => BirType::Unit,
            BirType::I32 => BirType::I32,
            BirType::I64 => BirType::I64,
            BirType::F32 => BirType::F32,
            BirType::F64 => BirType::F64,
            BirType::Bool => BirType::Bool,
            BirType::Struct { name, type_args } => {
                let args = copy_types(type_args);
                let ghost sv = self@;
                let r = BirType::Struct { name: name.clone(), type_args: args };
                let ghost rv = r@;
                proof { lemma_views(args@); lemma_views(type_args@); }
                assert(rv->type_args.len() == sv->type_args.len());
                assert forall|i: int| 0 <= i < rv->type_args.len() implies rv->type_args[i] == sv->type_args[i] by {
                    assert(args@[i]@ == type_args@[i]@);
                }
                assert(rv->type_args =~= sv->type_args);
                r
            },
            BirType::Array { element, size } => BirType::Array {
                element: Box::new((**element).copy()),
                size: *size,
            },
            BirType::TypeParam(name) => BirType::TypeParam(name.clone()),
            BirType::Error => BirType::Error,
        }
    }

    /// Structural equality of the models.
    pub fn same(&self, other: &BirType) -> (r: bool)
        ensures
            r == (self@ == other@),
        decreases self,
    {
        match (self, other) {
            (BirType::Unit, BirType::Unit) => true,
            (BirType::I32, BirType::I32) => true,
            (BirType::I64, BirType::I64) => true,
            (BirType::F32, BirType::F32) => true,
            (BirType::F64, BirType::F64) => true,
            (BirType::Bool, BirType::Bool) => true,
            (BirType::Error, BirType::Error) => true,
            (BirType::TypeParam(a), BirType::TypeParam(b)) => a.eq(b),
            (BirType::Array { element: e1, size: s1 }, BirType::Array { element: e2, size: s2 }) => {
                *s1 == *s2 && (**e1).same(&**e2)
            },
            (BirType::Struct { name: n1, type_args: a1 }, BirType::Struct { name: n2, type_args: a2 }) => {
                if !n1.eq(n2) {
                    return false;
                }
                let r = same_types(a1, a2);
                proof {
                    lemma_views(a1@);
                    lemma_views(a2@);
                    if r {
                        assert(self@->type_args =~= other@->type_args);
                    } else {
                        if self@->type_args.len() == other@->type_args.len() {
                            let i = choose|i: int| 0 <= i < a1@.len() && a1@[i]@ != a2@[i]@;
                            assert(self@->type_args[i] != other@->type_args[i]);
                        }
                    }
                }
                r
            },
            _ => false,
        }
    }
}

impl Clone for BirType {
    fn clone(&self) -> (r: BirType)
        ensures
            r@ == self@,
    {
        self.copy()
    }
}

/// Binary arithmetic operators.
#[derive(Debug, Clone, Copy, PartialEq, Eq, Structural)]
pub enum BirBinOp {
    Add,
    Sub,
    Mul,
    Div,
}

/// Comparison operators.
#[derive(Debug, Clone, Copy, PartialEq, Eq, Structural)]
pub enum BirCompareOp {
    Eq,
    Ne,
    Lt,
    Gt,
    Le,
    Ge,
}

/// BIR instructions; each defines the value `result`.
#[derive(Debug, Clone, PartialEq, Eq)]
pub enum Instruction {
    /// `%result = literal <value> : <type>`
    Literal { result: Value, value: i64, ty: BirType },
    /// `%result = binary_op <op> %lhs, %rhs : <type>`
    BinaryOp { result: Value, op: BirBinOp, lhs: Value, rhs: Value, ty: BirType },
    /// `%result = call @func_name(%arg0, ...) : <type>`
    Call { result: Value, func_name: String, args: Vec<Value>, type_args: Vec<BirType>, ty: BirType },
    /// `%result = compare <op> %lhs, %rhs : <type>`
    Compare { result: Value, op: BirCompareOp, lhs: Value, rhs: Value, ty: BirType },
    /// `%result = not %operand : Bool`
    Not { result: Value, operand: Value },
    /// `%result = cast %operand : <from_ty> -> <to_ty>`
    Cast { result: Value, operand: Value, from_ty: BirType, to_ty: BirType },
    /// `%result = struct_init @Name { field: %v, ... } : Struct`
    StructInit {
        result: Value,
        struct_name: String,
        fields: Vec<(String, Value)>,
        type_args: Vec<BirType>,
        ty: BirType,
    },
    /// `%result = field_get %object, "field" : FieldType`
    FieldGet { result: Value, object: Value, field: String, object_ty: BirType, ty: BirType },
    /// `%result = field_set %object, "field", %value : StructType`
    FieldSet { result: Value, object: Value, field: String, value: Value, ty: BirType },
    /// `%result = array_init [%e0, ...] : [Elem; N]`
    ArrayInit { result: Value, ty: BirType, elements: Vec<Value> },
    /// `%result = array_get %array, %index : Elem`
    ArrayGet { result: Value, ty: BirType, array: Value, index: Value, array_size: u64 },
    /// `%result = array_set %array, %index, %value : [Elem; N]`
    ArraySet { result: Value, ty: BirType, array: Value, index: Value, value: Value, array_size: u64 },
}

/// Block terminators.
#[derive(Debug, Clone, PartialEq, Eq)]
pub enum Terminator {
    /// `return %value`
    Return(Value),
    /// `return_void`
    ReturnVoid,
    /// `br bb_target(%arg: type, ...)`
    Br { target: u32, args: Vec<(Value, BirType)> },
    /// `cond_br %cond, bb_then, bb_else`
    CondBr { cond: Value, then_bb: u32, else_bb: u32 },
    /// Leave a while loop, passing the loop's mutable variables and an optional break value.
    BrBreak { header_bb: u32, exit_bb: u32, args: Vec<(Value, BirType)>, value: Option<(Value, BirType)> },
    /// Jump back to a while loop's header, passing its mutable variables.
    BrContinue { header_bb: u32, args: Vec<(Value, BirType)> },
}

/// A basic block: parameters, straight-line instructions, one terminator.
#[derive(Debug, Clone, PartialEq, Eq)]
pub struct BasicBlock {
    pub label: u32,
    pub params: Vec<(Value, BirType)>,
    pub instructions: Vec<Instruction>,
    pub terminator: Terminator,
}

/// The structured control-flow skeleton of a function body.
#[derive(Debug, PartialEq, Eq)]
pub enum CfgRegion {
    /// A single basic block.
    Block(u32),
    /// An if/else.
    IfElse {
        cond_region: Vec<CfgRegion>,
        cond_bb: u32,
        cond_value: Value,
        then_region: Vec<CfgRegion>,
        else_region: Vec<CfgRegion>,
        merge_bb: u32,
    },
    /// An if without else.
    IfOnly { cond_region: Vec<CfgRegion>, cond_bb: u32, cond_value: Value, then_region: Vec<CfgRegion>, merge_bb: u32 },
    /// A while loop.
    While {
        entry_bb: u32,
        header_region: Vec<CfgRegion>,
        header_bb: u32,
        cond_value: Value,
        body_region: Vec<CfgRegion>,
        nobreak_region: Vec<CfgRegion>,
        exit_bb: u32,
    },
}

/// A BIR function.
#[derive(Debug, PartialEq, Eq)]
pub struct BirFunction {
    pub name: String,
    pub type_params: Vec<String>,
    pub params: Vec<(Value, BirType)>,
    pub return_type: BirType,
    pub blocks: Vec<BasicBlock>,
    pub body: Vec<CfgRegion>,
}

/// A BIR module. The tables are association lists keyed by their first component.
#[derive(Debug, PartialEq, Eq)]
pub struct BirModule {
    /// Field layout of each struct.
    pub struct_layouts: Vec<(String, Vec<(String, BirType)>)>,
    /// Type parameter names of each generic struct (e.g. `Box` -> `[T]`).
    pub struct_type_params: Vec<(String, Vec<String>)>,
    pub functions: Vec<BirFunction>,
    /// `(protocol method, concrete type)` -> the concrete implementation's name.
    pub conformance_map: Vec<((String, BirType), String)>,
}

/// Copies a list of types, keeping each model.
pub fn copy_types(ts: &Vec<BirType>) -> (r: Vec<BirType>)
    ensures
        r@.len() == ts@.len(),
        forall|i: int| 0 <= i < ts@.len() ==> (#[trigger] r@[i])@ == ts@[i]@,
    decreases ts,
{
    let mut r: Vec<BirType> = Vec::new();
    let mut k: usize = 0;
    while k < ts.len()
        invariant
            k <= ts@.len(),
            r@.len() == k,
            forall|i: int| 0 <= i < k ==> (#[trigger] r@[i])@ == ts@[i]@,
        decreases ts@.len() - k,
    {
        assert(decreases_to!(ts => ts@[k as int]));
        r.push(ts[k].copy());
        k = k + 1;
    }
    r
}

/// Element-wise equality of the models of two lists of types.
pub fn same_types(a: &Vec<BirType>, b: &Vec<BirType>) -> (r: bool)
    ensures
        r == (a@.len() == b@.len() && forall|i: int| 0 <= i < a@.len() ==> (#[trigger] a@[i])@ == b@[i]@),
    decreases a,
{
    if a.len() != b.len() {
        return false;
    }
    let mut k: usize = 0;
    while k < a.len()
        invariant
            k <= a@.len(),
            a@.len() == b@.len(),
            forall|i: int| 0 <= i < k ==> (#[trigger] a@[i])@ == b@[i]@,
        decreases a@.len() - k,
    {
        assert(decreases_to!(a => a@[k as int]));
        if !a[k].same(&b[k]) {
            return false;
        }
        k = k + 1;
    }
    true
}

} // verus!
