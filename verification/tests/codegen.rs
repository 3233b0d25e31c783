use bengal::bir::instruction::BirCompareOp;
use bengal::codegen::select::{
    call_arg_values, call_target, field_index, select_binop, select_cast, select_compare, select_literal, BinOpKind,
    CastPlan, ComparePlan, FloatPredicate, IntPredicate, LiteralPlan,
};
use bengal::error::BengalError;
use bengal::bir::instruction::{
    BasicBlock, BirBinOp, BirFunction, BirModule, BirType, CfgRegion, Instruction, Terminator, Value,
};
use bengal::bir::mono::{Instance, MonoCollectResult};
use bengal::codegen::blocks::find_block;
use bengal::codegen::generic_resolution::{resolve_function, resolve_instruction, resolve_terminator};
use bengal::codegen::mono_compile::{non_generic_functions, resolve_instances};
use bengal::codegen::types::{
    collect_type_params, collect_value_types, concrete_struct_layouts, contains_type_param, generic_struct_layouts,
};

fn tp(name: &str) -> BirType {
    BirType::TypeParam(name.to_string())
}

fn generic(name: &str, args: Vec<BirType>) -> BirType {
    BirType::Struct { name: name.to_string(), type_args: args }
}

fn module(functions: Vec<BirFunction>) -> BirModule {
    BirModule { struct_layouts: vec![], struct_type_params: vec![], functions, conformance_map: vec![] }
}

/// `func identity<T>(x: T) -> T { let y = show<T>(x); return x; }`
fn identity() -> BirFunction {
    BirFunction {
        name: "identity".to_string(),
        type_params: vec!["T".to_string()],
        params: vec![(Value(0), tp("T"))],
        return_type: tp("T"),
        blocks: vec![BasicBlock {
            label: 0,
            params: vec![],
            instructions: vec![Instruction::Call {
                result: Value(1),
                func_name: "show".to_string(),
                args: vec![Value(0)],
                type_args: vec![tp("T")],
                ty: BirType::Unit,
            }],
            terminator: Terminator::Return(Value(0)),
        }],
        body: vec![CfgRegion::Block(0)],
    }
}

fn main_fn() -> BirFunction {
    BirFunction {
        name: "main".to_string(),
        type_params: vec![],
        params: vec![],
        return_type: BirType::I32,
        blocks: vec![BasicBlock {
            label: 0,
            params: vec![],
            instructions: vec![Instruction::Literal { result: Value(0), value: 7, ty: BirType::I32 }],
            terminator: Terminator::Return(Value(0)),
        }],
        body: vec![CfgRegion::Block(0)],
    }
}

#[test]
fn resolve_function_substitutes_and_mangles() {
    let instance = Instance { func_name: "identity".to_string(), type_args: vec![BirType::I32] };
    let f = resolve_function(&identity(), &instance, &vec![]);
    assert_eq!(f.name, "identityIiE");
    assert!(f.type_params.is_empty());
    assert_eq!(f.params, vec![(Value(0), BirType::I32)]);
    assert_eq!(f.return_type, BirType::I32);
    assert!(f.body.is_empty());
    assert_eq!(
        f.blocks[0].instructions[0],
        Instruction::Call {
            result: Value(1),
            func_name: "showIiE".to_string(),
            args: vec![Value(0)],
            type_args: vec![BirType::I32],
            ty: BirType::Unit,
        }
    );
    assert_eq!(f.blocks[0].terminator, Terminator::Return(Value(0)));
}

#[test]
fn resolve_instruction_follows_conformance() {
    let subst = vec![("T".to_string(), generic("Point", vec![]))];
    let conformances = vec![
        (("sum".to_string(), generic("Other", vec![])), "Other_sum".to_string()),
        (("sum".to_string(), generic("Point", vec![])), "Point_sum".to_string()),
    ];
    let call = Instruction::Call {
        result: Value(3),
        func_name: "sum".to_string(),
        args: vec![Value(1)],
        type_args: vec![tp("T")],
        ty: BirType::I32,
    };
    assert_eq!(
        resolve_instruction(&call, &subst, &conformances),
        Instruction::Call {
            result: Value(3),
            func_name: "Point_sum".to_string(),
            args: vec![Value(1)],
            type_args: vec![],
            ty: BirType::I32,
        }
    );
    // No conformance entry: the instance's symbol is called.
    let subst = vec![("T".to_string(), BirType::Bool)];
    match resolve_instruction(&call, &subst, &conformances) {
        Instruction::Call { func_name, type_args, .. } => {
            assert_eq!(func_name, "sumIbE");
            assert_eq!(type_args, vec![BirType::Bool]);
        }
        other => panic!("expected a call, got {:?}", other),
    }
    // A later conformance entry for the same key wins.
    let conformances = vec![
        (("sum".to_string(), BirType::Bool), "first".to_string()),
        (("sum".to_string(), BirType::Bool), "second".to_string()),
    ];
    match resolve_instruction(&call, &subst, &conformances) {
        Instruction::Call { func_name, .. } => assert_eq!(func_name, "second"),
        other => panic!("expected a call, got {:?}", other),
    }
}

#[test]
fn resolve_other_instructions_and_terminators() {
    let subst = vec![("T".to_string(), BirType::I64)];
    let arr = BirType::Array { element: Box::new(tp("T")), size: 2 };
    assert_eq!(
        resolve_instruction(
            &Instruction::ArrayGet { result: Value(2), ty: tp("T"), array: Value(0), index: Value(1), array_size: 2 },
            &subst,
            &vec![]
        ),
        Instruction::ArrayGet { result: Value(2), ty: BirType::I64, array: Value(0), index: Value(1), array_size: 2 }
    );
    assert_eq!(
        resolve_instruction(
            &Instruction::BinaryOp { result: Value(5), op: BirBinOp::Add, lhs: Value(3), rhs: Value(4), ty: tp("T") },
            &subst,
            &vec![]
        ),
        Instruction::BinaryOp { result: Value(5), op: BirBinOp::Add, lhs: Value(3), rhs: Value(4), ty: BirType::I64 }
    );
    assert_eq!(
        resolve_terminator(
            &Terminator::BrBreak {
                header_bb: 1,
                exit_bb: 2,
                args: vec![(Value(0), arr.clone())],
                value: Some((Value(1), tp("T"))),
            },
            &subst
        ),
        Terminator::BrBreak {
            header_bb: 1,
            exit_bb: 2,
            args: vec![(Value(0), BirType::Array { element: Box::new(BirType::I64), size: 2 })],
            value: Some((Value(1), BirType::I64)),
        }
    );
}

#[test]
fn resolve_instances_skips_unknown_functions() {
    let m = module(vec![identity(), main_fn()]);
    let mono = MonoCollectResult {
        func_instances: vec![
            Instance { func_name: "identity".to_string(), type_args: vec![BirType::Bool] },
            Instance { func_name: "missing".to_string(), type_args: vec![BirType::Bool] },
            Instance { func_name: "identity".to_string(), type_args: vec![BirType::I64] },
        ],
        struct_instances: vec![],
    };
    let fs = resolve_instances(&m, &mono);
    let names: Vec<&str> = fs.iter().map(|f| f.name.as_str()).collect();
    assert_eq!(names, vec!["identityIbE", "identityIlE"]);
    let plain: Vec<&str> = non_generic_functions(&m).iter().map(|f| f.name.as_str()).collect();
    assert_eq!(plain, vec!["main"]);
}

#[test]
fn struct_layouts_concrete_and_generic() {
    let mut m = module(vec![]);
    m.struct_layouts = vec![
        ("Point".to_string(), vec![("x".to_string(), BirType::I32), ("y".to_string(), BirType::I32)]),
        ("Pair".to_string(), vec![("second".to_string(), tp("U")), ("first".to_string(), tp("T")), ("again".to_string(), tp("U"))]),
    ];
    let concrete: Vec<&str> = concrete_struct_layouts(&m).iter().map(|l| l.0.as_str()).collect();
    assert_eq!(concrete, vec!["Point"]);
    let mono = MonoCollectResult {
        func_instances: vec![],
        struct_instances: vec![
            ("Pair".to_string(), vec![BirType::I32, BirType::Bool]),
            ("Unknown".to_string(), vec![BirType::I32]),
        ],
    };
    let layouts = generic_struct_layouts(&m, &mono);
    assert_eq!(layouts.len(), 1);
    assert_eq!(layouts[0].0, "PairIibE");
    // Type parameters bind in order of first occurrence: U first, then T.
    assert_eq!(
        layouts[0].1,
        vec![
            ("second".to_string(), BirType::I32),
            ("first".to_string(), BirType::Bool),
            ("again".to_string(), BirType::I32),
        ]
    );
}

#[test]
fn type_params_of_types() {
    let t = generic("Pair", vec![tp("B"), BirType::Array { element: Box::new(generic("Box", vec![tp("A"), tp("B")])), size: 1 }]);
    assert!(contains_type_param(&t));
    assert!(!contains_type_param(&generic("Pair", vec![BirType::I32, BirType::Bool])));
    let mut names = vec!["A".to_string()];
    collect_type_params(&t, &mut names);
    assert_eq!(names, vec!["A".to_string(), "B".to_string()]);
    let mut names = vec![];
    collect_type_params(&t, &mut names);
    assert_eq!(names, vec!["B".to_string(), "A".to_string()]);
}

fn caller() -> BirFunction {
    BirFunction {
        name: "caller".to_string(),
        type_params: vec![],
        params: vec![(Value(0), generic("Box", vec![BirType::I64]))],
        return_type: BirType::Unit,
        blocks: vec![BasicBlock {
            label: 0,
            params: vec![(Value(9), BirType::Bool)],
            instructions: vec![
                Instruction::Call {
                    result: Value(1),
                    func_name: "identity".to_string(),
                    args: vec![Value(0)],
                    type_args: vec![BirType::F64],
                    ty: tp("T"),
                },
                Instruction::FieldGet {
                    result: Value(2),
                    object: Value(0),
                    field: "value".to_string(),
                    object_ty: generic("Box", vec![tp("T")]),
                    ty: tp("T"),
                },
                Instruction::Compare {
                    result: Value(3),
                    op: bengal::bir::instruction::BirCompareOp::Lt,
                    lhs: Value(1),
                    rhs: Value(1),
                    ty: BirType::F64,
                },
                Instruction::Literal { result: Value(9), value: 1, ty: BirType::I32 },
            ],
            terminator: Terminator::ReturnVoid,
        }],
        body: vec![],
    }
}

#[test]
fn value_types_resolve_generic_calls_and_fields() {
    let caller = caller();
    let mut m = module(vec![identity(), self::caller()]);
    m.struct_type_params = vec![("Box".to_string(), vec!["T".to_string()])];
    let types = collect_value_types(&caller, &m);
    assert_eq!(types.len(), 5);
    assert_eq!(types[&0], generic("Box", vec![BirType::I64]));
    assert_eq!(types[&1], BirType::F64);
    assert_eq!(types[&2], BirType::I64);
    assert_eq!(types[&3], BirType::Bool);
    assert_eq!(types[&9], BirType::I32);
}

#[test]
fn find_block_by_label() {
    let blocks = vec![
        BasicBlock { label: 3, params: vec![], instructions: vec![], terminator: Terminator::ReturnVoid },
        BasicBlock { label: 1, params: vec![], instructions: vec![], terminator: Terminator::Return(Value(0)) },
    ];
    assert_eq!(find_block(&blocks, 1).terminator, Terminator::Return(Value(0)));
    assert_eq!(find_block(&blocks, 3).label, 3);
}

#[test]
fn instruction_selection() {
    assert_eq!(select_binop(BirBinOp::Div, &BirType::I32), Some(BinOpKind::IntSignedDiv));
    assert_eq!(select_binop(BirBinOp::Sub, &BirType::F64), Some(BinOpKind::FloatSub));
    assert_eq!(select_binop(BirBinOp::Add, &BirType::Bool), None);
    assert_eq!(select_compare(BirCompareOp::Lt, &BirType::Bool), Some(ComparePlan::Int(IntPredicate::Slt)));
    assert_eq!(select_compare(BirCompareOp::Ne, &BirType::F32), Some(ComparePlan::Float(FloatPredicate::One)));
    assert_eq!(select_compare(BirCompareOp::Eq, &BirType::Unit), None);
    assert_eq!(select_cast(&BirType::I32, &BirType::I64), Some(CastPlan::SignExtend));
    assert_eq!(select_cast(&BirType::F64, &BirType::I32), Some(CastPlan::FloatToSignedInt));
    assert_eq!(select_cast(&BirType::Bool, &BirType::I64), Some(CastPlan::ZeroExtend));
    assert_eq!(select_cast(&tp("T"), &tp("T")), Some(CastPlan::Keep));
    assert_eq!(select_cast(&BirType::I32, &BirType::Bool), None);
    assert_eq!(select_literal(-1, &BirType::I32), LiteralPlan::Int32(0xFFFF_FFFF));
    assert_eq!(select_literal(-1, &BirType::I64), LiteralPlan::Int64(u64::MAX));
    assert_eq!(select_literal(1.5f32.to_bits() as i64, &BirType::F32), LiteralPlan::Float32Bits(1.5f32.to_bits()));
    assert_eq!(select_literal(1, &BirType::Unit), LiteralPlan::Nothing);
    assert_eq!(select_literal(1, &generic("Point", vec![])), LiteralPlan::Unsupported);
}

#[test]
fn call_targets_and_fields() {
    let mut m = module(vec![identity(), main_fn()]);
    m.struct_layouts = vec![("Point".to_string(), vec![("x".to_string(), BirType::I32), ("y".to_string(), BirType::I32)])];
    let (name, ty) = call_target(&m, &"identity".to_string(), &vec![BirType::Bool], &tp("T"));
    assert_eq!((name.as_str(), ty), ("identityIbE", BirType::Bool));
    let (name, ty) = call_target(&m, &"main".to_string(), &vec![], &BirType::I32);
    assert_eq!((name.as_str(), ty), ("main", BirType::I32));
    let mut types = std::collections::HashMap::new();
    types.insert(0u32, BirType::I32);
    types.insert(1u32, BirType::Unit);
    assert_eq!(call_arg_values(&vec![Value(0), Value(1), Value(2), Value(0)], &types), vec![Value(0), Value(0)]);
    assert_eq!(field_index(&m, &"Point".to_string(), &"y".to_string()).unwrap(), 1);
    match field_index(&m, &"Point".to_string(), &"z".to_string()) {
        Err(BengalError::CodegenError { message }) => assert_eq!(message, "unknown field z in struct Point"),
        other => panic!("expected a codegen error, got {:?}", other),
    }
    match field_index(&m, &"Line".to_string(), &"a".to_string()) {
        Err(BengalError::CodegenError { message }) => assert_eq!(message, "no layout for struct: Line"),
        other => panic!("expected a codegen error, got {:?}", other),
    }
}
