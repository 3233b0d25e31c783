use bengal::bir::instruction::{
    BasicBlock, BirBinOp, BirCompareOp, BirFunction, BirModule, BirType, CfgRegion, Instruction, Terminator, Value,
};
use bengal::bir::printer::{format_binop, format_compare_op, format_type, format_value, print_module};

fn module_of(functions: Vec<BirFunction>) -> BirModule {
    BirModule {
        struct_layouts: vec![],
        struct_type_params: vec![],
        functions,
        conformance_map: vec![],
    }
}

fn function(name: &str, return_type: BirType, blocks: Vec<BasicBlock>) -> BirFunction {
    BirFunction {
        name: name.to_string(),
        type_params: vec![],
        params: vec![],
        return_type,
        blocks,
        body: vec![CfgRegion::Block(0)],
    }
}

#[test]
fn format_type_struct() {
    assert_eq!(format_type(&BirType::struct_simple("Foo".to_string())), "Foo");
}

#[test]
fn print_struct_instructions() {
    let module = BirModule {
        struct_layouts: vec![(
            "Point".to_string(),
            vec![("x".to_string(), BirType::I32), ("y".to_string(), BirType::I32)],
        )],
        struct_type_params: vec![],
        conformance_map: vec![],
        functions: vec![BirFunction {
            name: "test".to_string(),
            type_params: vec![],
            params: vec![],
            return_type: BirType::Unit,
            blocks: vec![BasicBlock {
                label: 0,
                params: vec![],
                instructions: vec![
                    Instruction::Literal { result: Value(0), value: 1, ty: BirType::I32 },
                    Instruction::Literal { result: Value(1), value: 2, ty: BirType::I32 },
                    Instruction::StructInit {
                        result: Value(2),
                        struct_name: "Point".to_string(),
                        fields: vec![("x".to_string(), Value(0)), ("y".to_string(), Value(1))],
                        type_args: vec![],
                        ty: BirType::struct_simple("Point".to_string()),
                    },
                    Instruction::FieldGet {
                        result: Value(3),
                        object: Value(2),
                        field: "x".to_string(),
                        object_ty: BirType::struct_simple("Point".to_string()),
                        ty: BirType::I32,
                    },
                    Instruction::FieldSet {
                        result: Value(4),
                        object: Value(2),
                        field: "x".to_string(),
                        value: Value(3),
                        ty: BirType::struct_simple("Point".to_string()),
                    },
                ],
                terminator: Terminator::ReturnVoid,
            }],
            body: vec![CfgRegion::Block(0)],
        }],
    };
    let output = print_module(&module);
    assert!(
        output.contains(r#"%2 = struct_init @Point { x: %0, y: %1 } : Point"#),
        "StructInit not found in:\n{}",
        output
    );
    assert!(output.contains(r#"%3 = field_get %2, "x" : Int32"#), "FieldGet not found in:\n{}", output);
    assert!(output.contains(r#"%4 = field_set %2, "x", %3 : Point"#), "FieldSet not found in:\n{}", output);
}

#[test]
fn print_literal() {
    let module = module_of(vec![function(
        "main",
        BirType::I32,
        vec![BasicBlock {
            label: 0,
            params: vec![],
            instructions: vec![Instruction::Literal { result: Value(0), value: 42, ty: BirType::I32 }],
            terminator: Terminator::Return(Value(0)),
        }],
    )]);
    let expected = "\
bir @main() -> Int32 {
bb0:
    %0 = literal 42 : Int32
    return %0
}
";
    assert_eq!(print_module(&module), expected);
}

#[test]
fn print_binary_expr() {
    let module = module_of(vec![function(
        "main",
        BirType::I32,
        vec![BasicBlock {
            label: 0,
            params: vec![],
            instructions: vec![
                Instruction::Literal { result: Value(0), value: 2, ty: BirType::I32 },
                Instruction::Literal { result: Value(1), value: 3, ty: BirType::I32 },
                Instruction::Literal { result: Value(2), value: 4, ty: BirType::I32 },
                Instruction::BinaryOp { result: Value(3), op: BirBinOp::Mul, lhs: Value(1), rhs: Value(2), ty: BirType::I32 },
                Instruction::BinaryOp { result: Value(4), op: BirBinOp::Add, lhs: Value(0), rhs: Value(3), ty: BirType::I32 },
            ],
            terminator: Terminator::Return(Value(4)),
        }],
    )]);
    let expected = "\
bir @main() -> Int32 {
bb0:
    %0 = literal 2 : Int32
    %1 = literal 3 : Int32
    %2 = literal 4 : Int32
    %3 = binary_op mul %1, %2 : Int32
    %4 = binary_op add %0, %3 : Int32
    return %4
}
";
    assert_eq!(print_module(&module), expected);
}

#[test]
fn print_generic_call_and_params() {
    let f = BirFunction {
        name: "id".to_string(),
        type_params: vec!["T".to_string(), "U".to_string()],
        params: vec![(Value(0), BirType::TypeParam("T".to_string()))],
        return_type: BirType::TypeParam("T".to_string()),
        blocks: vec![BasicBlock {
            label: 0,
            params: vec![],
            instructions: vec![Instruction::Call {
                result: Value(1),
                func_name: "add".to_string(),
                args: vec![Value(0), Value(0)],
                type_args: vec![BirType::I64, BirType::Bool],
                ty: BirType::I64,
            }],
            terminator: Terminator::Return(Value(0)),
        }],
        body: vec![CfgRegion::Block(0)],
    };
    let out = print_module(&module_of(vec![f]));
    assert!(out.starts_with("bir @id<T, U>(%0: T) -> T {\n"), "{}", out);
    assert!(out.contains("%1 = call @add(%0, %0) type_args=[Int64, Bool] : Int64"), "{}", out);
}

#[test]
fn print_terminators() {
    let blocks = vec![
        BasicBlock {
            label: 0,
            params: vec![],
            instructions: vec![
                Instruction::Compare { result: Value(0), op: BirCompareOp::Lt, lhs: Value(1), rhs: Value(2), ty: BirType::Bool },
                Instruction::Not { result: Value(3), operand: Value(0) },
            ],
            terminator: Terminator::CondBr { cond: Value(3), then_bb: 1, else_bb: 2 },
        },
        BasicBlock {
            label: 1,
            params: vec![(Value(4), BirType::I32)],
            instructions: vec![],
            terminator: Terminator::BrBreak {
                header_bb: 3,
                exit_bb: 4,
                args: vec![(Value(4), BirType::I32)],
                value: Some((Value(5), BirType::Bool)),
            },
        },
        BasicBlock {
            label: 2,
            params: vec![],
            instructions: vec![],
            terminator: Terminator::BrBreak { header_bb: 3, exit_bb: 4, args: vec![], value: None },
        },
        BasicBlock {
            label: 3,
            params: vec![],
            instructions: vec![],
            terminator: Terminator::BrContinue { header_bb: 3, args: vec![(Value(6), BirType::I64)] },
        },
        BasicBlock {
            label: 4,
            params: vec![],
            instructions: vec![],
            terminator: Terminator::Br { target: 5, args: vec![] },
        },
        BasicBlock {
            label: 5,
            params: vec![],
            instructions: vec![],
            terminator: Terminator::BrBreak { header_bb: 1, exit_bb: 2, args: vec![], value: Some((Value(7), BirType::F64)) },
        },
    ];
    let out = print_module(&module_of(vec![function("loops", BirType::Unit, blocks)]));
    assert!(out.contains("    %0 = compare lt %1, %2 : Bool\n"), "{}", out);
    assert!(out.contains("    %3 = not %0 : Bool\n"), "{}", out);
    assert!(out.contains("    cond_br %3, bb1, bb2\n"), "{}", out);
    assert!(out.contains("bb1(%4: Int32):\n"), "{}", out);
    assert!(out.contains("    br_break bb3 -> bb4(%4: Int32, value %5: Bool)\n"), "{}", out);
    assert!(out.contains("    br_break bb3 -> bb4\n"), "{}", out);
    assert!(out.contains("    br_continue bb3(%6: Int64)\n"), "{}", out);
    assert!(out.contains("    br bb5\n"), "{}", out);
    assert!(out.contains("    br_break bb1 -> bb2(value %7: Float64)\n"), "{}", out);
}

#[test]
fn print_array_and_cast_instructions() {
    let arr = BirType::Array { element: Box::new(BirType::I32), size: 3 };
    let blocks = vec![BasicBlock {
        label: 0,
        params: vec![],
        instructions: vec![
            Instruction::ArrayInit { result: Value(3), ty: arr.clone(), elements: vec![Value(0), Value(1), Value(2)] },
            Instruction::ArrayGet { result: Value(4), ty: BirType::I32, array: Value(3), index: Value(0), array_size: 3 },
            Instruction::ArraySet { result: Value(5), ty: arr.clone(), array: Value(3), index: Value(0), value: Value(4), array_size: 3 },
            Instruction::Cast { result: Value(6), operand: Value(4), from_ty: BirType::I32, to_ty: BirType::I64 },
            Instruction::Literal { result: Value(7), value: -5, ty: BirType::I64 },
        ],
        terminator: Terminator::ReturnVoid,
    }];
    let out = print_module(&module_of(vec![function("arr", BirType::Unit, blocks)]));
    assert!(out.contains("%3 = array_init [%0, %1, %2] : [Int32; 3]"), "{}", out);
    assert!(out.contains("%4 = array_get %3, %0 : Int32 (size 3)"), "{}", out);
    assert!(out.contains("%5 = array_set %3, %0, %4 : [Int32; 3] (size 3)"), "{}", out);
    assert!(out.contains("%6 = cast %4 : Int32 -> Int64"), "{}", out);
    assert!(out.contains("%7 = literal -5 : Int64"), "{}", out);
    assert!(out.ends_with("    return_void\n}\n"), "{}", out);
}

#[test]
fn format_helpers() {
    let generic = BirType::Struct {
        name: "Pair".to_string(),
        type_args: vec![BirType::I32, BirType::Array { element: Box::new(BirType::F32), size: 2 }],
    };
    assert_eq!(format_type(&generic), "Pair<Int32, [Float32; 2]>");
    assert_eq!(format_type(&BirType::Unit), "()");
    assert_eq!(format_type(&BirType::Error), "<error>");
    assert_eq!(format_value(&Value(17)), "%17");
    assert_eq!(format_binop(&BirBinOp::Div), "div");
    assert_eq!(format_compare_op(&BirCompareOp::Ge), "ge");
    assert_eq!(print_module(&module_of(vec![])), "");
}

#[test]
fn print_call() {
    // func add(a: Int32, b: Int32) -> Int32 { return a + b; } func main() -> Int32 { return add(1, 2); }
    let add = BirFunction {
        name: "add".to_string(),
        type_params: vec![],
        params: vec![(Value(0), BirType::I32), (Value(1), BirType::I32)],
        return_type: BirType::I32,
        blocks: vec![BasicBlock {
            label: 0,
            params: vec![],
            instructions: vec![Instruction::BinaryOp {
                result: Value(2),
                op: BirBinOp::Add,
                lhs: Value(0),
                rhs: Value(1),
                ty: BirType::I32,
            }],
            terminator: Terminator::Return(Value(2)),
        }],
        body: vec![CfgRegion::Block(0)],
    };
    let main = function(
        "main",
        BirType::I32,
        vec![BasicBlock {
            label: 0,
            params: vec![],
            instructions: vec![
                Instruction::Literal { result: Value(0), value: 1, ty: BirType::I32 },
                Instruction::Literal { result: Value(1), value: 2, ty: BirType::I32 },
                Instruction::Call {
                    result: Value(2),
                    func_name: "add".to_string(),
                    args: vec![Value(0), Value(1)],
                    type_args: vec![],
                    ty: BirType::I32,
                },
            ],
            terminator: Terminator::Return(Value(2)),
        }],
    );
    let output = print_module(&module_of(vec![add, main]));
    assert!(output.contains("call @add(%0, %1) : Int32"));
}

#[test]
fn print_module_is_concatenation_of_functions() {
    let block = |v: i64| BasicBlock {
        label: 0,
        params: vec![],
        instructions: vec![Instruction::Literal { result: Value(0), value: v, ty: BirType::I32 }],
        terminator: Terminator::Return(Value(0)),
    };
    let f = || function("f", BirType::I32, vec![block(1)]);
    let g = || function("g", BirType::I32, vec![block(2)]);
    let both = print_module(&module_of(vec![f(), g()]));
    let only_f = print_module(&module_of(vec![f()]));
    let only_g = print_module(&module_of(vec![g()]));
    assert_eq!(both, format!("{}{}", only_f, only_g));
    assert_eq!(only_f, "bir @f() -> Int32 {\nbb0:\n    %0 = literal 1 : Int32\n    return %0\n}\n");
    let mut with_layouts = module_of(vec![f(), g()]);
    with_layouts.struct_layouts = vec![("P".to_string(), vec![("x".to_string(), BirType::I32)])];
    with_layouts.struct_type_params = vec![("P".to_string(), vec!["T".to_string()])];
    assert_eq!(print_module(&with_layouts), both);
}
