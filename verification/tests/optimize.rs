use bengal::bir::instruction::{
    BasicBlock, BirBinOp, BirCompareOp, BirFunction, BirModule, BirType, CfgRegion, Instruction, Terminator, Value,
};
use bengal::bir::optimize::optimize_module;
use bengal::bir::printer::print_module;

fn float_binop(op: BirBinOp, wide: bool, a: i64, b: i64) -> i64 {
    if wide {
        let (x, y) = (f64::from_bits(a as u64), f64::from_bits(b as u64));
        let r = match op {
            BirBinOp::Add => x + y,
            BirBinOp::Sub => x - y,
            BirBinOp::Mul => x * y,
            BirBinOp::Div => x / y,
        };
        r.to_bits() as i64
    } else {
        let (x, y) = (f32::from_bits(a as u32), f32::from_bits(b as u32));
        let r = match op {
            BirBinOp::Add => x + y,
            BirBinOp::Sub => x - y,
            BirBinOp::Mul => x * y,
            BirBinOp::Div => x / y,
        };
        r.to_bits() as i64
    }
}

fn float_compare(op: BirCompareOp, wide: bool, a: i64, b: i64) -> bool {
    let (x, y) = if wide {
        (f64::from_bits(a as u64), f64::from_bits(b as u64))
    } else {
        (f32::from_bits(a as u32) as f64, f32::from_bits(b as u32) as f64)
    };
    match op {
        BirCompareOp::Eq => x == y,
        BirCompareOp::Ne => x != y,
        BirCompareOp::Lt => x < y,
        BirCompareOp::Gt => x > y,
        BirCompareOp::Le => x <= y,
        BirCompareOp::Ge => x >= y,
    }
}

fn lit(v: u32, value: i64, ty: BirType) -> Instruction {
    Instruction::Literal { result: Value(v), value, ty }
}

fn binop(v: u32, op: BirBinOp, l: u32, r: u32, ty: BirType) -> Instruction {
    Instruction::BinaryOp { result: Value(v), op, lhs: Value(l), rhs: Value(r), ty }
}

fn block(label: u32, instructions: Vec<Instruction>, terminator: Terminator) -> BasicBlock {
    BasicBlock { label, params: vec![], instructions, terminator }
}

fn function(name: &str, params: Vec<(Value, BirType)>, blocks: Vec<BasicBlock>, body: Vec<CfgRegion>) -> BirFunction {
    BirFunction { name: name.to_string(), type_params: vec![], params, return_type: BirType::I32, blocks, body }
}

fn module_of(functions: Vec<BirFunction>) -> BirModule {
    BirModule { struct_layouts: vec![], struct_type_params: vec![], functions, conformance_map: vec![] }
}

fn optimized_text(mut module: BirModule) -> String {
    optimize_module(&mut module, &float_binop, &float_compare);
    print_module(&module)
}

/// `func main() -> Int32 { return 2 + 3; }`
fn add_module() -> BirModule {
    module_of(vec![function(
        "main",
        vec![],
        vec![block(
            0,
            vec![lit(0, 2, BirType::I32), lit(1, 3, BirType::I32), binop(2, BirBinOp::Add, 0, 1, BirType::I32)],
            Terminator::Return(Value(2)),
        )],
        vec![CfgRegion::Block(0)],
    )])
}

#[test]
fn fold_add() {
    let text = optimized_text(add_module());
    assert!(text.contains("literal 5 : Int32"), "BIR:\n{}", text);
    assert!(!text.contains("binary_op add"), "BIR:\n{}", text);
}

#[test]
fn fold_add_removes_dead_literals() {
    let mut module = add_module();
    optimize_module(&mut module, &float_binop, &float_compare);
    let insts = &module.functions[0].blocks[0].instructions;
    assert_eq!(insts, &vec![lit(2, 5, BirType::I32)]);
    assert_eq!(module.functions[0].blocks[0].terminator, Terminator::Return(Value(2)));
    let expected = "\
bir @main() -> Int32 {
bb0:
    %2 = literal 5 : Int32
    return %2
}
";
    assert_eq!(print_module(&module), expected);
}

#[test]
fn fold_chain() {
    // 2 + 3 * 4
    let module = module_of(vec![function(
        "main",
        vec![],
        vec![block(
            0,
            vec![
                lit(0, 2, BirType::I32),
                lit(1, 3, BirType::I32),
                lit(2, 4, BirType::I32),
                binop(3, BirBinOp::Mul, 1, 2, BirType::I32),
                binop(4, BirBinOp::Add, 0, 3, BirType::I32),
            ],
            Terminator::Return(Value(4)),
        )],
        vec![CfgRegion::Block(0)],
    )]);
    let text = optimized_text(module);
    assert!(text.contains("literal 14 : Int32"), "BIR:\n{}", text);
    assert!(!text.contains("literal 12"), "BIR:\n{}", text);
}

#[test]
fn fold_compare() {
    // let x: Int32 = if 1 < 2 { yield 10; } else { yield 20; }; return x;
    let module = module_of(vec![function(
        "main",
        vec![],
        vec![
            block(
                0,
                vec![
                    lit(0, 1, BirType::I32),
                    lit(1, 2, BirType::I32),
                    Instruction::Compare {
                        result: Value(2),
                        op: BirCompareOp::Lt,
                        lhs: Value(0),
                        rhs: Value(1),
                        ty: BirType::I32,
                    },
                ],
                Terminator::CondBr { cond: Value(2), then_bb: 1, else_bb: 2 },
            ),
            block(1, vec![lit(3, 10, BirType::I32)], Terminator::Br { target: 3, args: vec![(Value(3), BirType::I32)] }),
            block(2, vec![lit(4, 20, BirType::I32)], Terminator::Br { target: 3, args: vec![(Value(4), BirType::I32)] }),
            BasicBlock {
                label: 3,
                params: vec![(Value(5), BirType::I32)],
                instructions: vec![],
                terminator: Terminator::Return(Value(5)),
            },
        ],
        vec![
            CfgRegion::IfElse {
                cond_region: vec![CfgRegion::Block(0)],
                cond_bb: 0,
                cond_value: Value(2),
                then_region: vec![CfgRegion::Block(1)],
                else_region: vec![CfgRegion::Block(2)],
                merge_bb: 3,
            },
            CfgRegion::Block(3),
        ],
    )]);
    let text = optimized_text(module);
    assert!(text.contains("literal 1 : Bool"), "BIR:\n{}", text);
    assert!(!text.contains("compare lt"), "BIR:\n{}", text);
    assert!(text.contains("literal 10 : Int32"), "BIR:\n{}", text);
    assert!(text.contains("literal 20 : Int32"), "BIR:\n{}", text);
}

#[test]
fn no_fold_param() {
    // func add1(x: Int32) -> Int32 { return x + 1; } func main() -> Int32 { return add1(5); }
    let module = module_of(vec![
        function(
            "add1",
            vec![(Value(0), BirType::I32)],
            vec![block(
                0,
                vec![lit(1, 1, BirType::I32), binop(2, BirBinOp::Add, 0, 1, BirType::I32)],
                Terminator::Return(Value(2)),
            )],
            vec![CfgRegion::Block(0)],
        ),
        function(
            "main",
            vec![],
            vec![block(
                0,
                vec![
                    lit(0, 5, BirType::I32),
                    Instruction::Call {
                        result: Value(1),
                        func_name: "add1".to_string(),
                        args: vec![Value(0)],
                        type_args: vec![],
                        ty: BirType::I32,
                    },
                ],
                Terminator::Return(Value(1)),
            )],
            vec![CfgRegion::Block(0)],
        ),
    ]);
    let text = optimized_text(module);
    assert!(text.contains("binary_op add"), "BIR:\n{}", text);
    assert!(text.contains("literal 1 : Int32"), "BIR:\n{}", text);
    assert!(text.contains("literal 5 : Int32"), "BIR:\n{}", text);
}

#[test]
fn unread_literal_is_removed_and_read_one_kept() {
    let module = module_of(vec![function(
        "main",
        vec![],
        vec![block(0, vec![lit(0, 7, BirType::I32), lit(1, 8, BirType::I32)], Terminator::Return(Value(1)))],
        vec![CfgRegion::Block(0)],
    )]);
    let text = optimized_text(module);
    assert!(!text.contains("literal 7"), "BIR:\n{}", text);
    assert!(text.contains("%1 = literal 8 : Int32"), "BIR:\n{}", text);
}

#[test]
fn division_by_zero_is_not_folded() {
    let module = module_of(vec![function(
        "main",
        vec![],
        vec![block(
            0,
            vec![lit(0, 1, BirType::I32), lit(1, 0, BirType::I32), binop(2, BirBinOp::Div, 0, 1, BirType::I32)],
            Terminator::Return(Value(2)),
        )],
        vec![CfgRegion::Block(0)],
    )]);
    let text = optimized_text(module);
    assert!(text.contains("binary_op div %0, %1 : Int32"), "BIR:\n{}", text);
    assert!(text.contains("%0 = literal 1 : Int32"), "BIR:\n{}", text);
}

#[test]
fn float_add_is_folded_by_the_supplied_function() {
    let module = module_of(vec![function(
        "main",
        vec![],
        vec![block(
            0,
            vec![
                lit(0, 1.5f64.to_bits() as i64, BirType::F64),
                lit(1, 2.25f64.to_bits() as i64, BirType::F64),
                binop(2, BirBinOp::Add, 0, 1, BirType::F64),
            ],
            Terminator::Return(Value(2)),
        )],
        vec![CfgRegion::Block(0)],
    )]);
    let mut module = module;
    optimize_module(&mut module, &float_binop, &float_compare);
    assert_eq!(module.functions[0].blocks[0].instructions, vec![lit(2, 3.75f64.to_bits() as i64, BirType::F64)]);
}

#[test]
fn optimizing_twice_changes_nothing_more() {
    let mut module = add_module();
    optimize_module(&mut module, &float_binop, &float_compare);
    let once = print_module(&module);
    optimize_module(&mut module, &float_binop, &float_compare);
    assert_eq!(print_module(&module), once);
}
