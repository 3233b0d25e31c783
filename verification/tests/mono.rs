use std::collections::HashSet;

use bengal::bir::instruction::{BasicBlock, BirFunction, BirModule, BirType, Instruction, Terminator, Value};
use bengal::bir::mono::{mono_collect, resolve_bir_type, Instance};

#[test]
fn resolve_type_param() {
    let subst: Vec<(String, BirType)> = vec![("T".into(), BirType::I32)];
    assert_eq!(
        resolve_bir_type(&BirType::TypeParam("T".into()), &subst),
        BirType::I32
    );
}

#[test]
fn resolve_nested_array() {
    let subst: Vec<(String, BirType)> = vec![("T".into(), BirType::Bool)];
    let input = BirType::Array {
        element: Box::new(BirType::TypeParam("T".into())),
        size: 3,
    };
    let expected = BirType::Array {
        element: Box::new(BirType::Bool),
        size: 3,
    };
    assert_eq!(resolve_bir_type(&input, &subst), expected);
}

#[test]
fn resolve_generic_struct() {
    let subst: Vec<(String, BirType)> =
        vec![("T".into(), BirType::I32), ("U".into(), BirType::Bool)];
    let input = BirType::Struct {
        name: "Pair".into(),
        type_args: vec![
            BirType::TypeParam("T".into()),
            BirType::TypeParam("U".into()),
        ],
    };
    let expected = BirType::Struct {
        name: "Pair".into(),
        type_args: vec![BirType::I32, BirType::Bool],
    };
    assert_eq!(resolve_bir_type(&input, &subst), expected);
}

#[test]
fn resolve_concrete_passthrough() {
    let subst: Vec<(String, BirType)> = Vec::new();
    assert_eq!(resolve_bir_type(&BirType::I32, &subst), BirType::I32);
}

#[test]
fn instance_mangle_single() {
    let inst = Instance {
        func_name: "_BGFN3pkg8identityE".into(),
        type_args: vec![BirType::I32],
    };
    assert_eq!(inst.mangled_name(), "_BGFN3pkg8identityEIiE");
}

#[test]
fn instance_mangle_multi() {
    let inst = Instance {
        func_name: "_BGFN3pkg4swapE".into(),
        type_args: vec![BirType::I32, BirType::Bool],
    };
    assert_eq!(inst.mangled_name(), "_BGFN3pkg4swapEIibE");
}

#[test]
fn instance_mangle_struct_arg() {
    let inst = Instance {
        func_name: "_BGFN3pkg8getFirstE".into(),
        type_args: vec![BirType::struct_simple("Point".into()), BirType::I32],
    };
    assert_eq!(inst.mangled_name(), "_BGFN3pkg8getFirstEIS5PointiE");
}

#[test]
fn instance_no_type_args() {
    let inst = Instance {
        func_name: "main".into(),
        type_args: vec![],
    };
    assert_eq!(inst.mangled_name(), "main");
}

// ------------------------------------------------------------------
// Helper to build a minimal BirModule
// ------------------------------------------------------------------
fn make_module(functions: Vec<BirFunction>) -> BirModule {
    BirModule {
        struct_layouts: Vec::new(),
        struct_type_params: Vec::new(),
        functions,
        conformance_map: Vec::new(),
    }
}

fn make_block(
    label: u32,
    params: Vec<(Value, BirType)>,
    instructions: Vec<Instruction>,
    terminator: Terminator,
) -> BasicBlock {
    BasicBlock {
        label,
        params,
        instructions,
        terminator,
    }
}

// ------------------------------------------------------------------
// Test 1: mono_collect_identity
// ------------------------------------------------------------------
#[test]
fn mono_collect_identity() {
    // @identity<T>(%0: TypeParam("T")) -> TypeParam("T") { bb0: return %0 }
    let identity = BirFunction {
        name: "identity".into(),
        type_params: vec!["T".into()],
        params: vec![(Value(0), BirType::TypeParam("T".into()))],
        return_type: BirType::TypeParam("T".into()),
        blocks: vec![make_block(0, vec![], vec![], Terminator::Return(Value(0)))],
        body: vec![],
    };

    // @main() -> I32 {
    //   %0 = literal 42 : I32
    //   %1 = call @identity(%0) type_args=[I32] : I32
    //   return %1
    // }
    let main_func = BirFunction {
        name: "main".into(),
        type_params: vec![],
        params: vec![],
        return_type: BirType::I32,
        blocks: vec![make_block(
            0,
            vec![],
            vec![
                Instruction::Literal {
                    result: Value(0),
                    value: 42,
                    ty: BirType::I32,
                },
                Instruction::Call {
                    result: Value(1),
                    func_name: "identity".into(),
                    args: vec![Value(0)],
                    type_args: vec![BirType::I32],
                    ty: BirType::I32,
                },
            ],
            Terminator::Return(Value(1)),
        )],
        body: vec![],
    };

    let bir = make_module(vec![identity, main_func]);
    let result = mono_collect(&bir, "main");

    assert_eq!(result.func_instances.len(), 1);
    assert_eq!(result.func_instances[0].func_name, "identity");
    assert_eq!(result.func_instances[0].type_args, vec![BirType::I32]);
    assert!(result.struct_instances.is_empty());
}

// ------------------------------------------------------------------
// Test 2: mono_collect_generic_struct
// ------------------------------------------------------------------
#[test]
fn mono_collect_generic_struct() {
    let pair_ty = BirType::Struct {
        name: "Pair".into(),
        type_args: vec![
            BirType::TypeParam("T".into()),
            BirType::TypeParam("U".into()),
        ],
    };
    let pair_concrete = BirType::Struct {
        name: "Pair".into(),
        type_args: vec![BirType::I32, BirType::Bool],
    };

    // @idPair<T, U>(%0: Pair<T,U>) -> Pair<T,U> { return %0 }
    let id_pair = BirFunction {
        name: "idPair".into(),
        type_params: vec!["T".into(), "U".into()],
        params: vec![(Value(0), pair_ty.clone())],
        return_type: pair_ty.clone(),
        blocks: vec![make_block(0, vec![], vec![], Terminator::Return(Value(0)))],
        body: vec![],
    };

    // @main() -> I32 {
    //   %0 = struct_init @Pair { ... } type_args=[I32, Bool] : Pair<I32, Bool>
    //   %1 = call @idPair(%0) type_args=[I32, Bool] : Pair<I32, Bool>
    //   return %1
    // }
    let main_func = BirFunction {
        name: "main".into(),
        type_params: vec![],
        params: vec![],
        return_type: BirType::I32,
        blocks: vec![make_block(
            0,
            vec![],
            vec![
                Instruction::StructInit {
                    result: Value(0),
                    struct_name: "Pair".into(),
                    fields: vec![("first".into(), Value(10)), ("second".into(), Value(11))],
                    type_args: vec![BirType::I32, BirType::Bool],
                    ty: pair_concrete.clone(),
                },
                Instruction::Call {
                    result: Value(1),
                    func_name: "idPair".into(),
                    args: vec![Value(0)],
                    type_args: vec![BirType::I32, BirType::Bool],
                    ty: pair_concrete.clone(),
                },
            ],
            Terminator::Return(Value(1)),
        )],
        body: vec![],
    };

    let bir = make_module(vec![id_pair, main_func]);
    let result = mono_collect(&bir, "main");

    assert_eq!(result.func_instances.len(), 1);
    assert_eq!(result.func_instances[0].func_name, "idPair");
    assert_eq!(
        result.func_instances[0].type_args,
        vec![BirType::I32, BirType::Bool]
    );
    assert!(
        result
            .struct_instances
            .contains(&("Pair".into(), vec![BirType::I32, BirType::Bool]))
    );
}

// ------------------------------------------------------------------
// Test 3: mono_collect_transitive
// ------------------------------------------------------------------
#[test]
fn mono_collect_transitive() {
    // @bar<T>(%0: TypeParam("T")) -> TypeParam("T") { return %0 }
    let bar = BirFunction {
        name: "bar".into(),
        type_params: vec!["T".into()],
        params: vec![(Value(0), BirType::TypeParam("T".into()))],
        return_type: BirType::TypeParam("T".into()),
        blocks: vec![make_block(0, vec![], vec![], Terminator::Return(Value(0)))],
        body: vec![],
    };

    // @foo<T>(%0: TypeParam("T")) -> TypeParam("T") {
    //   %1 = call @bar(%0) type_args=[TypeParam("T")] : TypeParam("T")
    //   return %1
    // }
    let foo = BirFunction {
        name: "foo".into(),
        type_params: vec!["T".into()],
        params: vec![(Value(0), BirType::TypeParam("T".into()))],
        return_type: BirType::TypeParam("T".into()),
        blocks: vec![make_block(
            0,
            vec![],
            vec![Instruction::Call {
                result: Value(1),
                func_name: "bar".into(),
                args: vec![Value(0)],
                type_args: vec![BirType::TypeParam("T".into())],
                ty: BirType::TypeParam("T".into()),
            }],
            Terminator::Return(Value(1)),
        )],
        body: vec![],
    };

    // @main() -> I32 {
    //   %0 = literal 42 : I32
    //   %1 = call @foo(%0) type_args=[I32] : I32
    //   return %1
    // }
    let main_func = BirFunction {
        name: "main".into(),
        type_params: vec![],
        params: vec![],
        return_type: BirType::I32,
        blocks: vec![make_block(
            0,
            vec![],
            vec![
                Instruction::Literal {
                    result: Value(0),
                    value: 42,
                    ty: BirType::I32,
                },
                Instruction::Call {
                    result: Value(1),
                    func_name: "foo".into(),
                    args: vec![Value(0)],
                    type_args: vec![BirType::I32],
                    ty: BirType::I32,
                },
            ],
            Terminator::Return(Value(1)),
        )],
        body: vec![],
    };

    let bir = make_module(vec![bar, foo, main_func]);
    let result = mono_collect(&bir, "main");

    assert_eq!(result.func_instances.len(), 2);
    let names: HashSet<&str> = result
        .func_instances
        .iter()
        .map(|i| i.func_name.as_str())
        .collect();
    assert!(names.contains("foo"));
    assert!(names.contains("bar"));
    for inst in &result.func_instances {
        assert_eq!(inst.type_args, vec![BirType::I32]);
    }
}

fn call(result: u32, name: &str, ty: BirType) -> Instruction {
    Instruction::Call {
        result: Value(result),
        func_name: name.into(),
        args: vec![],
        type_args: vec![ty.clone()],
        ty,
    }
}

fn generic(name: &str, instructions: Vec<Instruction>) -> BirFunction {
    BirFunction {
        name: name.into(),
        type_params: vec!["T".into()],
        params: vec![],
        return_type: BirType::Unit,
        blocks: vec![make_block(0, vec![], instructions, Terminator::ReturnVoid)],
        body: vec![],
    }
}

#[test]
fn mono_collect_order_follows_the_work_list() {
    let identity = generic("identity", vec![]);
    let bar = generic("bar", vec![]);
    let foo = generic(
        "foo",
        vec![Instruction::Call {
            result: Value(0),
            func_name: "bar".into(),
            args: vec![],
            type_args: vec![BirType::TypeParam("T".into())],
            ty: BirType::Unit,
        }],
    );
    let main_func = BirFunction {
        name: "main".into(),
        type_params: vec![],
        params: vec![],
        return_type: BirType::Unit,
        blocks: vec![make_block(
            0,
            vec![],
            vec![
                call(0, "identity", BirType::I32),
                call(1, "identity", BirType::Bool),
                call(2, "foo", BirType::I64),
                call(3, "identity", BirType::I32),
            ],
            Terminator::ReturnVoid,
        )],
        body: vec![],
    };
    let bir = make_module(vec![identity, bar, foo, main_func]);
    let result = mono_collect(&bir, "main");
    let order: Vec<(String, Vec<BirType>)> = result
        .func_instances
        .iter()
        .map(|i| (i.func_name.clone(), i.type_args.clone()))
        .collect();
    assert_eq!(
        order,
        vec![
            ("foo".to_string(), vec![BirType::I64]),
            ("bar".to_string(), vec![BirType::I64]),
            ("identity".to_string(), vec![BirType::Bool]),
            ("identity".to_string(), vec![BirType::I32]),
        ]
    );
    // The entry name plays no part.
    let other = mono_collect(&bir, "elsewhere");
    assert_eq!(other.func_instances, result.func_instances);
}
