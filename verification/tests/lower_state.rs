use bengal::ast::{BinOp, Block, Function, Param, TypeAnnotation, TypeParam, Visibility};
use bengal::bir::instruction::{BirBinOp, BirCompareOp, BirType, CfgRegion, Instruction, Terminator, Value};
use bengal::bir::lower_state::{convert_binop, convert_compare_op, Lowering, StmtResult};
use bengal::error::{BengalError, DiagCtxt, Span};

/// A lowering with block 0 started, as at the start of a function body.
fn started() -> Lowering {
    let mut l = Lowering::new();
    let bb0 = l.fresh_block();
    l.start_block(bb0, vec![]);
    l.push_scope();
    l
}

fn literal(l: &mut Lowering, value: i64, ty: BirType) -> Value {
    let v = l.fresh_value();
    l.emit(Instruction::Literal { result: v, value, ty: ty.clone() });
    l.record_type(v, ty);
    v
}

#[test]
fn short_circuit_and_joins_rhs_and_false() {
    let mut l = started();
    let lhs = literal(&mut l, 1, BirType::Bool);
    let sc = l.short_circuit_and_enter(lhs);
    assert_eq!((sc.bb_then, sc.bb_else, sc.bb_merge), (1, 2, 3));
    let rhs = literal(&mut l, 0, BirType::Bool);
    let result = l.short_circuit_and_leave(sc, rhs);

    assert_eq!(l.blocks.len(), 3);
    assert_eq!(l.blocks[0].terminator, Terminator::CondBr { cond: lhs, then_bb: 1, else_bb: 2 });
    assert_eq!(l.blocks[1].label, 1);
    assert_eq!(l.blocks[1].terminator, Terminator::Br { target: 3, args: vec![(rhs, BirType::Bool)] });
    assert_eq!(l.blocks[2].label, 2);
    assert_eq!(
        l.blocks[2].instructions,
        vec![Instruction::Literal { result: Value(2), value: 0, ty: BirType::Bool }]
    );
    assert_eq!(l.blocks[2].terminator, Terminator::Br { target: 3, args: vec![(Value(2), BirType::Bool)] });
    assert_eq!(result, Value(3));
    assert_eq!(l.current_block_label, 3);
    assert_eq!(l.current_block_params, vec![(Value(3), BirType::Bool)]);
    assert_eq!(l.pending_regions.len(), 1);
    match &l.pending_regions[0] {
        CfgRegion::IfElse { cond_bb, cond_value, then_region, else_region, merge_bb, .. } => {
            assert_eq!((*cond_bb, *cond_value, *merge_bb), (0, lhs, 3));
            assert_eq!(then_region, &vec![CfgRegion::Block(1)]);
            assert_eq!(else_region, &vec![CfgRegion::Block(2)]);
        }
        other => panic!("unexpected region {:?}", other),
    }
}

#[test]
fn short_circuit_or_joins_true_and_rhs() {
    let mut l = started();
    let lhs = literal(&mut l, 0, BirType::Bool);
    let sc = l.short_circuit_or_enter(lhs);
    assert_eq!(l.blocks.len(), 2);
    assert_eq!(l.blocks[0].terminator, Terminator::CondBr { cond: lhs, then_bb: 1, else_bb: 2 });
    assert_eq!(
        l.blocks[1].instructions,
        vec![Instruction::Literal { result: Value(1), value: 1, ty: BirType::Bool }]
    );
    assert_eq!(l.blocks[1].terminator, Terminator::Br { target: 3, args: vec![(Value(1), BirType::Bool)] });
    assert_eq!(l.current_block_label, 2);
    let rhs = literal(&mut l, 1, BirType::Bool);
    let result = l.short_circuit_or_leave(sc, rhs);
    assert_eq!(l.blocks[2].label, 2);
    assert_eq!(l.blocks[2].terminator, Terminator::Br { target: 3, args: vec![(rhs, BirType::Bool)] });
    assert_eq!(result, Value(3));
    assert_eq!(l.current_block_params, vec![(Value(3), BirType::Bool)]);
}

#[test]
fn if_else_value_is_join_block_parameter() {
    let mut l = started();
    let cond = literal(&mut l, 1, BirType::Bool);
    let head = l.if_else_enter(cond);
    assert_eq!((head.bb_then, head.bb_merge, head.bb_else), (1, 2, 3));
    let a = literal(&mut l, 10, BirType::I64);
    let then_end = l.if_else_switch(&head);
    let b = literal(&mut l, 20, BirType::I64);
    let result = l.if_else_leave(head, then_end, StmtResult::Yield(a), vec![], StmtResult::Yield(b), vec![]);

    assert_eq!(l.blocks.len(), 3);
    assert_eq!(l.blocks[0].terminator, Terminator::CondBr { cond, then_bb: 1, else_bb: 3 });
    assert_eq!(l.blocks[1].label, 1);
    assert_eq!(l.blocks[1].terminator, Terminator::Br { target: 2, args: vec![(a, BirType::I64)] });
    assert_eq!(l.blocks[2].label, 3);
    assert_eq!(l.blocks[2].terminator, Terminator::Br { target: 2, args: vec![(b, BirType::I64)] });
    assert_eq!(l.current_block_label, 2);
    assert_eq!(l.current_block_params, vec![(result, BirType::I64)]);
    assert_eq!(l.type_or_i32_of(result), BirType::I64);
    assert!(!l.last_expr_diverged);
}

#[test]
fn if_else_returning_branches_diverge() {
    let mut l = started();
    let cond = literal(&mut l, 1, BirType::Bool);
    let head = l.if_else_enter(cond);
    let a = literal(&mut l, 1, BirType::I32);
    let then_end = l.if_else_switch(&head);
    let result = l.if_else_leave(head, then_end, StmtResult::Return(a), vec![], StmtResult::ReturnVoid, vec![]);
    assert_eq!(l.blocks[1].terminator, Terminator::Return(a));
    assert_eq!(l.blocks[2].terminator, Terminator::ReturnVoid);
    assert!(l.current_block_params.is_empty());
    assert!(l.last_expr_diverged);
    assert_eq!(result, Value(2));
}

#[test]
fn if_without_else_drops_yield_and_gives_unit() {
    let mut l = started();
    let cond = literal(&mut l, 1, BirType::Bool);
    let head = l.if_only_enter(cond);
    assert_eq!((head.bb_then, head.bb_merge), (1, 2));
    let a = literal(&mut l, 5, BirType::I32);
    let result = l.if_only_leave(head, StmtResult::Yield(a), vec![]);
    assert_eq!(l.blocks[0].terminator, Terminator::CondBr { cond, then_bb: 1, else_bb: 2 });
    assert_eq!(l.blocks[1].terminator, Terminator::Br { target: 2, args: vec![] });
    assert_eq!(l.current_block_label, 2);
    assert_eq!(
        l.current_instructions,
        vec![Instruction::Literal { result, value: 0, ty: BirType::Unit }]
    );
}

#[test]
fn while_break_value_is_exit_block_parameter() {
    let mut l = started();
    let x0 = literal(&mut l, 0, BirType::I32);
    l.define_var("x".to_string(), x0);
    l.mutable_vars.push(("x".to_string(), BirType::I32));

    let head = l.while_enter();
    assert_eq!((head.bb_header, head.bb_body, head.bb_exit), (1, 2, 3));
    assert_eq!(l.blocks[0].terminator, Terminator::Br { target: 1, args: vec![(x0, BirType::I32)] });
    let x1 = head.header_params[0].0;
    assert_eq!(l.current_block_params, vec![(x1, BirType::I32)]);
    assert_eq!(l.try_lookup_var(&"x".to_string()), Some(x1));

    let cond = literal(&mut l, 1, BirType::Bool);
    let c = l.while_cond(&head, cond, true);
    assert_eq!(c.bb_nobreak, 4);
    assert_eq!(l.blocks[1].terminator, Terminator::CondBr { cond, then_bb: 2, else_bb: 4 });

    let args = l.collect_mutable_var_values();
    let v = literal(&mut l, 7, BirType::I64);
    let r = l.break_jump(args, Some(v));
    assert!(matches!(r, StmtResult::Break));
    assert_eq!(
        l.blocks[2].terminator,
        Terminator::BrBreak { header_bb: 1, exit_bb: 3, args: vec![(x1, BirType::I32)], value: Some((v, BirType::I64)) }
    );
    assert_eq!(l.current_block_label, 5);

    let (body_region, break_ty) = l.while_body_end(&head, StmtResult::Break, vec![]);
    assert_eq!(body_region, vec![CfgRegion::Block(2)]);
    assert_eq!(break_ty, Some(BirType::I64));
    assert_eq!(l.blocks[3].terminator, Terminator::ReturnVoid);

    l.nobreak_enter(c.bb_nobreak);
    let n = literal(&mut l, 0, BirType::I64);
    let nobreak_region = l.nobreak_leave(StmtResult::Yield(n), vec![], c.bb_nobreak, head.bb_exit, &break_ty);
    assert_eq!(nobreak_region, vec![CfgRegion::Block(4)]);
    assert_eq!(l.blocks[4].terminator, Terminator::Br { target: 3, args: vec![(n, BirType::I64)] });

    let result = l.while_exit(head, c, body_region, nobreak_region, break_ty);
    assert_eq!(l.current_block_label, 3);
    assert_eq!(l.current_block_params, vec![(result, BirType::I64)]);
    assert!(matches!(l.pending_regions.last(), Some(CfgRegion::While { header_bb: 1, exit_bb: 3, .. })));
}

#[test]
fn while_without_break_value_gives_unit() {
    let mut l = started();
    let head = l.while_enter();
    assert_eq!(l.blocks[0].terminator, Terminator::Br { target: 1, args: vec![] });
    let cond = literal(&mut l, 0, BirType::Bool);
    let c = l.while_cond(&head, cond, false);
    assert_eq!(c.bb_nobreak, head.bb_exit);
    let args = l.collect_mutable_var_values();
    let r = l.continue_jump(args);
    assert!(matches!(r, StmtResult::Continue));
    assert_eq!(l.blocks[2].terminator, Terminator::BrContinue { header_bb: 1, args: vec![] });
    let (body_region, break_ty) = l.while_body_end(&head, StmtResult::Continue, vec![]);
    assert_eq!(break_ty, None);
    let result = l.while_exit(head, c, body_region, vec![], None);
    assert_eq!(
        l.current_instructions,
        vec![Instruction::Literal { result, value: 0, ty: BirType::Unit }]
    );
    assert_eq!(l.type_or_i32_of(result), BirType::Unit);
}

#[test]
fn while_body_falls_through_to_header_with_updated_vars() {
    let mut l = started();
    let x0 = literal(&mut l, 0, BirType::I32);
    l.define_var("x".to_string(), x0);
    l.mutable_vars.push(("x".to_string(), BirType::I32));
    let head = l.while_enter();
    let x1 = head.header_params[0].0;
    let cond = literal(&mut l, 1, BirType::Bool);
    let c = l.while_cond(&head, cond, false);
    let x2 = literal(&mut l, 1, BirType::I32);
    l.assign_var(&"x".to_string(), x2);
    let (body_region, _) = l.while_body_end(&head, StmtResult::Normal, vec![]);
    assert_eq!(body_region, vec![CfgRegion::Block(2)]);
    assert_eq!(l.blocks[2].terminator, Terminator::Br { target: 1, args: vec![(x2, BirType::I32)] });
    // After the loop the variable holds the header parameter.
    assert_eq!(l.try_lookup_var(&"x".to_string()), Some(x1));
    let _ = l.while_exit(head, c, body_region, vec![], None);
}

#[test]
fn innermost_binding_is_found_and_rebound() {
    let mut l = started();
    l.define_var("a".to_string(), Value(1));
    l.push_scope();
    assert_eq!(l.try_lookup_var(&"a".to_string()), Some(Value(1)));
    l.define_var("a".to_string(), Value(2));
    assert_eq!(l.try_lookup_var(&"a".to_string()), Some(Value(2)));
    l.assign_var(&"a".to_string(), Value(3));
    l.pop_scope();
    assert_eq!(l.try_lookup_var(&"a".to_string()), Some(Value(1)));
    assert_eq!(l.try_lookup_var(&"b".to_string()), None);
}

#[test]
fn branch_block_sealing_follows_how_the_branch_ended() {
    let mut l = started();
    l.seal_branch_block(StmtResult::Normal, 9, &BirType::I32);
    assert_eq!(l.blocks[0].terminator, Terminator::Br { target: 9, args: vec![] });
    l.seal_branch_block(StmtResult::Break, 9, &BirType::I32);
    assert_eq!(l.blocks[1].terminator, Terminator::ReturnVoid);
    l.seal_branch_block(StmtResult::Yield(Value(4)), 9, &BirType::Bool);
    assert_eq!(l.blocks[2].terminator, Terminator::Br { target: 9, args: vec![(Value(4), BirType::Bool)] });
}

#[test]
fn literals_get_their_types() {
    let mut l = started();
    let a = l.lower_number(42);
    let b = l.lower_bool(true);
    let c = l.lower_float_bits(1.5f64.to_bits());
    assert_eq!(
        l.current_instructions,
        vec![
            Instruction::Literal { result: a, value: 42, ty: BirType::I32 },
            Instruction::Literal { result: b, value: 1, ty: BirType::Bool },
            Instruction::Literal { result: c, value: 1.5f64.to_bits() as i64, ty: BirType::F64 },
        ]
    );
    assert_eq!(l.type_or_i32_of(a), BirType::I32);
    assert_eq!(l.type_or_i32_of(b), BirType::Bool);
    assert_eq!(l.type_or_i32_of(c), BirType::F64);
    let f = l.lower_bool(false);
    assert_eq!(l.current_instructions[3], Instruction::Literal { result: f, value: 0, ty: BirType::Bool });
}

#[test]
fn operators_take_the_left_operand_type() {
    let mut l = started();
    let x = literal(&mut l, 3, BirType::I64);
    let y = literal(&mut l, 4, BirType::I64);
    let sum = l.lower_arith(BinOp::Sub, x, y);
    assert_eq!(
        l.current_instructions[2],
        Instruction::BinaryOp { result: sum, op: BirBinOp::Sub, lhs: x, rhs: y, ty: BirType::I64 }
    );
    assert_eq!(l.type_or_i32_of(sum), BirType::I64);
    let lt = l.lower_compare(BinOp::Lt, x, y);
    assert_eq!(
        l.current_instructions[3],
        Instruction::Compare { result: lt, op: BirCompareOp::Lt, lhs: x, rhs: y, ty: BirType::I64 }
    );
    assert_eq!(l.type_or_i32_of(lt), BirType::Bool);
    let not = l.lower_not(lt);
    assert_eq!(l.current_instructions[4], Instruction::Not { result: not, operand: lt });
    let cast = l.lower_cast_to(sum, BirType::I32);
    assert_eq!(
        l.current_instructions[5],
        Instruction::Cast { result: cast, operand: sum, from_ty: BirType::I64, to_ty: BirType::I32 }
    );
    // A value with no recorded type is taken as I32.
    let u = l.lower_arith(BinOp::Mul, Value(99), Value(98));
    assert_eq!(l.type_or_i32_of(u), BirType::I32);
}

#[test]
fn operator_conversion() {
    assert_eq!(convert_binop(BinOp::Add), BirBinOp::Add);
    assert_eq!(convert_binop(BinOp::Div), BirBinOp::Div);
    assert_eq!(convert_compare_op(BinOp::Ne), BirCompareOp::Ne);
    assert_eq!(convert_compare_op(BinOp::Ge), BirCompareOp::Ge);
}

fn generic_identity() -> Function {
    Function {
        visibility: Visibility::Public,
        name: "id".to_string(),
        type_params: vec![TypeParam { name: "T".to_string(), bound: None }],
        params: vec![
            Param { name: "x".to_string(), ty: TypeAnnotation::Named("T".to_string()) },
            Param {
                name: "p".to_string(),
                ty: TypeAnnotation::Generic {
                    name: "Pair".to_string(),
                    args: vec![TypeAnnotation::Named("T".to_string()), TypeAnnotation::Named("Point".to_string())],
                },
            },
        ],
        return_type: TypeAnnotation::Named("T".to_string()),
        body: Block { stmts: vec![] },
    }
}

#[test]
fn function_parameters_get_values_types_and_bindings() {
    let func = generic_identity();
    let mut l = Lowering::new();
    let params = l.function_enter(&func);
    let pair = BirType::Struct {
        name: "Pair".to_string(),
        type_args: vec![
            BirType::TypeParam("T".to_string()),
            BirType::Struct { name: "Point".to_string(), type_args: vec![] },
        ],
    };
    assert_eq!(params, vec![(Value(0), BirType::TypeParam("T".to_string())), (Value(1), pair.clone())]);
    assert_eq!(l.try_lookup_var(&"x".to_string()), Some(Value(0)));
    assert_eq!(l.try_lookup_var(&"p".to_string()), Some(Value(1)));
    assert_eq!(l.type_or_i32_of(Value(1)), pair);
    assert_eq!(l.current_block_label, 0);
    assert_eq!(l.next_block, 1);

    let f = l.finish_function(&func, params, StmtResult::Return(Value(0)), vec![]);
    assert_eq!(f.name, "id");
    assert_eq!(f.type_params, vec!["T".to_string()]);
    assert_eq!(f.return_type, BirType::TypeParam("T".to_string()));
    assert_eq!(f.blocks.len(), 1);
    assert_eq!(f.blocks[0].label, 0);
    assert_eq!(f.blocks[0].terminator, Terminator::Return(Value(0)));
    assert_eq!(f.body, vec![CfgRegion::Block(0)]);
    assert!(l.blocks.is_empty());
}

#[test]
fn names_are_emitted_through_the_name_map() {
    let mut l = Lowering::new();
    assert_eq!(l.resolve_name(&"main".to_string()), "main");
    l.name_map = Some(vec![("helper".to_string(), "pkg_mod_helper".to_string())]);
    assert_eq!(l.resolve_name(&"helper".to_string()), "pkg_mod_helper");
    assert_eq!(l.resolve_name(&"other".to_string()), "other");
    let mut func = generic_identity();
    func.name = "helper".to_string();
    let params = l.function_enter(&func);
    let f = l.finish_function(&func, params, StmtResult::ReturnVoid, vec![]);
    assert_eq!(f.name, "pkg_mod_helper");
    assert_eq!(f.blocks[0].terminator, Terminator::ReturnVoid);
}

#[test]
fn recorded_errors_move_into_the_diagnostics() {
    let mut l = started();
    let v = l.record_error("bare `self`".to_string(), Some(Span { start: 3, end: 7 }));
    assert_eq!(l.current_instructions, vec![Instruction::Literal { result: v, value: 0, ty: BirType::Unit }]);
    assert_eq!(l.type_or_i32_of(v), BirType::Unit);
    let mut diag = DiagCtxt::new();
    let r = l.collect_lowering_errors(&mut diag);
    match r {
        Err(BengalError::LoweringError { message, span }) => {
            assert_eq!(message, "lowering failed");
            assert!(span.is_none());
        }
        other => panic!("unexpected {:?}", other),
    }
    assert_eq!(diag.error_count(), 1);
    assert!(l.lowering_errors.is_empty());
    let errors = diag.take_errors();
    assert!(matches!(&errors[0], BengalError::LoweringError { message, span: Some(Span { start: 3, end: 7 }) } if message == "bare `self`"));
}

#[test]
fn no_recorded_errors_collects_to_ok() {
    let mut l = started();
    let mut diag = DiagCtxt::new();
    assert!(l.collect_lowering_errors(&mut diag).is_ok());
    assert_eq!(diag.error_count(), 0);
}

#[test]
fn var_declarations_register_once() {
    let mut l = started();
    let a = literal(&mut l, 1, BirType::I64);
    l.declare_var("n".to_string(), a);
    assert_eq!(l.mutable_vars, vec![("n".to_string(), BirType::I64)]);
    let b = literal(&mut l, 2, BirType::I64);
    l.declare_var("n".to_string(), b);
    assert_eq!(l.mutable_vars.len(), 1);
    assert_eq!(l.try_lookup_var(&"n".to_string()), Some(b));
    l.declare_var("m".to_string(), Value(50));
    assert_eq!(l.mutable_vars[1], ("m".to_string(), BirType::I32));
}

#[test]
fn block_statements_stop_at_the_first_that_leaves() {
    let mut l = started();
    let mut regions = vec![CfgRegion::Block(7)];
    l.pending_regions.push(CfgRegion::Block(8));
    assert!(!l.block_step(StmtResult::Normal, &mut regions));
    assert_eq!(regions, vec![CfgRegion::Block(7), CfgRegion::Block(8)]);
    assert!(l.pending_regions.is_empty());
    assert!(l.block_step(StmtResult::Yield(Value(1)), &mut regions));
    assert!(l.block_step(StmtResult::Break, &mut regions));

    l.push_scope();
    let v = l.block_expr_leave(StmtResult::Yield(Value(4)), vec![CfgRegion::Block(9)]);
    assert_eq!(v, Value(4));
    assert_eq!(l.pending_regions, vec![CfgRegion::Block(9)]);

    assert!(matches!(l.expr_stmt_result(), StmtResult::Normal));
    l.last_expr_diverged = true;
    assert!(matches!(l.expr_stmt_result(), StmtResult::ReturnVoid));
}

#[test]
fn arrays_read_and_write_by_index() {
    let mut l = started();
    let a = literal(&mut l, 1, BirType::I64);
    let b = literal(&mut l, 2, BirType::I64);
    let arr = l.lower_array_init(vec![a, b]);
    let arr_ty = BirType::Array { element: Box::new(BirType::I64), size: 2 };
    assert_eq!(l.current_instructions[2], Instruction::ArrayInit { result: arr, ty: arr_ty.clone(), elements: vec![a, b] });
    assert_eq!(l.type_or_i32_of(arr), arr_ty);

    let i = literal(&mut l, 0, BirType::I32);
    let got = l.lower_index_get(arr, i);
    assert_eq!(
        l.current_instructions[4],
        Instruction::ArrayGet { result: got, ty: BirType::I64, array: arr, index: i, array_size: 2 }
    );
    assert_eq!(l.type_or_i32_of(got), BirType::I64);

    l.define_var("xs".to_string(), arr);
    let set = l.lower_index_set(&"xs".to_string(), i, b);
    assert_eq!(
        l.current_instructions[5],
        Instruction::ArraySet { result: set, ty: arr_ty.clone(), array: arr, index: i, value: b, array_size: 2 }
    );
    assert_eq!(l.try_lookup_var(&"xs".to_string()), Some(set));

    let empty = l.lower_array_init(vec![]);
    assert_eq!(l.type_or_i32_of(empty), BirType::Array { element: Box::new(BirType::I32), size: 0 });
}

#[test]
fn calls_are_typed_by_signature_and_type_arguments() {
    let mut l = started();
    l.name_map = Some(vec![("first".to_string(), "pkg_first".to_string())]);
    l.func_sigs = vec![("pkg_first".to_string(), BirType::TypeParam("T".to_string()))];
    l.func_type_param_names = vec![("pkg_first".to_string(), vec!["T".to_string()])];
    let x = literal(&mut l, 3, BirType::I64);
    let r = l.lower_call_emit(&"first".to_string(), vec![x], vec![BirType::I64]);
    assert_eq!(
        l.current_instructions[1],
        Instruction::Call {
            result: r,
            func_name: "pkg_first".to_string(),
            args: vec![x],
            type_args: vec![BirType::I64],
            ty: BirType::TypeParam("T".to_string()),
        }
    );
    assert_eq!(l.type_or_i32_of(r), BirType::I64);

    let u = l.lower_call_emit(&"unknown".to_string(), vec![], vec![]);
    assert_eq!(
        l.current_instructions[2],
        Instruction::Call { result: u, func_name: "unknown".to_string(), args: vec![], type_args: vec![], ty: BirType::I32 }
    );
    assert_eq!(l.type_or_i32_of(u), BirType::I32);
}
