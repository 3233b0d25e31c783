use bengal::ast::{
    Block, Expr, ExprKind, Function, ModuleDecl, Param, Program, Stmt, StructDef, StructMember, TypeAnnotation, TypeParam,
    Visibility,
};
use bengal::error::Span;
use bengal::monomorphize::{mangle_name, monomorphize, substitute_type, type_annotation_to_string};
use bengal::semantic::{InferredSite, InferredTypeArgs};

fn span() -> Span {
    Span { start: 0, end: 0 }
}

fn expr(id: u32, kind: ExprKind) -> Expr {
    Expr { id, kind, span: span() }
}

fn ident(id: u32, name: &str) -> Expr {
    expr(id, ExprKind::Ident(name.to_string()))
}

fn ret(e: Expr) -> Block {
    Block { stmts: vec![Stmt::Return(Some(e))] }
}

fn tp(name: &str) -> TypeParam {
    TypeParam { name: name.to_string(), bound: None }
}

fn named(n: &str) -> TypeAnnotation {
    TypeAnnotation::Named(n.to_string())
}

fn identity_fn() -> Function {
    Function {
        visibility: Visibility::Public,
        name: "identity".to_string(),
        type_params: vec![tp("T")],
        params: vec![Param { name: "x".to_string(), ty: named("T") }],
        return_type: named("T"),
        body: ret(ident(1, "x")),
    }
}

fn main_calling(call: Expr) -> Function {
    Function {
        visibility: Visibility::Public,
        name: "main".to_string(),
        type_params: vec![],
        params: vec![],
        return_type: TypeAnnotation::I32,
        body: ret(call),
    }
}

fn program(functions: Vec<Function>, structs: Vec<StructDef>) -> Program<(), ()> {
    Program {
        module_decls: vec![ModuleDecl { name: "util".to_string() }],
        import_decls: vec![],
        structs,
        protocols: vec![],
        functions,
    }
}

fn no_inference() -> InferredTypeArgs {
    InferredTypeArgs { map: vec![] }
}

#[test]
fn mangled_names_of_type_arguments() {
    assert_eq!(mangle_name("identity", &vec![TypeAnnotation::I32]), "identity_Int32");
    assert_eq!(mangle_name("pair", &vec![TypeAnnotation::F64, TypeAnnotation::Bool]), "pair_Float64_Bool");
    let generic = TypeAnnotation::Generic { name: "Box".to_string(), args: vec![TypeAnnotation::I64] };
    assert_eq!(type_annotation_to_string(&generic), "Box_Int64");
    let array = TypeAnnotation::Array { element: Box::new(TypeAnnotation::Unit), size: 3 };
    assert_eq!(type_annotation_to_string(&array), "Array_Unit_3");
    assert_eq!(mangle_name("f", &vec![]), "f");
}

#[test]
fn substitution_reaches_nested_types() {
    let subst = vec![("T".to_string(), TypeAnnotation::I32)];
    let t = TypeAnnotation::Generic {
        name: "Box".to_string(),
        args: vec![TypeAnnotation::Array { element: Box::new(named("T")), size: 2 }, named("U")],
    };
    let expected = TypeAnnotation::Generic {
        name: "Box".to_string(),
        args: vec![TypeAnnotation::Array { element: Box::new(TypeAnnotation::I32), size: 2 }, named("U")],
    };
    assert_eq!(substitute_type(&t, &subst), expected);
}

#[test]
fn generic_function_is_specialized_and_call_renamed() {
    let call = expr(
        2,
        ExprKind::Call {
            name: "identity".to_string(),
            type_args: vec![TypeAnnotation::I32],
            args: vec![expr(3, ExprKind::Number(42))],
        },
    );
    let out = monomorphize(program(vec![identity_fn(), main_calling(call)], vec![]), &no_inference());
    assert_eq!(out.functions.len(), 2);
    assert_eq!(out.functions[0].name, "main");
    match &out.functions[0].body.stmts[0] {
        Stmt::Return(Some(Expr { kind: ExprKind::Call { name, type_args, args }, .. })) => {
            assert_eq!(name, "identity_Int32");
            assert!(type_args.is_empty());
            assert_eq!(args.len(), 1);
        }
        other => panic!("unexpected statement {:?}", other),
    }
    let spec = &out.functions[1];
    assert_eq!(spec.name, "identity_Int32");
    assert!(spec.type_params.is_empty());
    assert_eq!(spec.params[0].ty, TypeAnnotation::I32);
    assert_eq!(spec.return_type, TypeAnnotation::I32);
    assert_eq!(out.module_decls[0].name, "util");
}

#[test]
fn inferred_type_arguments_select_the_specialization() {
    let call = expr(
        7,
        ExprKind::Call { name: "identity".to_string(), type_args: vec![], args: vec![expr(8, ExprKind::Bool(true))] },
    );
    let inferred = InferredTypeArgs { map: vec![(7, InferredSite { type_args: vec![TypeAnnotation::Bool] })] };
    let out = monomorphize(program(vec![identity_fn(), main_calling(call)], vec![]), &inferred);
    let names: Vec<&str> = out.functions.iter().map(|f| f.name.as_str()).collect();
    assert_eq!(names, vec!["main", "identity_Bool"]);
}

#[test]
fn each_instantiation_is_specialized_once_in_first_order() {
    let call = |id: u32, t: TypeAnnotation| {
        expr(id, ExprKind::Call { name: "identity".to_string(), type_args: vec![t], args: vec![ident(id + 100, "v")] })
    };
    let body = Block {
        stmts: vec![
            Stmt::Expr(call(10, TypeAnnotation::I64)),
            Stmt::Expr(call(11, TypeAnnotation::I32)),
            Stmt::Expr(call(12, TypeAnnotation::I64)),
        ],
    };
    let main = Function {
        visibility: Visibility::Public,
        name: "main".to_string(),
        type_params: vec![],
        params: vec![],
        return_type: TypeAnnotation::Unit,
        body,
    };
    let out = monomorphize(program(vec![main, identity_fn()], vec![]), &no_inference());
    let names: Vec<&str> = out.functions.iter().map(|f| f.name.as_str()).collect();
    assert_eq!(names, vec!["main", "identity_Int64", "identity_Int32"]);
}

#[test]
fn generic_struct_is_specialized_and_literal_renamed() {
    let boxed = StructDef {
        visibility: Visibility::Public,
        name: "Box".to_string(),
        type_params: vec![tp("T")],
        conformances: vec![],
        members: vec![StructMember::StoredProperty {
            visibility: Visibility::Public,
            name: "value".to_string(),
            ty: named("T"),
        }],
        span: span(),
    };
    let lit = expr(
        4,
        ExprKind::StructInit {
            name: "Box".to_string(),
            type_args: vec![TypeAnnotation::I32],
            args: vec![("value".to_string(), expr(5, ExprKind::Number(1)))],
        },
    );
    let main = Function {
        visibility: Visibility::Public,
        name: "main".to_string(),
        type_params: vec![],
        params: vec![],
        return_type: TypeAnnotation::Unit,
        body: Block {
            stmts: vec![Stmt::Let {
                name: "b".to_string(),
                ty: Some(TypeAnnotation::Generic { name: "Box".to_string(), args: vec![TypeAnnotation::I32] }),
                value: lit,
            }],
        },
    };
    let out = monomorphize(program(vec![main], vec![boxed]), &no_inference());
    assert_eq!(out.structs.len(), 1);
    assert_eq!(out.structs[0].name, "Box_Int32");
    match &out.structs[0].members[0] {
        StructMember::StoredProperty { ty, .. } => assert_eq!(ty, &TypeAnnotation::I32),
        other => panic!("unexpected member {:?}", other),
    }
    match &out.functions[0].body.stmts[0] {
        Stmt::Let { ty, value, .. } => {
            assert_eq!(ty, &Some(named("Box_Int32")));
            match &value.kind {
                ExprKind::StructInit { name, type_args, .. } => {
                    assert_eq!(name, "Box_Int32");
                    assert!(type_args.is_empty());
                }
                other => panic!("unexpected expression {:?}", other),
            }
        }
        other => panic!("unexpected statement {:?}", other),
    }
}
