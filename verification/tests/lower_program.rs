use bengal::ast::{
    BinOp, Block, Expr, ExprKind, Function, ModuleDecl, Param, Program, Stmt, StructDef, TypeAnnotation, Visibility,
};
use bengal::bir::instruction::{BirModule, BirType};
use bengal::bir::lower_program::{lower_module, lower_program};
use bengal::bir::printer::print_module;
use bengal::error::{BengalError, Span};
use bengal::mangle::mangle_function;
use bengal::semantic::{InitializerInfo, ProtocolInfo, SemanticInfo, StructInfo, Type};

fn span() -> Span {
    Span { start: 0, end: 0 }
}

struct Ids(u32);

impl Ids {
    fn e(&mut self, kind: ExprKind) -> Expr {
        self.0 += 1;
        Expr { id: self.0, kind, span: span() }
    }
    fn num(&mut self, n: i64) -> Expr {
        self.e(ExprKind::Number(n))
    }
    fn var(&mut self, n: &str) -> Expr {
        self.e(ExprKind::Ident(n.to_string()))
    }
    fn bin(&mut self, op: BinOp, l: Expr, r: Expr) -> Expr {
        self.e(ExprKind::BinaryOp { op, left: Box::new(l), right: Box::new(r) })
    }
    fn call(&mut self, name: &str, args: Vec<Expr>) -> Expr {
        self.e(ExprKind::Call { name: name.to_string(), type_args: vec![], args })
    }
}

fn func(name: &str, params: &[&str], body: Vec<Stmt>) -> Function {
    Function {
        visibility: Visibility::Public,
        name: name.to_string(),
        type_params: vec![],
        params: params.iter().map(|p| Param { name: p.to_string(), ty: TypeAnnotation::I32 }).collect(),
        return_type: TypeAnnotation::I32,
        body: Block { stmts: body },
    }
}

fn let_i32(name: &str, value: Expr) -> Stmt {
    Stmt::Let { name: name.to_string(), ty: Some(TypeAnnotation::I32), value }
}

fn program(functions: Vec<Function>, structs: Vec<StructDef>) -> Program<(), ()> {
    Program { module_decls: Vec::<ModuleDecl>::new(), import_decls: vec![], structs, protocols: vec![], functions }
}

fn no_structs() -> SemanticInfo {
    SemanticInfo { functions: vec![], struct_defs: vec![], protocols: vec![], visibilities: vec![], struct_init_calls: vec![] }
}

fn lowered(p: &Program<(), ()>) -> BirModule {
    lower_program(p, &no_structs()).unwrap()
}

/// `func main() -> Int32 { return 42; }`
fn simple_return() -> String {
    let mut ids = Ids(0);
    let body = vec![Stmt::Return(Some(ids.num(42)))];
    print_module(&lowered(&program(vec![func("main", &[], body)], vec![])))
}

const SIMPLE_RETURN: &str = "\
bir @main() -> Int32 {
bb0:
    %0 = literal 42 : Int32
    return %0
}
";

/// `func main() -> Int32 { let x: Int32 = 10; return x; }`
fn let_return() -> String {
    let mut ids = Ids(0);
    let body = vec![let_i32("x", ids.num(10)), Stmt::Return(Some(ids.var("x")))];
    print_module(&lowered(&program(vec![func("main", &[], body)], vec![])))
}

const LET_RETURN: &str = "\
bir @main() -> Int32 {
bb0:
    %0 = literal 10 : Int32
    return %0
}
";

/// `func add(a: Int32, b: Int32) -> Int32 { return a + b; } func main() -> Int32 { return add(3, 4); }`
fn add_and_main() -> Program<(), ()> {
    let mut ids = Ids(0);
    let sum = {
        let a = ids.var("a");
        let b = ids.var("b");
        ids.bin(BinOp::Add, a, b)
    };
    let add = func("add", &["a", "b"], vec![Stmt::Return(Some(sum))]);
    let call = {
        let three = ids.num(3);
        let four = ids.num(4);
        ids.call("add", vec![three, four])
    };
    let main = func("main", &[], vec![Stmt::Return(Some(call))]);
    program(vec![add, main], vec![])
}

const CALL: &str = "\
bir @add(%0: Int32, %1: Int32) -> Int32 {
bb0:
    %2 = binary_op add %0, %1 : Int32
    return %2
}
bir @main() -> Int32 {
bb0:
    %0 = literal 3 : Int32
    %1 = literal 4 : Int32
    %2 = call @add(%0, %1) : Int32
    return %2
}
";

/// `func main() -> Int32 { let x: Int32 = 1; let y: Int32 = { let x: Int32 = 10; yield x + 1; }; return x + y; }`
fn block_scope() -> String {
    let mut ids = Ids(0);
    let one = ids.num(1);
    let ten = ids.num(10);
    let inner = {
        let x = ids.var("x");
        let one_more = ids.num(1);
        ids.bin(BinOp::Add, x, one_more)
    };
    let block = ids.e(ExprKind::Block(Block { stmts: vec![let_i32("x", ten), Stmt::Yield(inner)] }));
    let result = {
        let x = ids.var("x");
        let y = ids.var("y");
        ids.bin(BinOp::Add, x, y)
    };
    let body = vec![let_i32("x", one), let_i32("y", block), Stmt::Return(Some(result))];
    print_module(&lowered(&program(vec![func("main", &[], body)], vec![])))
}

const BLOCK_SCOPE: &str = "\
bir @main() -> Int32 {
bb0:
    %0 = literal 1 : Int32
    %1 = literal 10 : Int32
    %2 = literal 1 : Int32
    %3 = binary_op add %1, %2 : Int32
    %4 = binary_op add %0, %3 : Int32
    return %4
}
";

/// `func main() -> Int32 { let x: Int32 = if true { yield 1; } else { yield 2; }; return x; }`
fn if_else() -> String {
    let mut ids = Ids(0);
    let cond = ids.e(ExprKind::Bool(true));
    let one = ids.num(1);
    let two = ids.num(2);
    let iff = ids.e(ExprKind::If {
        condition: Box::new(cond),
        then_block: Block { stmts: vec![Stmt::Yield(one)] },
        else_block: Some(Block { stmts: vec![Stmt::Yield(two)] }),
    });
    let x = ids.var("x");
    let body = vec![let_i32("x", iff), Stmt::Return(Some(x))];
    print_module(&lowered(&program(vec![func("main", &[], body)], vec![])))
}

/// `func main() -> Int32 { var i: Int32 = 0; while i < 3 { i = i + 1; }; return i; }`
fn while_loop() -> String {
    let mut ids = Ids(0);
    let zero = ids.num(0);
    let cond = {
        let i = ids.var("i");
        let three = ids.num(3);
        ids.bin(BinOp::Lt, i, three)
    };
    let step = {
        let i = ids.var("i");
        let one = ids.num(1);
        ids.bin(BinOp::Add, i, one)
    };
    let w = ids.e(ExprKind::While {
        condition: Box::new(cond),
        body: Block { stmts: vec![Stmt::Assign { name: "i".to_string(), value: step }] },
        nobreak: None,
    });
    let i = ids.var("i");
    let body = vec![
        Stmt::Var { name: "i".to_string(), ty: Some(TypeAnnotation::I32), value: zero },
        Stmt::Expr(w),
        Stmt::Return(Some(i)),
    ];
    print_module(&lowered(&program(vec![func("main", &[], body)], vec![])))
}

/// `func main() -> Int32 { let b: Bool = true && false; if b { yield 1; } else { yield 0; }; return 0; }`
fn short_circuit_and() -> String {
    let mut ids = Ids(0);
    let t = ids.e(ExprKind::Bool(true));
    let f = ids.e(ExprKind::Bool(false));
    let and = ids.bin(BinOp::And, t, f);
    let b = ids.var("b");
    let one = ids.num(1);
    let zero = ids.num(0);
    let iff = ids.e(ExprKind::If {
        condition: Box::new(b),
        then_block: Block { stmts: vec![Stmt::Yield(one)] },
        else_block: Some(Block { stmts: vec![Stmt::Yield(zero)] }),
    });
    let ret = ids.num(0);
    let body = vec![
        Stmt::Let { name: "b".to_string(), ty: Some(TypeAnnotation::Bool), value: and },
        Stmt::Expr(iff),
        Stmt::Return(Some(ret)),
    ];
    print_module(&lowered(&program(vec![func("main", &[], body)], vec![])))
}

fn struct_def(name: &str, start: usize) -> StructDef {
    StructDef {
        visibility: Visibility::Public,
        name: name.to_string(),
        type_params: vec![],
        conformances: vec![],
        members: vec![],
        span: Span { start, end: start + 10 },
    }
}

fn struct_info(fields: Vec<(&str, Type)>) -> StructInfo {
    StructInfo {
        type_params: vec![],
        conformances: vec![],
        fields: fields.into_iter().map(|(n, t)| (n.to_string(), t)).collect(),
        methods: vec![],
        computed: vec![],
        init: InitializerInfo { params: vec![] },
    }
}

fn main_returning_zero() -> Function {
    let mut ids = Ids(100);
    func("main", &[], vec![Stmt::Return(Some(ids.num(0)))])
}

/// `struct Node { var next: Node; } func main() -> Int32 { return 0; }`
fn recursive_node() -> Result<BirModule, BengalError> {
    let p = program(vec![main_returning_zero()], vec![struct_def("Node", 0)]);
    let mut sem = no_structs();
    sem.struct_defs = vec![("Node".to_string(), struct_info(vec![("next", Type::Struct("Node".to_string()))]))];
    lower_program(&p, &sem)
}

/// `struct A { var b: B; } struct B { var a: A; } func main() -> Int32 { return 0; }`
fn mutually_recursive() -> Result<BirModule, BengalError> {
    let p = program(vec![main_returning_zero()], vec![struct_def("A", 0), struct_def("B", 23)]);
    let mut sem = no_structs();
    sem.struct_defs = vec![
        ("A".to_string(), struct_info(vec![("b", Type::Struct("B".to_string()))])),
        ("B".to_string(), struct_info(vec![("a", Type::Struct("A".to_string()))])),
    ];
    lower_program(&p, &sem)
}

fn check_recursive_struct() {
    let result = recursive_node();
    assert!(result.is_err());
    assert!(result.unwrap_err().to_string().contains("recursive struct"));
}

fn check_recursive_struct_has_span() {
    match mutually_recursive() {
        Err(BengalError::LoweringError { span, .. }) => {
            assert!(span.is_some(), "recursive struct error should include span");
        }
        other => panic!("expected LoweringError, got {:?}", other),
    }
}

fn check_module_mangles_function_names() {
    let p = add_and_main();
    let mangled_add = mangle_function("my_app", &[""], "add", &[]);
    let name_map = vec![("main".to_string(), "main".to_string()), ("add".to_string(), mangled_add.clone())];
    let module = lower_module(&p, &no_structs(), name_map).unwrap();
    let output = print_module(&module);
    assert!(output.contains("@main("));
    assert!(output.contains(&format!("@{}(", mangled_add)), "expected mangled add function, got:\n{}", output);
    assert!(output.contains(&format!("call @{}", mangled_add)), "expected mangled call target, got:\n{}", output);
}

fn check_if_else() {
    let output = if_else();
    assert!(output.contains("cond_br"));
    assert!(output.contains("bb1"));
    assert!(output.contains("bb2"));
    assert!(output.contains("bb3"));
}

fn check_while() {
    let output = while_loop();
    assert!(output.contains("cond_br"));
    assert!(output.contains("compare lt"));
}

fn check_short_circuit_and() {
    let output = short_circuit_and();
    assert!(output.contains("cond_br"));
    assert!(output.contains("literal 0 : Bool"));
}

#[test]
fn test_expr_lower_simple_return() {
    assert_eq!(simple_return(), SIMPLE_RETURN);
}

#[test]
fn lowering_lower_simple_return() {
    assert_eq!(simple_return(), SIMPLE_RETURN);
}

#[test]
fn lower_expr_lower_simple_return() {
    assert_eq!(simple_return(), SIMPLE_RETURN);
}

#[test]
fn test_expr_lower_let_return() {
    assert_eq!(let_return(), LET_RETURN);
}

#[test]
fn lowering_lower_let_return() {
    assert_eq!(let_return(), LET_RETURN);
}

#[test]
fn lower_expr_lower_let_return() {
    assert_eq!(let_return(), LET_RETURN);
}

#[test]
fn test_expr_lower_call() {
    assert_eq!(print_module(&lowered(&add_and_main())), CALL);
}

#[test]
fn lowering_lower_call() {
    assert_eq!(print_module(&lowered(&add_and_main())), CALL);
}

#[test]
fn lower_expr_lower_call() {
    assert_eq!(print_module(&lowered(&add_and_main())), CALL);
}

#[test]
fn test_expr_lower_block_scope() {
    assert_eq!(block_scope(), BLOCK_SCOPE);
}

#[test]
fn lowering_lower_block_scope() {
    assert_eq!(block_scope(), BLOCK_SCOPE);
}

#[test]
fn lower_expr_lower_block_scope() {
    assert_eq!(block_scope(), BLOCK_SCOPE);
}

#[test]
fn test_control_flow_lower_if_else() {
    check_if_else();
}

#[test]
fn lowering_lower_if_else() {
    check_if_else();
}

#[test]
fn test_control_flow_lower_while() {
    check_while();
}

#[test]
fn lowering_lower_while() {
    check_while();
}

#[test]
fn lowering_lower_short_circuit_and() {
    check_short_circuit_and();
}

#[test]
fn lower_short_circuit_lower_short_circuit_and() {
    check_short_circuit_and();
}

#[test]
fn test_program_lower_err_recursive_struct() {
    check_recursive_struct();
}

#[test]
fn lowering_lower_err_recursive_struct() {
    check_recursive_struct();
}

#[test]
fn test_program_lower_err_recursive_struct_has_span() {
    check_recursive_struct_has_span();
}

#[test]
fn lowering_lower_err_recursive_struct_has_span() {
    check_recursive_struct_has_span();
}

#[test]
fn test_program_lower_module_mangles_function_names() {
    check_module_mangles_function_names();
}

#[test]
fn lowering_lower_module_mangles_function_names() {
    check_module_mangles_function_names();
}

#[test]
fn while_lowering_has_header_and_exit_blocks() {
    let output = while_loop();
    let expected = "\
bir @main() -> Int32 {
bb0:
    %0 = literal 0 : Int32
    br bb1(%0: Int32)
bb1(%1: Int32):
    %2 = literal 3 : Int32
    %3 = compare lt %1, %2 : Int32
    cond_br %3, bb2, bb3
bb2:
    %4 = literal 1 : Int32
    %5 = binary_op add %1, %4 : Int32
    br bb1(%5: Int32)
bb3:
    %6 = literal 0 : ()
    return %1
}
";
    assert_eq!(output, expected);
}

#[test]
fn unit_field_is_refused_first() {
    let p = program(vec![main_returning_zero()], vec![struct_def("U", 5)]);
    let mut sem = no_structs();
    sem.struct_defs = vec![("U".to_string(), struct_info(vec![("u", Type::Unit)]))];
    match lower_program(&p, &sem) {
        Err(BengalError::LoweringError { message, span }) => {
            assert!(message.contains("Unit-typed stored field `u`"));
            assert_eq!(span, Some(Span { start: 5, end: 15 }));
        }
        other => panic!("expected a lowering error, got {:?}", other),
    }
}

#[test]
fn layouts_conformances_and_generic_struct_params_are_built() {
    let mut point = struct_def("Point", 0);
    point.conformances = vec!["Shape".to_string()];
    let p = program(vec![main_returning_zero()], vec![point]);
    let mut sem = no_structs();
    let mut info = struct_info(vec![("x", Type::I32)]);
    info.type_params = vec![bengal::ast::TypeParam { name: "T".to_string(), bound: None }];
    sem.struct_defs = vec![("Point".to_string(), info)];
    sem.protocols = vec![(
        "Shape".to_string(),
        ProtocolInfo {
            name: "Shape".to_string(),
            methods: vec![bengal::semantic::MethodInfo { name: "area".to_string(), params: vec![], return_type: Type::I32 }],
            properties: vec![],
        },
    )];
    let m = lower_program(&p, &sem).unwrap();
    assert_eq!(m.struct_layouts, vec![("Point".to_string(), vec![("x".to_string(), BirType::I32)])]);
    assert_eq!(m.struct_type_params, vec![("Point".to_string(), vec!["T".to_string()])]);
    assert_eq!(
        m.conformance_map,
        vec![(
            ("Shape_area".to_string(), BirType::Struct { name: "Point".to_string(), type_args: vec![] }),
            "Point_area".to_string()
        )]
    );
}
