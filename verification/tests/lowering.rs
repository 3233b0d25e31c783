use bengal::bir::lowering::reject_unit_fields;
use bengal::bir::lowering::semantic_type_to_bir;
use bengal::semantic::Type;
use bengal::bir::instruction::BirType;
use bengal::bir::lowering::check_acyclic_structs;
use bengal::error::{BengalError, Span};

fn st(name: &str) -> BirType {
    BirType::Struct { name: name.to_string(), type_args: vec![] }
}

fn layout(name: &str, fields: Vec<BirType>) -> (String, Vec<(String, BirType)>) {
    (name.to_string(), fields.into_iter().enumerate().map(|(i, t)| (format!("f{}", i), t)).collect())
}

#[test]
fn acyclic_structs_pass() {
    let layouts = vec![
        layout("Line", vec![st("Point"), st("Point")]),
        layout("Point", vec![BirType::I32, BirType::I32]),
        layout("Holder", vec![st("Line"), st("External")]),
    ];
    assert!(check_acyclic_structs(&layouts, &vec![]).is_ok());
    assert!(check_acyclic_structs(&vec![], &vec![]).is_ok());
}

#[test]
fn self_recursive_struct_is_rejected() {
    let layouts = vec![layout("Node", vec![BirType::I32, st("Node")])];
    let spans = vec![("Node".to_string(), Span { start: 4, end: 20 })];
    match check_acyclic_structs(&layouts, &spans) {
        Err(BengalError::LoweringError { message, span }) => {
            assert_eq!(message, "recursive struct `Node` is not supported (infinitely sized)");
            assert_eq!(span, Some(Span { start: 4, end: 20 }));
        }
        other => panic!("expected a lowering error, got {:?}", other),
    }
}

#[test]
fn mutual_recursion_is_rejected_without_span() {
    let layouts = vec![
        layout("A", vec![st("B")]),
        layout("B", vec![st("C")]),
        layout("C", vec![BirType::Bool, st("A")]),
    ];
    match check_acyclic_structs(&layouts, &vec![]) {
        Err(BengalError::LoweringError { message, span }) => {
            assert_eq!(message, "recursive struct `A` is not supported (infinitely sized)");
            assert_eq!(span, None);
        }
        other => panic!("expected a lowering error, got {:?}", other),
    }
}

#[test]
fn arrays_and_type_args_are_not_edges() {
    let layouts = vec![layout(
        "Tree",
        vec![
            BirType::Array { element: Box::new(st("Tree")), size: 2 },
            BirType::Struct { name: "Box".to_string(), type_args: vec![st("Tree")] },
        ],
    )];
    assert!(check_acyclic_structs(&layouts, &vec![]).is_ok());
}

#[test]
fn unit_fields_are_rejected() {
    let layouts = vec![
        layout("Point", vec![BirType::I32, BirType::I32]),
        ("Empty".to_string(), vec![("x".to_string(), BirType::I64), ("nothing".to_string(), BirType::Unit)]),
    ];
    let spans = vec![("Empty".to_string(), Span { start: 1, end: 2 })];
    match reject_unit_fields(&layouts, &spans) {
        Err(BengalError::LoweringError { message, span }) => {
            assert_eq!(message, "struct `Empty` has Unit-typed stored field `nothing`; Unit fields are not supported");
            assert_eq!(span, Some(Span { start: 1, end: 2 }));
        }
        other => panic!("expected a lowering error, got {:?}", other),
    }
    assert!(reject_unit_fields(&vec![layout("Point", vec![BirType::I32])], &spans).is_ok());
}

#[test]
fn semantic_types_lower_to_bir() {
    assert_eq!(semantic_type_to_bir(&Type::I64), BirType::I64);
    assert_eq!(semantic_type_to_bir(&Type::Error), BirType::Error);
    assert_eq!(semantic_type_to_bir(&Type::Struct("Point".to_string())), st("Point"));
    assert_eq!(
        semantic_type_to_bir(&Type::TypeParam { name: "T".to_string(), bound: Some("Summable".to_string()) }),
        BirType::TypeParam("T".to_string())
    );
    assert_eq!(
        semantic_type_to_bir(&Type::Array { element: Box::new(Type::Bool), size: 4 }),
        BirType::Array { element: Box::new(BirType::Bool), size: 4 }
    );
}

fn lowering_message<T: std::fmt::Debug>(r: Result<T, BengalError>) -> String {
    match r {
        Err(BengalError::LoweringError { message, .. }) => message,
        other => panic!("expected a lowering error, got {:?}", other),
    }
}

#[test]
fn cycle_reports_first_struct_met_again_depth_first() {
    // C is visited first and leads into the cycle B -> A -> B: B is met again first.
    let layouts = vec![layout("C", vec![st("B")]), layout("A", vec![st("B")]), layout("B", vec![st("A")])];
    assert_eq!(
        lowering_message(check_acyclic_structs(&layouts, &vec![])),
        "recursive struct `B` is not supported (infinitely sized)"
    );
    // Listed the other way round, A is visited first and met again first.
    let layouts = vec![layout("A", vec![st("B")]), layout("B", vec![st("A")]), layout("C", vec![st("B")])];
    assert_eq!(
        lowering_message(check_acyclic_structs(&layouts, &vec![])),
        "recursive struct `A` is not supported (infinitely sized)"
    );
}

#[test]
fn unit_field_reported_is_first_in_layout_and_field_order() {
    let layouts = vec![
        ("P".to_string(), vec![("a".to_string(), BirType::I32), ("u".to_string(), BirType::Unit)]),
        ("Q".to_string(), vec![("v".to_string(), BirType::Unit)]),
    ];
    assert_eq!(
        lowering_message(reject_unit_fields(&layouts, &vec![])),
        "struct `P` has Unit-typed stored field `u`; Unit fields are not supported"
    );
}
