use bengal::ast::{TypeParam, Visibility};
use bengal::error::BengalError;
use bengal::interface::{
    check_interface_header, emit_text_interface, emit_type, frame_interface, InterfaceComputedProp, InterfaceFuncEntry,
    InterfaceFuncSig, InterfaceMethodSig, InterfacePropertyReq, InterfaceProtocolEntry, InterfaceStructEntry,
    InterfaceType, InterfaceTypeParam, ModuleInterface, FORMAT_VERSION, MAGIC,
};
use bengal::semantic::{
    FuncSig, InitializerInfo, MethodInfo, PropertyInfo, ProtocolInfo, SemanticInfo, StructInfo, Type,
};

#[test]
fn interface_type_from_primitives() {
    assert_eq!(InterfaceType::from_type(&Type::I32), InterfaceType::I32);
    assert_eq!(InterfaceType::from_type(&Type::I64), InterfaceType::I64);
    assert_eq!(InterfaceType::from_type(&Type::F32), InterfaceType::F32);
    assert_eq!(InterfaceType::from_type(&Type::F64), InterfaceType::F64);
    assert_eq!(InterfaceType::from_type(&Type::Bool), InterfaceType::Bool);
    assert_eq!(InterfaceType::from_type(&Type::Unit), InterfaceType::Unit);
}

#[test]
fn interface_type_from_struct() {
    assert_eq!(
        InterfaceType::from_type(&Type::Struct("Point".to_string())),
        InterfaceType::Struct("Point".to_string()),
    );
}

#[test]
fn interface_type_from_type_param() {
    assert_eq!(
        InterfaceType::from_type(&Type::TypeParam { name: "T".to_string(), bound: Some("Summable".to_string()) }),
        InterfaceType::TypeParam { name: "T".to_string(), bound: Some("Summable".to_string()) },
    );
}

#[test]
fn interface_type_from_generic_recursive() {
    let ty = Type::Generic { name: "Pair".to_string(), args: vec![Type::I32, Type::Struct("Point".to_string())] };
    assert_eq!(
        InterfaceType::from_type(&ty),
        InterfaceType::Generic {
            name: "Pair".to_string(),
            args: vec![InterfaceType::I32, InterfaceType::Struct("Point".to_string())],
        },
    );
}

#[test]
fn interface_type_from_array_recursive() {
    let ty = Type::Array {
        element: Box::new(Type::Generic { name: "Box".to_string(), args: vec![Type::I64] }),
        size: 5,
    };
    assert_eq!(
        InterfaceType::from_type(&ty),
        InterfaceType::Array {
            element: Box::new(InterfaceType::Generic { name: "Box".to_string(), args: vec![InterfaceType::I64] }),
            size: 5,
        },
    );
}

fn sample_interface() -> ModuleInterface {
    ModuleInterface {
        functions: vec![
            InterfaceFuncEntry {
                visibility: Visibility::Public,
                name: "add".to_string(),
                sig: InterfaceFuncSig {
                    type_params: vec![],
                    params: vec![("a".to_string(), InterfaceType::I32), ("b".to_string(), InterfaceType::I32)],
                    return_type: InterfaceType::I32,
                },
            },
            InterfaceFuncEntry {
                visibility: Visibility::Package,
                name: "total".to_string(),
                sig: InterfaceFuncSig {
                    type_params: vec![
                        InterfaceTypeParam { name: "T".to_string(), bound: Some("Summable".to_string()) },
                        InterfaceTypeParam { name: "U".to_string(), bound: None },
                    ],
                    params: vec![("x".to_string(), InterfaceType::TypeParam { name: "T".to_string(), bound: None })],
                    return_type: InterfaceType::Unit,
                },
            },
        ],
        structs: vec![InterfaceStructEntry {
            visibility: Visibility::Public,
            name: "Point".to_string(),
            type_params: vec![],
            conformances: vec!["Summable".to_string(), "Eq".to_string()],
            fields: vec![("x".to_string(), InterfaceType::I32), ("y".to_string(), InterfaceType::I32)],
            methods: vec![InterfaceMethodSig { name: "sum".to_string(), params: vec![], return_type: InterfaceType::I32 }],
            computed: vec![
                InterfaceComputedProp { name: "magnitude".to_string(), ty: InterfaceType::I32, has_setter: false },
                InterfaceComputedProp { name: "scale".to_string(), ty: InterfaceType::F64, has_setter: true },
            ],
            init_params: vec![("x".to_string(), InterfaceType::I32), ("y".to_string(), InterfaceType::I32)],
        }],
        protocols: vec![InterfaceProtocolEntry {
            visibility: Visibility::Internal,
            name: "Summable".to_string(),
            methods: vec![InterfaceMethodSig { name: "sum".to_string(), params: vec![], return_type: InterfaceType::I32 }],
            properties: vec![InterfacePropertyReq { name: "count".to_string(), ty: InterfaceType::I64, has_setter: true }],
        }],
    }
}

#[test]
fn text_interface_of_all_sections() {
    let expected = "\
// bengal-interface-format-version: 1
public func add(a: Int32, b: Int32) -> Int32;
package func total<T: Summable, U>(x: T);

public struct Point: Summable, Eq {
  var x: Int32;
  var y: Int32;
  var magnitude: Int32 { get };
  var scale: Float64 { get set };
  init(x: Int32, y: Int32);
  func sum() -> Int32;
}

internal protocol Summable {
  func sum() -> Int32;
  var count: Int64 { get set };
}
";
    assert_eq!(emit_text_interface(&sample_interface()), expected);
}

#[test]
fn text_interface_skips_empty_sections() {
    let mut iface = sample_interface();
    iface.functions.clear();
    iface.structs.clear();
    let text = emit_text_interface(&iface);
    assert!(text.starts_with("// bengal-interface-format-version: 1\ninternal protocol Summable {\n"), "{}", text);
    let empty = ModuleInterface { functions: vec![], structs: vec![], protocols: vec![] };
    assert_eq!(emit_text_interface(&empty), "// bengal-interface-format-version: 1\n");
}

#[test]
fn interface_type_text() {
    let ty = InterfaceType::Array {
        element: Box::new(InterfaceType::Generic {
            name: "Pair".to_string(),
            args: vec![InterfaceType::Bool, InterfaceType::Struct("Point".to_string())],
        }),
        size: 3,
    };
    assert_eq!(emit_type(&ty), "[Pair<Bool, Point>; 3]");
    assert_eq!(emit_type(&InterfaceType::Unit), "Void");
    assert_eq!(
        InterfaceTypeParam::from_type_param(&TypeParam { name: "T".to_string(), bound: None }),
        InterfaceTypeParam { name: "T".to_string(), bound: None }
    );
}

fn header_error(data: &[u8]) -> String {
    match check_interface_header(data) {
        Err(BengalError::InterfaceError { message }) => message,
        other => panic!("expected an interface error, got {:?}", other),
    }
}

#[test]
fn interface_file_framing_round_trip() {
    let framed = frame_interface(&[9, 8, 7]);
    assert_eq!(framed, vec![b'B', b'G', b'M', b'D', 2, 0, 0, 0, 9, 8, 7]);
    assert_eq!(&framed[..4], &MAGIC);
    assert_eq!(u32::from_le_bytes([framed[4], framed[5], framed[6], framed[7]]), FORMAT_VERSION);
    assert!(check_interface_header(&framed).is_ok());
}

#[test]
fn interface_file_header_errors() {
    assert_eq!(header_error(b"BGMD"), "file too short to be a valid .bengalmod file");
    assert_eq!(header_error(b"XGMD\x02\x00\x00\x00"), "invalid magic bytes: not a .bengalmod file");
    assert_eq!(
        header_error(b"BGMD\x01\x01\x00\x00rest"),
        "incompatible format version 257 (expected 2), please rebuild"
    );
}

fn make_test_semantic_info() -> SemanticInfo {
    let functions = vec![
        (
            "public_add".to_string(),
            FuncSig {
                type_params: vec![],
                params: vec![("a".to_string(), Type::I32), ("b".to_string(), Type::I32)],
                return_type: Type::I32,
            },
        ),
        ("internal_helper".to_string(), FuncSig { type_params: vec![], params: vec![], return_type: Type::Unit }),
        ("fileprivate_fn".to_string(), FuncSig { type_params: vec![], params: vec![], return_type: Type::Unit }),
        (
            "generic_pub".to_string(),
            FuncSig {
                type_params: vec![TypeParam { name: "T".to_string(), bound: Some("Summable".to_string()) }],
                params: vec![(
                    "x".to_string(),
                    Type::TypeParam { name: "T".to_string(), bound: Some("Summable".to_string()) },
                )],
                return_type: Type::I32,
            },
        ),
    ];
    let visibilities = vec![
        ("public_add".to_string(), Visibility::Public),
        ("internal_helper".to_string(), Visibility::Internal),
        ("fileprivate_fn".to_string(), Visibility::Fileprivate),
        ("generic_pub".to_string(), Visibility::Public),
        ("MyStruct".to_string(), Visibility::Package),
        ("MyProto".to_string(), Visibility::Private),
    ];
    let struct_defs = vec![(
        "MyStruct".to_string(),
        StructInfo {
            type_params: vec![],
            conformances: vec!["Proto".to_string()],
            fields: vec![("x".to_string(), Type::I32)],
            methods: vec![],
            computed: vec![],
            init: InitializerInfo { params: vec![("x".to_string(), Type::I32)] },
        },
    )];
    let protocols = vec![(
        "MyProto".to_string(),
        ProtocolInfo { name: "MyProto".to_string(), methods: vec![], properties: vec![] },
    )];
    SemanticInfo { functions, struct_defs, protocols, visibilities, struct_init_calls: vec![] }
}

#[test]
fn from_semantic_info_filters_visibility() {
    let sem = make_test_semantic_info();
    let iface = ModuleInterface::from_semantic_info(&sem);

    assert_eq!(iface.functions.len(), 2);
    let func_names: Vec<&str> = iface.functions.iter().map(|f| f.name.as_str()).collect();
    assert!(func_names.contains(&"public_add"));
    assert!(func_names.contains(&"generic_pub"));
    assert!(!func_names.contains(&"internal_helper"));
    assert!(!func_names.contains(&"fileprivate_fn"));

    let generic = iface.functions.iter().find(|f| f.name == "generic_pub").unwrap();
    assert_eq!(generic.sig.type_params.len(), 1);
    assert_eq!(generic.sig.type_params[0].name, "T");
    assert_eq!(generic.sig.type_params[0].bound, Some("Summable".to_string()));

    assert_eq!(iface.structs.len(), 1);
    assert_eq!(iface.structs[0].name, "MyStruct");
    assert_eq!(iface.structs[0].conformances, vec!["Proto".to_string()]);

    assert_eq!(iface.protocols.len(), 0);
}

#[test]
fn from_semantic_info_empty() {
    let sem = SemanticInfo { struct_defs: vec![], protocols: vec![], functions: vec![], visibilities: vec![], struct_init_calls: vec![] };
    let iface = ModuleInterface::from_semantic_info(&sem);
    assert!(iface.functions.is_empty());
    assert!(iface.structs.is_empty());
    assert!(iface.protocols.is_empty());
}

#[test]
fn from_semantic_info_sorts_by_name_and_converts() {
    let sem = make_test_semantic_info();
    let iface = ModuleInterface::from_semantic_info(&sem);
    assert_eq!(iface.functions[0].name, "generic_pub");
    assert_eq!(iface.functions[1].name, "public_add");
    assert_eq!(iface.functions[1].visibility, Visibility::Public);
    assert_eq!(
        iface.functions[1].sig.params,
        vec![("a".to_string(), InterfaceType::I32), ("b".to_string(), InterfaceType::I32)]
    );
    assert_eq!(iface.functions[1].sig.return_type, InterfaceType::I32);
    assert_eq!(
        iface.functions[0].sig.params[0].1,
        InterfaceType::TypeParam { name: "T".to_string(), bound: Some("Summable".to_string()) }
    );
    assert_eq!(iface.structs[0].visibility, Visibility::Package);
    assert_eq!(iface.structs[0].fields, vec![("x".to_string(), InterfaceType::I32)]);
    assert_eq!(iface.structs[0].init_params, vec![("x".to_string(), InterfaceType::I32)]);
}

#[test]
fn from_semantic_info_protocol_members() {
    let sem = SemanticInfo {
        functions: vec![],
        struct_defs: vec![],
        protocols: vec![
            (
                "Shape".to_string(),
                ProtocolInfo {
                    name: "Shape".to_string(),
                    methods: vec![MethodInfo {
                        name: "area".to_string(),
                        params: vec![],
                        return_type: Type::F64,
                    }],
                    properties: vec![PropertyInfo { name: "sides".to_string(), ty: Type::I32, has_setter: false }],
                },
            ),
            ("Named".to_string(), ProtocolInfo { name: "Named".to_string(), methods: vec![], properties: vec![] }),
        ],
        visibilities: vec![("Shape".to_string(), Visibility::Public), ("Named".to_string(), Visibility::Package)],
        struct_init_calls: vec![],
    };
    let iface = ModuleInterface::from_semantic_info(&sem);
    assert_eq!(iface.protocols.len(), 2);
    assert_eq!(iface.protocols[0].name, "Named");
    assert_eq!(iface.protocols[1].name, "Shape");
    assert_eq!(iface.protocols[1].methods[0].name, "area");
    assert_eq!(iface.protocols[1].methods[0].return_type, InterfaceType::F64);
    assert_eq!(iface.protocols[1].properties[0].name, "sides");
    assert!(!iface.protocols[1].properties[0].has_setter);
}

#[test]
fn from_semantic_info_ignores_unexported_unresolved_types() {
    let sem = SemanticInfo {
        functions: vec![
            ("hidden".to_string(), FuncSig { type_params: vec![], params: vec![], return_type: Type::InferVar(3) }),
            ("shown".to_string(), FuncSig { type_params: vec![], params: vec![], return_type: Type::Bool }),
        ],
        struct_defs: vec![],
        protocols: vec![],
        visibilities: vec![("hidden".to_string(), Visibility::Private), ("shown".to_string(), Visibility::Public)],
        struct_init_calls: vec![],
    };
    let iface = ModuleInterface::from_semantic_info(&sem);
    assert_eq!(iface.functions.len(), 1);
    assert_eq!(iface.functions[0].name, "shown");
    assert_eq!(iface.functions[0].sig.return_type, InterfaceType::Bool);
}
