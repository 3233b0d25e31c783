use bengal::bir::instruction::BirType;
use bengal::mangle::{
    encode_type, mangle_entry_main, mangle_function, mangle_generic_suffix, mangle_initializer,
    mangle_method,
};

#[test]
fn mangle_root_function() {
    let result = mangle_function("pkg", &["math"], "add", &[]);
    assert_eq!(result, "_BGFN3pkg4math3addE");
}

#[test]
fn mangle_method_test() {
    let result = mangle_method("pkg", &["math"], "Point", "sum", &[]);
    assert_eq!(result, "_BGMN3pkg4math5Point3sumE");
}

#[test]
fn mangle_initializer_test() {
    let result = mangle_initializer("pkg", &[""], "Point");
    assert_eq!(result, "_BGIN3pkg5PointE");
}

#[test]
fn mangle_generic_function_single() {
    let result = mangle_function("pkg", &[""], "identity", &[BirType::I32]);
    assert_eq!(result, "_BGFN3pkg8identityEIiE");
}

#[test]
fn mangle_generic_function_multi() {
    let result = mangle_function("pkg", &[""], "swap", &[BirType::I32, BirType::Bool]);
    assert_eq!(result, "_BGFN3pkg4swapEIibE");
}

#[test]
fn mangle_generic_struct_method() {
    let type_args = vec![BirType::Struct {
        name: "Point".into(),
        type_args: vec![],
    }];
    let result = mangle_method("pkg", &[""], "Box", "value", &type_args);
    assert_eq!(result, "_BGMN3pkg3Box5valueEIS5PointE");
}

#[test]
fn mangle_array_type_arg() {
    let type_args = vec![BirType::Array {
        element: Box::new(BirType::I32),
        size: 3,
    }];
    let result = mangle_function("pkg", &[""], "foo", &type_args);
    assert_eq!(result, "_BGFN3pkg3fooEIAi3E");
}

#[test]
fn mangle_main_stays_main() {
    assert_eq!(mangle_entry_main(), "main");
}

#[test]
fn no_collision_function_method_initializer() {
    let f = mangle_function("pkg", &[""], "Point", &[]);
    let m = mangle_method("pkg", &[""], "Point", "init", &[]);
    let i = mangle_initializer("pkg", &[""], "Point");
    assert_ne!(f, m);
    assert_ne!(f, i);
    assert_ne!(m, i);
}

#[test]
fn mangle_with_underscores_no_ambiguity() {
    let a = mangle_function("my_app", &["foo_bar"], "add", &[]);
    let b = mangle_function("my_app", &["foo"], "bar_add", &[]);
    assert_ne!(a, b);
}

#[test]
fn mangle_generic_suffix_empty() {
    let base = "_BGFN3pkg8identityE";
    let result = mangle_generic_suffix(base, &[]);
    assert_eq!(result, base);
}

#[test]
fn mangle_generic_suffix_with_args() {
    let base = "_BGFN3pkg8identityE";
    let result = mangle_generic_suffix(base, &[BirType::I32]);
    assert_eq!(result, "_BGFN3pkg8identityEIiE");
}

#[test]
fn mangle_deeply_nested() {
    let result = mangle_function("my_app", &["graphics", "renderer"], "draw", &[]);
    assert_eq!(result, "_BGFN6my_app8graphics8renderer4drawE");
}

#[test]
fn encode_type_param() {
    let result = encode_type(&BirType::TypeParam("T".into()));
    assert_eq!(result, "T1T");
}

#[test]
fn encode_error_type() {
    let result = encode_type(&BirType::Error);
    assert_eq!(result, "e");
}

#[test]
fn encode_generic_struct_type() {
    let ty = BirType::Struct {
        name: "Pair".into(),
        type_args: vec![BirType::I32, BirType::Bool],
    };
    let result = encode_type(&ty);
    assert_eq!(result, "S4PairIibE");
}

#[test]
fn mangle_generic_suffix_struct_type_arg() {
    let base = "_BGMN3pkg3Box5valueE";
    let type_args = vec![BirType::Struct {
        name: "Point".into(),
        type_args: vec![],
    }];
    let result = mangle_generic_suffix(base, &type_args);
    assert_eq!(result, "_BGMN3pkg3Box5valueEIS5PointE");
}

#[test]
fn mangle_non_ascii_name_uses_byte_length() {
    let result = mangle_function("pkg", &[], "café", &[]);
    assert_eq!(result, "_BGFN3pkg5caféE");
}

#[test]
fn mangle_multi_digit_array_size() {
    let result = encode_type(&BirType::Array {
        element: Box::new(BirType::I64),
        size: 120,
    });
    assert_eq!(result, "Al120");
}
