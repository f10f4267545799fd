use aura_lang::types::{is_subset_range, same_type, Type};

#[test]
fn type_display_forms() {
    let t = Type::Tensor { elem: Box::new(Type::U32), shape: Some(vec![2, 30]) };
    assert_eq!(t.display(), "Tensor<u32, [2, 30]>");
    let t = Type::Tensor { elem: Box::new(Type::F32), shape: None };
    assert_eq!(t.display(), "Tensor<f32>");
    let r = Type::Ref { mutable: true, inner: Box::new(Type::Model), region: Some("a".to_string()) };
    assert_eq!(r.display(), "&'a mut Model");
    let r = Type::Ref { mutable: false, inner: Box::new(Type::Bool), region: None };
    assert_eq!(r.display(), "&bool");
    let tup = Type::Tuple(vec![Type::U8, Type::I64, Type::Str]);
    assert_eq!(tup.display(), "(u8, i64, str)");
    let app = Type::Applied { name: "Option".to_string(), args: vec![Type::U32] };
    assert_eq!(app.display(), "Option<u32>");
    let app0 = Type::Applied { name: "Unit2".to_string(), args: vec![] };
    assert_eq!(app0.display(), "Unit2");
    let cr = Type::ConstrainedRange { base: Box::new(Type::U32), lo: 0, hi: 255 };
    assert_eq!(cr.display(), "u32[0..255]");
    assert_eq!(Type::Unknown.display(), "<unknown>");
    assert_eq!(Type::tensor_unknown().display(), "Tensor<<unknown>>");
}

#[test]
fn type_predicates() {
    assert!(Type::U8.is_integer());
    assert!(Type::ISize.is_signed_integer());
    assert!(!Type::ISize.is_unsigned_integer());
    assert!(Type::F64.is_float());
    assert!(Type::F32.is_numeric());
    assert!(!Type::Bool.is_numeric());
    assert!(is_subset_range(2, 5, 0, 10));
    assert!(!is_subset_range(2, 11, 0, 10));
}

#[test]
fn structural_type_equality() {
    let a = Type::Applied { name: "Vec".to_string(), args: vec![Type::U32] };
    let b = Type::Applied { name: "Vec".to_string(), args: vec![Type::U32] };
    let c = Type::Applied { name: "Vec".to_string(), args: vec![Type::U64] };
    assert!(same_type(&a, &b));
    assert!(!same_type(&a, &c));
    let r1 = Type::Record { name: "P".to_string(), fields: vec![("x".to_string(), Type::U32)] };
    let r2 = Type::Record { name: "P".to_string(), fields: vec![("y".to_string(), Type::U32)] };
    assert!(!same_type(&r1, &r2));
    assert!(!same_type(&Type::U32, &Type::I32));
}
