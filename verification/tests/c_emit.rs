use aura_lang::c_emit::{
    builtin_return_ctype, c_escape_string_literal, c_ident, emit_interpolated_println, escape_c_string, map_callee,
    map_ctype_decl, push_c_printf_literal, CType,
};

fn named(v: &[(&str, CType, &str)]) -> Vec<(String, (CType, String))> {
    v.iter().map(|(k, t, n)| (k.to_string(), (*t, n.to_string()))).collect()
}

#[test]
fn printf_literal_escapes_quotes_controls_and_percent() {
    let mut out = String::from("<");
    push_c_printf_literal(&mut out, "a\"b\\c%d\n\r\t");
    assert_eq!(out, "<a\\\"b\\\\c%%d\\n\\r\\t");
}

#[test]
fn interpolated_println_becomes_printf() {
    let mut out = String::new();
    let vals = named(&[("x", CType::U32, "v1"), ("y", CType::Bool, "v2"), ("s", CType::CString, "v3")]);
    assert!(emit_interpolated_println(&mut out, "x={x} y={y} s={s} 5% {w} {open", &vals));
    assert_eq!(
        out,
        "  printf(\"x=%u y=%s s=%s 5%% {w} {open\\n\", (unsigned int)(v1), ((v2) ? \"true\" : \"false\"), (v3));\n"
    );
}

#[test]
fn interpolated_println_of_wide_and_float_values() {
    let mut out = String::new();
    let vals = named(&[("n", CType::I64, "a"), ("f", CType::F64, "b")]);
    assert!(emit_interpolated_println(&mut out, "{n}/{f}", &vals));
    assert_eq!(out, "  printf(\"%lld/%f\\n\", (long long)(a), (double)(b));\n");
}

#[test]
fn println_without_printable_placeholders_is_left_alone() {
    let mut out = String::from("keep");
    let vals = named(&[("t", CType::Tensor, "v9")]);
    assert!(!emit_interpolated_println(&mut out, "tensor {t} and {missing}", &vals));
    assert!(!emit_interpolated_println(&mut out, "no placeholders", &vals));
    assert_eq!(out, "keep");
}

#[test]
fn callee_and_identifier_names() {
    assert_eq!(map_callee("io.println"), "aura_io_println");
    assert_eq!(map_callee("io.load_tensor"), "io_load_tensor");
    assert_eq!(c_ident("a.b.c"), "a_b_c");
    assert_eq!(builtin_return_ctype("aura_io_println"), CType::Void);
    assert_eq!(builtin_return_ctype("io_display"), CType::Void);
    assert_eq!(builtin_return_ctype("compute_gradient"), CType::Tensor);
    assert_eq!(map_ctype_decl(CType::I128), "aura_i128_t");
    assert_eq!(map_ctype_decl(CType::CString), "const char*");
}

#[test]
fn c_string_escaping() {
    assert_eq!(c_escape_string_literal("say \"hi\" \\ now"), "say \\\"hi\\\" \\\\ now");
    assert_eq!(escape_c_string("a\\\"b"), "a\\\\\\\"b");
}
