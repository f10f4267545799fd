use aura_lang::bridge::{
    decode_header_text, discovered_from_matches, generate_aura_shim, map_c_type_to_aura, parse_header_functions,
    parse_params, DiscoveredFn,
};

fn pairs(v: &[(&str, &str)]) -> Vec<(String, String)> {
    v.iter().map(|(a, b)| (a.to_string(), b.to_string())).collect()
}

#[test]
fn refined_mapping_emits_ranges_and_option_for_pointers() {
    assert_eq!(map_c_type_to_aura("uint8_t", false), "u32");
    assert_eq!(map_c_type_to_aura("uint8_t", true), "u32[0..255]");
    assert_eq!(map_c_type_to_aura("uint16_t", true), "u32[0..65535]");
    assert_eq!(map_c_type_to_aura("int*", false), "u32");
    assert_eq!(map_c_type_to_aura("int*", true), "Option<u32>");
    assert_eq!(map_c_type_to_aura("const char *", true), "String");
}

#[test]
fn shim_generation_uses_refined_types_when_enabled() {
    let funcs = vec![DiscoveredFn {
        name: "foo".to_string(),
        params: vec![("p".to_string(), "int*".to_string()), ("n".to_string(), "uint8_t".to_string())],
        ret: "void".to_string(),
    }];

    let shim_plain = generate_aura_shim(&funcs, false);
    assert!(shim_plain.contains("extern cell foo(p: u32, n: u32): Unit"));

    let shim_refined = generate_aura_shim(&funcs, true);
    assert!(shim_refined.contains("extern cell foo(p: Option<u32>, n: u32[0..255]): Unit"));
}

#[test]
fn qualifiers_are_stripped_before_mapping() {
    assert_eq!(map_c_type_to_aura("volatile unsigned char", true), "u32[0..255]");
    assert_eq!(map_c_type_to_aura("unsigned short", false), "u32");
    assert_eq!(map_c_type_to_aura("const struct widget*", true), "Option<u32>");
    assert_eq!(map_c_type_to_aura("char*", false), "String");
    assert_eq!(map_c_type_to_aura("  void  ", false), "Unit");
    assert_eq!(map_c_type_to_aura("double", true), "u32");
}

#[test]
fn shim_text_is_exact() {
    let funcs = vec![
        DiscoveredFn { name: "init".to_string(), params: vec![], ret: "int".to_string() },
        DiscoveredFn {
            name: "put".to_string(),
            params: pairs(&[("s", "const char*"), ("len", "size_t")]),
            ret: "void".to_string(),
        },
    ];
    let shim = generate_aura_shim(&funcs, false);
    assert_eq!(
        shim,
        "# Auto-generated by aura-bridge (bootstrap)\n# NOTE: C/C++ parsing is heuristic in this phase.\n\n\
extern cell init(): u32\n\nextern cell put(s: String, len: u32): Unit\n\n"
    );
    assert_eq!(
        generate_aura_shim(&[], true),
        "# Auto-generated by aura-bridge (bootstrap)\n# NOTE: C/C++ parsing is heuristic in this phase.\n\n"
    );
}

#[test]
fn parameters_are_split_named_and_numbered() {
    assert_eq!(
        parse_params(" const char*  name , int len "),
        pairs(&[("name", "const char*"), ("len", "int")])
    );
    assert_eq!(parse_params("float *ptr, int"), pairs(&[("ptr", "float"), ("arg1", "int")]));
    assert_eq!(parse_params(",int x,,"), pairs(&[("x", "int")]));
    assert_eq!(parse_params("int &&r"), pairs(&[("r", "int")]));
    assert!(parse_params("void").is_empty());
    assert!(parse_params("  ").is_empty());
}

#[test]
fn header_declarations_are_found() {
    let found = parse_header_functions("int foo(int a, float* b);\nvoid bar(void);\n// not a decl\n");
    assert_eq!(found.len(), 2);
    assert_eq!(found[0].name, "foo");
    assert_eq!(found[0].ret, "int");
    assert_eq!(found[0].params, pairs(&[("a", "int"), ("b", "float*")]));
    assert_eq!(found[1].name, "bar");
    assert_eq!(found[1].ret, "void");
    assert!(found[1].params.is_empty());
}

#[test]
fn matches_become_declarations() {
    let ms = vec![("unsigned   int".to_string(), "count".to_string(), "const char* s".to_string())];
    let found = discovered_from_matches(&ms);
    assert_eq!(found.len(), 1);
    assert_eq!(found[0].name, "count");
    assert_eq!(found[0].ret, "unsigned int");
    assert_eq!(found[0].params, pairs(&[("s", "const char*")]));
}

#[test]
fn header_bytes_are_decoded() {
    assert_eq!(decode_header_text("int f(void);".as_bytes()), "int f(void);");
    // valid UTF-8 keeps its NUL bytes
    assert_eq!(decode_header_text(&[0x48, 0x00, 0x69, 0x00]), "H\u{0}i\u{0}");
    // UTF-16LE with a byte order mark; an odd last byte is dropped
    assert_eq!(decode_header_text(&[0xFF, 0xFE, 0x41, 0x00, 0x42]), "A");
    // UTF-16LE recognized by its NUL bytes
    assert_eq!(decode_header_text(&[0x48, 0x00, 0xE9, 0x00]), "Hé");
    // otherwise invalid sequences are replaced
    assert_eq!(decode_header_text(&[0x61, 0xFF, 0x62]), "a\u{FFFD}b");
}

#[test]
fn utf16_header_text_pairs_surrogates_and_replaces_unpaired_ones() {
    let bytes = [0xFF, 0xFE, 0x41, 0x00, 0x3D, 0xD8, 0x00, 0xDE, 0x00, 0xD8, 0x42, 0x00];
    assert_eq!(decode_header_text(&bytes), "A\u{1F600}\u{FFFD}B");
}

#[test]
fn utf8_header_text_is_decoded() {
    assert_eq!(decode_header_text("h\u{e9}llo \u{1F600}".as_bytes()), "h\u{e9}llo \u{1F600}");
}
