use aura_lang::debugger::{DebuggerIntegration, DwarfDebugInfo, FunctionDebugInfo, LineNumberMap, SourceLocation};

#[test]
fn test_source_location() {
    let loc = SourceLocation { file_path: "src/math.aura".to_string(), line: 42, column: 10 };
    assert_eq!(loc.line, 42);
}

#[test]
fn test_line_number_map() {
    let mut map = LineNumberMap::new();
    let loc = SourceLocation { file_path: "test.aura".to_string(), line: 5, column: 0 };
    map.add_mapping(0x1000, loc.clone());
    assert_eq!(map.lookup(0x1000), Some(&loc));
    assert_eq!(map.lookup(0x2000), None);
}

#[test]
fn test_debugger_breakpoints() {
    let mut dbg = DebuggerIntegration::new();
    let id1 = dbg.set_breakpoint("main.aura".to_string(), 10);
    let _id2 = dbg.set_breakpoint("main.aura".to_string(), 20);
    let bps = dbg.list_breakpoints();
    assert_eq!(bps.len(), 2);
    assert!(dbg.remove_breakpoint(id1));
    assert_eq!(dbg.list_breakpoints().len(), 1);
}

#[test]
fn test_dwarf_debug_info() {
    let mut dwarf = DwarfDebugInfo::new();
    let func = FunctionDebugInfo {
        name: "add".to_string(),
        return_type: "i32".to_string(),
        parameters: vec![("x".to_string(), "i32".to_string()), ("y".to_string(), "i32".to_string())],
        local_vars: vec![("result".to_string(), "i32".to_string(), 5)],
        start_line: 3,
        end_line: 7,
    };
    dwarf.add_function("add".to_string(), func);
    assert_eq!(dwarf.functions.len(), 1);
}

fn loc(file: &str, line: u32) -> SourceLocation {
    SourceLocation { file_path: file.to_string(), line, column: 0 }
}

#[test]
fn metadata_and_breakpoint_locations() {
    let mut dwarf = DwarfDebugInfo::default();
    let mut b = LineNumberMap::new();
    b.add_mapping(30, loc("b.aura", 7));
    b.add_mapping(10, loc("b.aura", 3));
    b.add_mapping(20, loc("b.aura", 7));
    let mut a = LineNumberMap::new();
    a.add_mapping(5, loc("a.aura", 9));
    dwarf.add_line_mapping("b.aura".to_string(), b);
    dwarf.add_line_mapping("a.aura".to_string(), a);
    dwarf.add_type_def("T".to_string(), "struct".to_string());
    dwarf.add_type_def("T".to_string(), "enum".to_string());
    assert_eq!(dwarf.type_defs, vec![("T".to_string(), "enum".to_string())]);
    assert_eq!(
        dwarf.emit_dwarf_metadata(),
        "!llvm.module.flags = !{\n  !0\n}\n\n!0 = !{i32 2, !\"Dwarf Version\", i32 4}\n!1 = !{!\"0x1\", !\"File\", !\"a.aura\"}\n!2 = !{!\"0x2\", !\"File\", !\"b.aura\"}\n"
    );
    assert_eq!(
        dwarf.get_breakpoint_locations(),
        vec![("a.aura".to_string(), 9), ("b.aura".to_string(), 3), ("b.aura".to_string(), 7)]
    );
}

#[test]
fn breakpoint_listing_and_mi() {
    let mut dbg = DebuggerIntegration::new();
    assert_eq!(dbg.set_breakpoint("m.aura".to_string(), 4), 1);
    assert_eq!(dbg.set_breakpoint("n.aura".to_string(), 8), 2);
    assert_eq!(dbg.set_breakpoint("o.aura".to_string(), 1), 3);
    assert!(dbg.remove_breakpoint(2));
    assert!(!dbg.remove_breakpoint(2));
    assert_eq!(dbg.list_breakpoints(), vec![(1, "m.aura".to_string(), 4), (3, "o.aura".to_string(), 1)]);
    assert_eq!(
        dbg.format_breakpoint_mi(3).unwrap(),
        "^done,BreakpointTable={nr_rows=\"1\",nr_cols=\"6\",hdr={width=\"3\",alignment=\"-1\",col_name=\"number\",col_hdr=\"Num\"},body=[bkpt={number=\"3\",type=\"breakpoint\",disp=\"keep\",enabled=\"y\",addr=\"0x0\",file=\"o.aura\",line=\"1\",times=\"0\"}]}"
    );
    assert_eq!(dbg.format_breakpoint_mi(2), None);
    dbg.stop_at_breakpoint(1);
    dbg.resume();
}

#[test]
fn breakpoint_ids_count_the_sets_and_are_never_reused() {
    let mut dbg = DebuggerIntegration::new();
    assert_eq!(dbg.set_breakpoint("a.aura".to_string(), 1), 1);
    assert_eq!(dbg.set_breakpoint("a.aura".to_string(), 2), 2);
    assert!(dbg.remove_breakpoint(1));
    assert!(dbg.remove_breakpoint(2));
    assert_eq!(dbg.set_breakpoint("b.aura".to_string(), 3), 3);
    assert_eq!(dbg.set_breakpoint("b.aura".to_string(), 4), 4);
    let ids: Vec<u64> = dbg.list_breakpoints().iter().map(|b| b.0).collect();
    assert_eq!(ids, vec![3, 4]);
}

#[test]
fn new_breakpoint_is_listed_last() {
    let mut dbg = DebuggerIntegration::new();
    dbg.set_breakpoint("a.aura".to_string(), 7);
    dbg.set_breakpoint("b.aura".to_string(), 3);
    dbg.remove_breakpoint(1);
    let before = dbg.list_breakpoints();
    let id = dbg.set_breakpoint("c.aura".to_string(), 9);
    let mut expected = before.clone();
    expected.push((id, "c.aura".to_string(), 9));
    assert_eq!(dbg.list_breakpoints(), expected);
    assert_eq!(expected, vec![(2, "b.aura".to_string(), 3), (3, "c.aura".to_string(), 9)]);
}
