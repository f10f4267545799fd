use aura_lang::ai_opt::{optimizable_input, optimize_ll, HostFeatures};

const FOOTER: &str = "\n; === aura-ai-opt metadata footer ===\n";

fn run(input: &str, host: HostFeatures) -> String {
    assert!(optimizable_input(input));
    match optimize_ll(input, host) {
        Ok(s) => s,
        Err(e) => panic!("unexpected error: {}", e.message),
    }
}

#[test]
fn empty_module_gets_module_flags() {
    let out = run("", HostFeatures::default());
    let expected = format!(
        "{}!llvm.module.flags = !{{!0, !1}}\n!0 = !{{i32 2, !\"Debug Info Version\", i32 3}}\n!1 = !{{i32 1, !\"llvm.loop.vectorize.enable\", i32 1}}\n",
        FOOTER
    );
    assert_eq!(out, expected);
}

#[test]
fn tensor_length_query_gets_range_and_infer_call_gets_tag() {
    let input = "%t = call i32 @aura_tensor_new(i32 100)\n\
%len = call i32 @aura_tensor_len(i32 %t)\n\
%x = call i32 @aura_ai_infer(i32 %m, i32 %t) ; infer\n\
!5 = !{}\n";
    let out = run(input, HostFeatures { avx512: true, amx: false });
    let expected = format!(
        "%t = call i32 @aura_tensor_new(i32 100)\n\
%len = call i32 @aura_tensor_len(i32 %t), !range !6\n\
%x = call i32 @aura_ai_infer(i32 %m, i32 %t), !aura.ai.infer !7 ; infer\n\
!5 = !{{}}\n{}; aura.host.avx512 = true\n\
!llvm.module.flags = !{{!8, !9}}\n!8 = !{{i32 2, !\"Debug Info Version\", i32 3}}\n!9 = !{{i32 1, !\"llvm.loop.vectorize.enable\", i32 1}}\n\
!6 = !{{i32 100, i32 101}}\n!7 = !{{!\"aura.ai.infer\"}}\n",
        FOOTER
    );
    assert_eq!(out, expected);
}

#[test]
fn range_nodes_are_shared_and_negative_lengths_render() {
    let input = "%a = call i64 @aura_tensor_new(i64 -1)\r\n\
%n1 = call i32 @aura_tensor_len(i32 %a)\r\n\
%n2 = call i32 @aura_tensor_len(i32 %a) ; again\n\
!llvm.module.flags = !{!3}\n";
    let out = run(input, HostFeatures { avx512: false, amx: true });
    let expected = format!(
        "%a = call i64 @aura_tensor_new(i64 -1)\n\
%n1 = call i32 @aura_tensor_len(i32 %a), !range !4\n\
%n2 = call i32 @aura_tensor_len(i32 %a), !range !4 ; again\n\
!llvm.module.flags = !{{!3}}\n{}; aura.host.amx = true\n!4 = !{{i32 -1, i32 0}}\n",
        FOOTER
    );
    assert_eq!(out, expected);
}

#[test]
fn existing_range_is_kept_but_node_is_still_defined() {
    let input = "%t = call i32 @aura_tensor_new(42)\n%n = call i32 @aura_tensor_len(i32 %t), !range !0\n";
    let out = run(input, HostFeatures::default());
    let expected = format!(
        "%t = call i32 @aura_tensor_new(42)\n%n = call i32 @aura_tensor_len(i32 %t), !range !0\n\
{}!llvm.module.flags = !{{!2, !3}}\n!2 = !{{i32 2, !\"Debug Info Version\", i32 3}}\n!3 = !{{i32 1, !\"llvm.loop.vectorize.enable\", i32 1}}\n\
!1 = !{{i32 42, i32 43}}\n",
        FOOTER
    );
    assert_eq!(out, expected);
}

#[test]
fn unknown_tensor_and_non_literal_argument_are_left_alone() {
    let input = "%t = call i32 @aura_tensor_new(i32 %n, i32 7)\n%n = call i32 @aura_tensor_len(i32 %t)\n";
    let out = run(input, HostFeatures::default());
    let expected = format!(
        "{}{}!llvm.module.flags = !{{!0, !1}}\n!0 = !{{i32 2, !\"Debug Info Version\", i32 3}}\n!1 = !{{i32 1, !\"llvm.loop.vectorize.enable\", i32 1}}\n",
        input, FOOTER
    );
    assert_eq!(out, expected);
}

#[test]
fn largest_metadata_number_is_taken_from_the_whole_text() {
    let input = "!12 = !{}\n; mentions !40 in a comment\n!7 = !{}\n";
    let out = run(input, HostFeatures::default());
    let expected = format!(
        "{}{}!llvm.module.flags = !{{!41, !42}}\n!41 = !{{i32 2, !\"Debug Info Version\", i32 3}}\n!42 = !{{i32 1, !\"llvm.loop.vectorize.enable\", i32 1}}\n",
        input, FOOTER
    );
    assert_eq!(out, expected);
}

#[test]
fn last_free_metadata_number_is_usable() {
    let input = "!4294967293 = !{}\n";
    let out = run(input, HostFeatures::default());
    let expected = format!(
        "{}{}!llvm.module.flags = !{{!4294967294, !4294967295}}\n!4294967294 = !{{i32 2, !\"Debug Info Version\", i32 3}}\n!4294967295 = !{{i32 1, !\"llvm.loop.vectorize.enable\", i32 1}}\n",
        input, FOOTER
    );
    assert_eq!(out, expected);
}

#[test]
fn exhausted_metadata_numbers_are_not_optimizable() {
    assert!(!optimizable_input("!4294967295 = !{}\n"));
    assert!(!optimizable_input("!99999999999999999999 = !{}\n"));
    // the two module flags need two free numbers
    assert!(!optimizable_input("!4294967294 = !{}\n"));
    assert!(optimizable_input("!4294967294 = !{}\n!llvm.module.flags = !{!1}\n"));
}

#[test]
fn call_with_parentheses_out_of_order_is_not_optimizable() {
    assert!(!optimizable_input("%t = call i32 @aura_tensor_new ) (i32 1\n"));
    assert!(!optimizable_input("%n = call i32 @aura_tensor_len ) (i32 %t\n"));
    assert!(optimizable_input("call i32 @aura_tensor_new ) (i32 1\n"));
}

#[test]
fn tagged_inference_call_is_left_alone() {
    let input = "%x = call i32 @aura_ai_infer(i32 %m), !aura.ai.infer !3\n";
    let out = run(input, HostFeatures::default());
    let expected = format!(
        "{}{}!llvm.module.flags = !{{!4, !5}}\n!4 = !{{i32 2, !\"Debug Info Version\", i32 3}}\n!5 = !{{i32 1, !\"llvm.loop.vectorize.enable\", i32 1}}\n",
        input, FOOTER
    );
    assert_eq!(out, expected);
}
