use cargo_impact::finding::SeverityClass;
use cargo_impact::ref_context::{classify, classify_in_file, ReferenceContext};
use cargo_impact::syntax::{parse_source, SourceItem};

fn parse(src: &str) -> Vec<SourceItem> {
    parse_source(src).expect("parse").items
}

#[test]
fn plain_top_level_fn_is_caller() {
    let ast = parse("fn hello() {\n    let x = 1;\n    foo(x);\n}\n");
    assert_eq!(classify_in_file(&ast, 3), ReferenceContext::Caller);
}

#[test]
fn test_attribute_on_fn_flags_test_fn() {
    let ast = parse("#[test]\nfn t_smoke() {\n    foo();\n}\n");
    assert_eq!(classify_in_file(&ast, 3), ReferenceContext::TestFn);
}

#[test]
fn tokio_test_attribute_flags_test_fn() {
    let ast = parse("#[tokio::test]\nasync fn t_async() {\n    foo();\n}\n");
    assert_eq!(classify_in_file(&ast, 3), ReferenceContext::TestFn);
}

#[test]
fn rstest_attribute_flags_test_fn() {
    let ast = parse("#[rstest]\nfn t_param() {\n    foo();\n}\n");
    assert_eq!(classify_in_file(&ast, 3), ReferenceContext::TestFn);
}

#[test]
fn fn_inside_tests_module_is_test_fn() {
    let ast = parse("mod tests {\n    fn helper() {\n        foo();\n    }\n}\n");
    assert_eq!(classify_in_file(&ast, 3), ReferenceContext::TestFn);
}

#[test]
fn fn_inside_cfg_test_module_is_test_fn() {
    let ast = parse("#[cfg(test)]\nmod inner {\n    fn helper() {\n        foo();\n    }\n}\n");
    assert_eq!(classify_in_file(&ast, 4), ReferenceContext::TestFn);
}

#[test]
fn impl_block_method_is_impl_block() {
    let ast = parse("struct W;\nimpl W {\n    fn hi(&self) {\n        foo();\n    }\n}\n");
    assert_eq!(classify_in_file(&ast, 4), ReferenceContext::ImplBlock);
}

#[test]
fn trait_impl_method_is_impl_block() {
    let ast = parse(
        "trait T { fn hi(&self); }\nstruct W;\nimpl T for W {\n    fn hi(&self) {\n        foo();\n    }\n}\n",
    );
    assert_eq!(classify_in_file(&ast, 5), ReferenceContext::ImplBlock);
}

#[test]
fn test_fn_inside_impl_beats_impl_block() {
    // If a #[test] fn lives inside an impl block, TestFn wins —
    // the impl enclosure is syntactic but the functional intent
    // is a test.
    let ast = parse(
        "struct W;\nimpl W {\n    #[test]\n    fn t_inner() {\n        foo();\n    }\n}\n",
    );
    assert_eq!(classify_in_file(&ast, 5), ReferenceContext::TestFn);
}

#[test]
fn nested_cfg_test_mod_propagates_into_inner_impl() {
    let ast = parse(
        "#[cfg(test)]\nmod tests {\n    struct W;\n    impl W {\n        fn helper(&self) {\n            foo();\n        }\n    }\n}\n",
    );
    // Reference is inside a test mod AND an impl — test wins per
    // precedence.
    assert_eq!(classify_in_file(&ast, 6), ReferenceContext::TestFn);
}

#[test]
fn line_outside_any_container_stays_caller() {
    let ast = parse("fn a() {}\nfn b() {}\n");
    // Line 100 is past the file; walker never matches.
    assert_eq!(classify_in_file(&ast, 100), ReferenceContext::Caller);
}

#[test]
fn refined_severity_mapping() {
    assert_eq!(
        ReferenceContext::TestFn.refined_severity(),
        SeverityClass::Low
    );
    assert_eq!(
        ReferenceContext::ImplBlock.refined_severity(),
        SeverityClass::High
    );
    assert_eq!(
        ReferenceContext::Caller.refined_severity(),
        SeverityClass::Medium
    );
}

#[test]
fn classify_on_missing_file_returns_caller() {
    assert_eq!(classify(None, 1), ReferenceContext::Caller);
}

#[test]
fn a_text_that_does_not_parse_is_caller() {
    assert_eq!(classify(Some("fn ("), 1), ReferenceContext::Caller);
    assert_eq!(classify(Some("struct W;\nimpl W {\n}\n"), 2), ReferenceContext::ImplBlock);
}

#[test]
fn the_first_and_the_last_line_belong_to_an_item() {
    let ast = parse("#[bench]\nfn b() {\n}\nfn c() {}\n");
    assert_eq!(classify_in_file(&ast, 1), ReferenceContext::TestFn);
    assert_eq!(classify_in_file(&ast, 3), ReferenceContext::TestFn);
    assert_eq!(classify_in_file(&ast, 4), ReferenceContext::Caller);
}

#[test]
fn every_item_of_a_test_module_is_test_code() {
    let ast = parse("mod tests {\n    const N: u32 = foo();\n}\n");
    assert_eq!(classify_in_file(&ast, 2), ReferenceContext::TestFn);
    let ast = parse("#[cfg(test)]\nmod checks {\n    mod deep {\n        static S: u8 = foo();\n    }\n}\n");
    assert_eq!(classify_in_file(&ast, 4), ReferenceContext::TestFn);
    let ast = parse("mod other {\n    const N: u32 = foo();\n}\n");
    assert_eq!(classify_in_file(&ast, 2), ReferenceContext::Caller);
}
