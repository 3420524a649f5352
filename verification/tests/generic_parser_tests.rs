use ast_doc_core::parser::lang::generic_parser::{find_matching_brace, is_test_name};

#[test]
fn test_is_test_name() {
    assert!(is_test_name("test_add"));
    assert!(is_test_name("TestAdd"));
    assert!(is_test_name("should_work"));
    assert!(is_test_name("bench_sort"));
    assert!(is_test_name("BenchmarkSort"));
    assert!(!is_test_name("add"));
    assert!(!is_test_name("main"));
    assert!(!is_test_name("get_test_value")); // contains "test" but doesn't match pattern
}

#[test]
fn test_find_matching_brace() {
    let text = "{ body }";
    assert_eq!(find_matching_brace(text, 0), Some(7));

    let text = "{ { nested } }";
    assert_eq!(find_matching_brace(text, 0), Some(13));

    let text = "{ unclosed";
    assert_eq!(find_matching_brace(text, 0), None);
}
