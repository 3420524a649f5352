use ast_doc_core::parser::strategy::{
    apply_no_tests, apply_summary, build_strategies, RemovalRange, RemovalReason,
};
use ast_doc_core::tokens::compute_token_count;
use ast_doc_core::OutputStrategy;

#[test]
fn test_apply_no_tests_empty_ranges() {
    let source = "fn main() {}\n";
    let result = apply_no_tests(source, &[]);
    assert_eq!(result, source);
}

#[test]
fn test_apply_no_tests_removes_test_module() {
    let source = "pub fn add(a: i32, b: i32) -> i32 {\n    a + b\n}\n\n#[cfg(test)]\nmod tests {\n    #[test]\n    fn test_add() {\n        assert_eq!(add(1, 2), 3);\n    }\n}\n";
    let ranges = vec![RemovalRange {
        start: source.find("#[cfg(test)]").unwrap(),
        end: source.len(),
        reason: RemovalReason::TestModule,
    }];
    let result = apply_no_tests(source, &ranges);
    assert!(!result.contains("#[cfg(test)]"));
    assert!(!result.contains("test_add"));
    assert!(result.contains("pub fn add"));
    assert!(result.contains("✂️ test module omitted"));
}

#[test]
fn test_apply_no_tests_preserves_non_test_code() {
    let source = "pub fn lib() -> i32 {\n    42\n}\n";
    let result = apply_no_tests(source, &[]);
    assert_eq!(result, source);
}

#[test]
fn test_apply_summary_empty_ranges() {
    let source = "fn main() {}\n";
    let result = apply_summary(source, &[]);
    assert_eq!(result, source);
}

#[test]
fn test_apply_summary_replaces_bodies() {
    let source = "pub fn add(a: i32, b: i32) -> i32 {\n    a + b\n}\n";
    let body_start = source.find('{').unwrap();
    let ranges = vec![RemovalRange {
        start: body_start,
        end: source.len() - 1, // exclude trailing newline for precision
        reason: RemovalReason::Implementation,
    }];
    let result = apply_summary(source, &ranges);
    assert!(result.contains("pub fn add(a: i32, b: i32) -> i32"));
    assert!(result.contains("✂️ implementations omitted"));
    assert!(!result.contains("a + b"));
}

#[test]
fn test_compute_token_count() {
    let count = compute_token_count("fn main() {}");
    assert!(count > 0, "token count should be > 0");
}

#[test]
fn test_compute_token_count_empty() {
    let count = compute_token_count("");
    assert_eq!(count, 0);
}

#[test]
fn test_build_strategies_produces_three_variants() {
    let source = "pub fn lib() -> i32 {\n    42\n}\n";
    let strategies = build_strategies(source, &[], &[]);
    assert!(strategies.contains_key(&OutputStrategy::Full));
    assert!(strategies.contains_key(&OutputStrategy::NoTests));
    assert!(strategies.contains_key(&OutputStrategy::Summary));
    // With no ranges, all should match source
    assert_eq!(strategies.get(&OutputStrategy::Full).unwrap().content, source);
    assert_eq!(strategies.get(&OutputStrategy::NoTests).unwrap().content, source);
    assert_eq!(strategies.get(&OutputStrategy::Summary).unwrap().content, source);
}

#[test]
fn test_full_mode_is_verbatim() {
    let source = "fn main() {\n    println!(\"hello\");\n}\n";
    let strategies = build_strategies(source, &[], &[]);
    assert_eq!(strategies.get(&OutputStrategy::Full).unwrap().content, source);
    assert_eq!(strategies.get(&OutputStrategy::Full).unwrap().token_count, compute_token_count(source));
}

#[test]
fn test_no_tests_less_than_full_tokens() {
    let source = "pub fn add(a: i32, b: i32) -> i32 {\n    a + b\n}\n\n#[cfg(test)]\nmod tests {\n    #[test]\n    fn test_add() {\n        assert_eq!(add(1, 2), 3);\n    }\n}\n";
    let test_range_start = source.find("#[cfg(test)]").unwrap();
    let test_ranges = vec![RemovalRange {
        start: test_range_start,
        end: source.len(),
        reason: RemovalReason::TestModule,
    }];
    let strategies = build_strategies(source, &test_ranges, &[]);
    assert!(
        strategies.get(&OutputStrategy::NoTests).unwrap().token_count
            < strategies.get(&OutputStrategy::Full).unwrap().token_count,
        "NoTests should have fewer tokens than Full"
    );
}

#[test]
fn summary_absorbs_nested_ranges() {
    let source = "impl A { fn f() { 1 } fn g() { 2 } }";
    let ranges = vec![
        RemovalRange { start: 7, end: 36, reason: RemovalReason::Implementation },
        RemovalRange { start: 16, end: 21, reason: RemovalReason::Implementation },
        RemovalRange { start: 29, end: 34, reason: RemovalReason::Implementation },
    ];
    assert_eq!(apply_summary(source, &ranges), "impl A // ✂️ implementations omitted");
}

#[test]
fn summary_drops_test_code() {
    let source = "fn a() {}\n#[test]\nfn t() { x(); }\n";
    let test_ranges = vec![RemovalRange { start: 10, end: 33, reason: RemovalReason::TestFunction }];
    let summary_ranges = vec![RemovalRange { start: 7, end: 9, reason: RemovalReason::Implementation }];
    let strategies = build_strategies(source, &test_ranges, &summary_ranges);
    let no_tests = &strategies.get(&OutputStrategy::NoTests).unwrap().content;
    let summary = &strategies.get(&OutputStrategy::Summary).unwrap().content;
    assert!(!no_tests.contains("x();"));
    assert!(!summary.contains("x();"));
    assert_eq!(
        summary,
        "fn a() // ✂️ implementations omitted\n// ✂️ test module omitted\n\n"
    );
}
