use ast_doc_core::parser::lang::rust_parser::RustParser;
use ast_doc_core::parser::{Language, LanguageParser, ParsedFile};
use ast_doc_core::OutputStrategy;

fn parse_rust(source: &str) -> ParsedFile {
    let parser = RustParser::new();
    parser.parse(source, "test.rs").unwrap()
}

#[test]
fn test_rust_parser_creates_three_strategies() {
    let source = "fn main() {\n    println!(\"hello\");\n}\n";
    let parsed = parse_rust(source);
    assert!(parsed.strategies_data.contains_key(&OutputStrategy::Full));
    assert!(parsed.strategies_data.contains_key(&OutputStrategy::NoTests));
    assert!(parsed.strategies_data.contains_key(&OutputStrategy::Summary));
}

#[test]
fn test_rust_parser_full_is_verbatim() {
    let source = "fn main() {\n    println!(\"hello\");\n}\n";
    let parsed = parse_rust(source);
    assert_eq!(parsed.strategies_data.get(&OutputStrategy::Full).unwrap().content, source);
}

#[test]
fn test_rust_parser_detects_cfg_test_module() {
    let source = "pub fn add(a: i32, b: i32) -> i32 {\n    a + b\n}\n\n#[cfg(test)]\nmod tests {\n    #[test]\n    fn test_add() {\n        assert_eq!(add(1, 2), 3);\n    }\n}\n";
    let parsed = parse_rust(source);
    let no_tests = &parsed.strategies_data.get(&OutputStrategy::NoTests).unwrap().content;
    assert!(!no_tests.contains("#[cfg(test)]"), "NoTests should remove #[cfg(test)] module");
    assert!(!no_tests.contains("test_add"), "NoTests should remove test function");
    assert!(no_tests.contains("pub fn add"), "NoTests should preserve non-test code");
}

#[test]
fn test_rust_parser_removes_test_function() {
    let source = "pub fn helper() -> i32 {\n    42\n}\n\n#[test]\nfn test_helper() {\n    assert_eq!(helper(), 42);\n}\n";
    let parsed = parse_rust(source);
    let no_tests = &parsed.strategies_data.get(&OutputStrategy::NoTests).unwrap().content;
    assert!(no_tests.contains("pub fn helper"), "should preserve helper");
    assert!(!no_tests.contains("test_helper"), "should remove test function");
}

#[test]
fn test_rust_parser_summary_extracts_signatures() {
    let source = "pub fn add(a: i32, b: i32) -> i32 {\n    a + b\n}\n";
    let parsed = parse_rust(source);
    let summary = &parsed.strategies_data.get(&OutputStrategy::Summary).unwrap().content;
    assert!(summary.contains("pub fn add(a: i32, b: i32) -> i32"), "should preserve signature");
    assert!(!summary.contains("a + b"), "should remove body");
    assert!(summary.contains("✂️ implementations omitted"), "should insert marker");
}

#[test]
fn test_rust_parser_summary_handles_struct() {
    let source = "#[derive(Debug)]\npub struct Point {\n    x: f64,\n    y: f64,\n}\n";
    let parsed = parse_rust(source);
    let summary = &parsed.strategies_data.get(&OutputStrategy::Summary).unwrap().content;
    assert!(summary.contains("struct Point"), "should contain struct");
}

#[test]
fn test_rust_parser_no_tests_fewer_tokens_than_full() {
    let source = "pub fn lib() -> i32 {\n    42\n}\n\n#[cfg(test)]\nmod tests {\n    #[test]\n    fn test_lib() {\n        assert_eq!(lib(), 42);\n    }\n}\n";
    let parsed = parse_rust(source);
    let full_tokens = parsed.strategies_data.get(&OutputStrategy::Full).unwrap().token_count;
    let no_tests_tokens = parsed.strategies_data.get(&OutputStrategy::NoTests).unwrap().token_count;
    assert!(
        no_tests_tokens < full_tokens,
        "NoTests ({no_tests_tokens}) should have fewer tokens than Full ({full_tokens})"
    );
}

#[test]
fn test_rust_parser_path_stored() {
    let source = "fn main() {}\n";
    let parser = RustParser::new();
    let parsed = parser.parse(source, "src/main.rs").unwrap();
    assert_eq!(parsed.path, "src/main.rs");
}

#[test]
fn test_rust_parser_language_is_rust() {
    let source = "fn main() {}\n";
    let parsed = parse_rust(source);
    assert_eq!(parsed.language, Language::Rust);
}

#[test]
fn test_rust_parser_empty_file() {
    let source = "";
    let parsed = parse_rust(source);
    assert_eq!(parsed.strategies_data.get(&OutputStrategy::Full).unwrap().content, "");
    assert_eq!(parsed.strategies_data.get(&OutputStrategy::Full).unwrap().token_count, 0);
}

#[test]
fn test_rust_parser_multiple_test_functions() {
    let source = "pub fn add(a: i32, b: i32) -> i32 { a + b }\npub fn sub(a: i32, b: i32) -> i32 { a - b }\n\n#[test]\nfn test_add() { assert_eq!(add(1, 2), 3); }\n\n#[test]\nfn test_sub() { assert_eq!(sub(3, 1), 2); }\n";
    let parsed = parse_rust(source);
    let no_tests = &parsed.strategies_data.get(&OutputStrategy::NoTests).unwrap().content;
    assert!(no_tests.contains("pub fn add"), "should preserve add");
    assert!(no_tests.contains("pub fn sub"), "should preserve sub");
    assert!(!no_tests.contains("test_add"), "should remove test_add");
    assert!(!no_tests.contains("test_sub"), "should remove test_sub");
}

#[test]
fn test_rust_parser_nested_test_module() {
    let source = "pub fn helper() {}\n\n#[cfg(test)]\nmod tests {\n    use super::*;\n\n    #[test]\n    fn test_helper() {\n        helper();\n    }\n}\n";
    let parsed = parse_rust(source);
    let no_tests = &parsed.strategies_data.get(&OutputStrategy::NoTests).unwrap().content;
    assert!(no_tests.contains("pub fn helper"));
    assert!(!no_tests.contains("test_helper"));
}

#[test]
fn test_rust_parser_impl_block_summary() {
    let source = "pub struct Counter {\n    count: u32,\n}\n\nimpl Counter {\n    pub fn new() -> Self {\n        Self { count: 0 }\n    }\n\n    pub fn increment(&mut self) {\n        self.count += 1;\n    }\n}\n";
    let parsed = parse_rust(source);
    let summary = &parsed.strategies_data.get(&OutputStrategy::Summary).unwrap().content;
    assert!(summary.contains("impl Counter"), "should contain impl");
    assert!(summary.contains("struct Counter"), "should contain struct");
}

#[test]
fn function_after_a_test_function_is_kept() {
    let source = "#[test]\nfn t() {}\n\npub fn helper() {}\n";
    let parsed = RustParser::new().parse(source, "src/lib.rs").unwrap();
    let no_tests = &parsed.strategies_data.get(&OutputStrategy::NoTests).unwrap().content;
    assert!(no_tests.contains("pub fn helper() {}"), "helper removed: {no_tests}");
    assert!(!no_tests.contains("fn t()"), "test function kept: {no_tests}");
}

#[test]
fn test_attribute_after_a_comment_still_counts() {
    let source = "#[test]\n// checks t\nfn t() {}\n";
    let parsed = RustParser::new().parse(source, "src/lib.rs").unwrap();
    let no_tests = &parsed.strategies_data.get(&OutputStrategy::NoTests).unwrap().content;
    assert!(!no_tests.contains("fn t()"), "test function kept: {no_tests}");
}

#[test]
fn tokio_test_functions_are_tests() {
    let source = "pub fn keep() {}\n\n#[tokio::test]\nasync fn t() { work().await; }\n";
    let parsed = RustParser::new().parse(source, "src/lib.rs").unwrap();
    let no_tests = &parsed.strategies_data.get(&OutputStrategy::NoTests).unwrap().content;
    assert!(no_tests.contains("pub fn keep() {}"));
    assert!(!no_tests.contains("work()"), "tokio test kept: {no_tests}");
}

#[test]
fn module_named_tests_is_a_test_module() {
    let source = "pub fn keep() {}\n\nmod tests {\n    fn helper() {}\n}\n";
    let parsed = RustParser::new().parse(source, "src/lib.rs").unwrap();
    let no_tests = &parsed.strategies_data.get(&OutputStrategy::NoTests).unwrap().content;
    assert!(no_tests.contains("pub fn keep() {}"));
    assert!(!no_tests.contains("helper"), "tests module kept: {no_tests}");
    assert!(no_tests.contains("// ✂️ test module omitted"));
}
