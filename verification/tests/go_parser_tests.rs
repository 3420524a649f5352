use ast_doc_core::parser::lang::go_parser::GoParser;
use ast_doc_core::parser::{Language, LanguageParser, ParsedFile};
use ast_doc_core::OutputStrategy;

fn parse_go(source: &str) -> ParsedFile {
    let parser = GoParser::new();
    parser.parse(source, "main.go").unwrap()
}

#[test]
fn test_go_parser_creates_three_strategies() {
    let source = "package main\n\nfunc main() {\n\tfmt.Println(\"hello\")\n}\n";
    let parsed = parse_go(source);
    assert!(parsed.strategies_data.contains_key(&OutputStrategy::Full));
    assert!(parsed.strategies_data.contains_key(&OutputStrategy::NoTests));
    assert!(parsed.strategies_data.contains_key(&OutputStrategy::Summary));
}

#[test]
fn test_go_parser_full_is_verbatim() {
    let source = "package main\n\nfunc main() {\n\tfmt.Println(\"hello\")\n}\n";
    let parsed = parse_go(source);
    assert_eq!(parsed.strategies_data.get(&OutputStrategy::Full).unwrap().content, source);
}

#[test]
fn test_go_parser_removes_test_function() {
    let source = "package main\n\nfunc Add(a, b int) int {\n\treturn a + b\n}\n\nfunc TestAdd(t *testing.T) {\n\tif Add(1, 2) != 3 {\n\t\tt.Fatal(\"wrong\")\n\t}\n}\n";
    let parsed = parse_go(source);
    let no_tests = &parsed.strategies_data.get(&OutputStrategy::NoTests).unwrap().content;
    assert!(no_tests.contains("func Add"), "should preserve Add");
    assert!(!no_tests.contains("TestAdd"), "should remove TestAdd");
}

#[test]
fn test_go_parser_removes_test_file_entirely() {
    let source = "package main\n\nfunc TestSomething(t *testing.T) {\n\t// test\n}\n";
    let parser = GoParser::new();
    let parsed = parser.parse(source, "main_test.go").unwrap();
    let no_tests = &parsed.strategies_data.get(&OutputStrategy::NoTests).unwrap().content;
    assert!(no_tests.contains("✂️ test module omitted"), "should mark as omitted");
}

#[test]
fn test_go_parser_summary_extracts_signatures() {
    let source = "package main\n\nfunc Add(a, b int) int {\n\treturn a + b\n}\n";
    let parsed = parse_go(source);
    let summary = &parsed.strategies_data.get(&OutputStrategy::Summary).unwrap().content;
    assert!(summary.contains("func Add(a, b int) int"), "should preserve signature");
    assert!(!summary.contains("return a + b"), "should remove body");
    assert!(summary.contains("✂️ implementations omitted"), "should insert marker");
}

#[test]
fn test_go_parser_language_is_go() {
    let source = "package main\n";
    let parsed = parse_go(source);
    assert_eq!(parsed.language, Language::Go);
}

#[test]
fn test_go_parser_empty_file() {
    let source = "";
    let parsed = parse_go(source);
    assert_eq!(parsed.strategies_data.get(&OutputStrategy::Full).unwrap().content, "");
}
