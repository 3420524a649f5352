use ast_doc_core::parser::lang::python_parser::PythonParser;
use ast_doc_core::parser::{Language, LanguageParser, ParsedFile};
use ast_doc_core::OutputStrategy;

fn parse_python(source: &str) -> ParsedFile {
    let parser = PythonParser::new();
    parser.parse(source, "test.py").unwrap()
}

#[test]
fn test_python_parser_creates_three_strategies() {
    let source = "def main():\n    pass\n";
    let parsed = parse_python(source);
    assert!(parsed.strategies_data.contains_key(&OutputStrategy::Full));
    assert!(parsed.strategies_data.contains_key(&OutputStrategy::NoTests));
    assert!(parsed.strategies_data.contains_key(&OutputStrategy::Summary));
}

#[test]
fn test_python_parser_full_is_verbatim() {
    let source = "def main():\n    pass\n";
    let parsed = parse_python(source);
    assert_eq!(parsed.strategies_data.get(&OutputStrategy::Full).unwrap().content, source);
}

#[test]
fn test_python_parser_removes_test_function() {
    let source =
        "def add(a, b):\n    return a + b\n\ndef test_add():\n    assert add(1, 2) == 3\n";
    let parsed = parse_python(source);
    let no_tests = &parsed.strategies_data.get(&OutputStrategy::NoTests).unwrap().content;
    assert!(no_tests.contains("def add"), "should preserve add");
    assert!(!no_tests.contains("test_add"), "should remove test function");
}

#[test]
fn test_python_parser_removes_test_class() {
    let source = "def helper():\n    pass\n\nclass TestHelper:\n    def test_something(self):\n        pass\n";
    let parsed = parse_python(source);
    let no_tests = &parsed.strategies_data.get(&OutputStrategy::NoTests).unwrap().content;
    assert!(no_tests.contains("def helper"), "should preserve helper");
    assert!(!no_tests.contains("TestHelper"), "should remove Test class");
}

#[test]
fn test_python_parser_removes_pytest_decorated() {
    let source = "import pytest\n\ndef helper():\n    pass\n\n@pytest.fixture\ndef sample_data():\n    return [1, 2, 3]\n";
    let parsed = parse_python(source);
    let no_tests = &parsed.strategies_data.get(&OutputStrategy::NoTests).unwrap().content;
    assert!(no_tests.contains("def helper"), "should preserve helper");
    assert!(!no_tests.contains("sample_data"), "should remove pytest decorated function");
}

#[test]
fn test_python_parser_summary_extracts_signatures() {
    let source = "def add(a, b):\n    return a + b\n";
    let parsed = parse_python(source);
    let summary = &parsed.strategies_data.get(&OutputStrategy::Summary).unwrap().content;
    assert!(summary.contains("def add(a, b)"), "should preserve signature");
    assert!(!summary.contains("return a + b"), "should remove body");
    assert!(summary.contains("✂️ implementations omitted"), "should insert marker");
}

#[test]
fn test_python_parser_preserves_non_test_code() {
    let source = "class MyClass:\n    def method(self):\n        pass\n";
    let parsed = parse_python(source);
    let no_tests = &parsed.strategies_data.get(&OutputStrategy::NoTests).unwrap().content;
    assert_eq!(no_tests, source);
}

#[test]
fn test_python_parser_language_is_python() {
    let source = "def main():\n    pass\n";
    let parsed = parse_python(source);
    assert_eq!(parsed.language, Language::Python);
}

#[test]
fn test_python_parser_empty_file() {
    let source = "";
    let parsed = parse_python(source);
    assert_eq!(parsed.strategies_data.get(&OutputStrategy::Full).unwrap().content, "");
}
