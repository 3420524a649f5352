use ast_doc_core::parser::lang::c_parser::CParser;
use ast_doc_core::parser::{Language, LanguageParser, ParsedFile};
use ast_doc_core::OutputStrategy;

fn parse_c(source: &str) -> ParsedFile {
    let parser = CParser::new();
    parser.parse(source, "main.c").unwrap()
}

#[test]
fn test_c_parser_creates_three_strategies() {
    let source = "int main() {\n    return 0;\n}\n";
    let parsed = parse_c(source);
    assert!(parsed.strategies_data.contains_key(&OutputStrategy::Full));
    assert!(parsed.strategies_data.contains_key(&OutputStrategy::NoTests));
    assert!(parsed.strategies_data.contains_key(&OutputStrategy::Summary));
}

#[test]
fn test_c_parser_full_is_verbatim() {
    let source = "int main() {\n    return 0;\n}\n";
    let parsed = parse_c(source);
    assert_eq!(parsed.strategies_data.get(&OutputStrategy::Full).unwrap().content, source);
}

#[test]
fn test_c_parser_no_tests_equals_full() {
    // C has no test markers, so NoTests should equal Full
    let source = "int main() {\n    return 0;\n}\n";
    let parsed = parse_c(source);
    assert_eq!(
        parsed.strategies_data.get(&OutputStrategy::NoTests).unwrap().content,
        source,
        "C has no test markers, NoTests should equal Full"
    );
}

#[test]
fn test_c_parser_summary_extracts_signatures() {
    let source = "int add(int a, int b) {\n    return a + b;\n}\n";
    let parsed = parse_c(source);
    let summary = &parsed.strategies_data.get(&OutputStrategy::Summary).unwrap().content;
    assert!(summary.contains("int add(int a, int b)"), "should preserve signature");
    assert!(!summary.contains("return a + b"), "should remove body");
    assert!(summary.contains("✂️ implementations omitted"), "should insert marker");
}

#[test]
fn test_c_parser_language_is_c() {
    let source = "int main() { return 0; }\n";
    let parsed = parse_c(source);
    assert_eq!(parsed.language, Language::C);
}

#[test]
fn test_c_parser_empty_file() {
    let source = "";
    let parsed = parse_c(source);
    assert_eq!(parsed.strategies_data.get(&OutputStrategy::Full).unwrap().content, "");
}
