use ast_doc_core::parser::lang::typescript_parser::TypeScriptParser;
use ast_doc_core::parser::{Language, LanguageParser, ParsedFile};
use ast_doc_core::OutputStrategy;

fn parse_ts(source: &str) -> ParsedFile {
    let parser = TypeScriptParser::new();
    parser.parse(source, "test.ts").unwrap()
}

#[test]
fn test_ts_parser_creates_three_strategies() {
    let source = "function main() {\n    console.log('hello');\n}\n";
    let parsed = parse_ts(source);
    assert!(parsed.strategies_data.contains_key(&OutputStrategy::Full));
    assert!(parsed.strategies_data.contains_key(&OutputStrategy::NoTests));
    assert!(parsed.strategies_data.contains_key(&OutputStrategy::Summary));
}

#[test]
fn test_ts_parser_full_is_verbatim() {
    let source = "function main() {\n    console.log('hello');\n}\n";
    let parsed = parse_ts(source);
    assert_eq!(parsed.strategies_data.get(&OutputStrategy::Full).unwrap().content, source);
}

#[test]
fn test_ts_parser_removes_it_calls() {
    let source = "function add(a: number, b: number): number {\n    return a + b;\n}\n\nit('adds numbers', () => {\n    expect(add(1, 2)).toBe(3);\n});\n";
    let parsed = parse_ts(source);
    let no_tests = &parsed.strategies_data.get(&OutputStrategy::NoTests).unwrap().content;
    assert!(no_tests.contains("function add"), "should preserve add");
    assert!(!no_tests.contains("it("), "should remove it() call");
}

#[test]
fn test_ts_parser_removes_test_calls() {
    let source = "export function helper(): string {\n    return 'hello';\n}\n\ntest('helper returns hello', () => {\n    expect(helper()).toBe('hello');\n});\n";
    let parsed = parse_ts(source);
    let no_tests = &parsed.strategies_data.get(&OutputStrategy::NoTests).unwrap().content;
    assert!(no_tests.contains("function helper"), "should preserve helper");
    assert!(!no_tests.contains("test("), "should remove test() call");
}

#[test]
fn test_ts_parser_removes_describe_blocks() {
    let source = "function helper(): string {\n    return 'hello';\n}\n\ndescribe('Helper', () => {\n    it('works', () => {\n        expect(helper()).toBe('hello');\n    });\n});\n";
    let parsed = parse_ts(source);
    let no_tests = &parsed.strategies_data.get(&OutputStrategy::NoTests).unwrap().content;
    assert!(no_tests.contains("function helper"), "should preserve helper");
    assert!(!no_tests.contains("describe("), "should remove describe block");
}

#[test]
fn test_ts_parser_summary_extracts_signatures() {
    let source = "function add(a: number, b: number): number {\n    return a + b;\n}\n";
    let parsed = parse_ts(source);
    let summary = &parsed.strategies_data.get(&OutputStrategy::Summary).unwrap().content;
    assert!(summary.contains("function add"), "should preserve function");
    assert!(!summary.contains("return a + b"), "should remove body");
    assert!(summary.contains("✂️ implementations omitted"), "should insert marker");
}

#[test]
fn test_ts_parser_language_is_typescript() {
    let source = "function main() {}\n";
    let parsed = parse_ts(source);
    assert_eq!(parsed.language, Language::TypeScript);
}

#[test]
fn test_ts_parser_empty_file() {
    let source = "";
    let parsed = parse_ts(source);
    assert_eq!(parsed.strategies_data.get(&OutputStrategy::Full).unwrap().content, "");
}

#[test]
fn test_and_spec_files_are_test_code() {
    let source = "export function helper(): number {\n    return 1;\n}\n";
    for path in ["src/helper.test.ts", "src/helper.spec.js"] {
        let parsed = TypeScriptParser::new().parse(source, path).unwrap();
        let no_tests = &parsed.strategies_data.get(&OutputStrategy::NoTests).unwrap().content;
        assert_eq!(no_tests, "// ✂️ test module omitted\n");
        assert_eq!(parsed.strategies_data.get(&OutputStrategy::Full).unwrap().content, source);
    }
    let parsed = TypeScriptParser::new().parse(source, "src/helper.ts").unwrap();
    assert_eq!(parsed.strategies_data.get(&OutputStrategy::NoTests).unwrap().content, source);
}
