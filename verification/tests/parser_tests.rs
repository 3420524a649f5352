use ast_doc_core::ingestion::DiscoveredFile;
use ast_doc_core::parser::{detect_language, parse_file, Language};
use ast_doc_core::OutputStrategy;

#[test]
fn test_detect_language_rust() {
    assert_eq!(detect_language("main.rs"), Some(Language::Rust));
}

#[test]
fn test_detect_language_python() {
    assert_eq!(detect_language("app.py"), Some(Language::Python));
}

#[test]
fn test_detect_language_typescript() {
    assert_eq!(detect_language("index.ts"), Some(Language::TypeScript));
    assert_eq!(detect_language("app.tsx"), Some(Language::TypeScript));
    assert_eq!(detect_language("script.js"), Some(Language::TypeScript));
}

#[test]
fn test_detect_language_go() {
    assert_eq!(detect_language("main.go"), Some(Language::Go));
}

#[test]
fn test_detect_language_c() {
    assert_eq!(detect_language("main.c"), Some(Language::C));
    assert_eq!(detect_language("header.h"), Some(Language::C));
}

#[test]
fn test_detect_language_unknown() {
    assert_eq!(detect_language("readme.md"), None);
    assert_eq!(detect_language("data.json"), None);
}

#[test]
fn test_language_display_generic() {
    assert_eq!(Language::Generic("java".to_string()).display_name(), "java");
}

#[test]
fn test_language_is_core() {
    assert!(Language::Rust.is_core());
    assert!(Language::Python.is_core());
    assert!(!Language::Generic("java".to_string()).is_core());
}

#[test]
fn test_language_ts_pack_name() {
    assert_eq!(Language::Rust.ts_pack_name(), "rust");
    assert_eq!(Language::Python.ts_pack_name(), "python");
    assert_eq!(Language::Generic("java".to_string()).ts_pack_name(), "java");
}

#[test]
fn test_parse_file_rust() {
    let file = DiscoveredFile {
        path: "src/main.rs".to_string(),
        content: "fn main() {\n    println!(\"hello\");\n}\n".to_string(),
        language: Some(Language::Rust),
        raw_token_count: 10,
    };
    let result = parse_file(&file, &Language::Rust).unwrap();
    assert_eq!(result.language, Language::Rust);
    assert!(result.strategies_data.contains_key(&OutputStrategy::Full));
    assert!(result.strategies_data.contains_key(&OutputStrategy::NoTests));
    assert!(result.strategies_data.contains_key(&OutputStrategy::Summary));
}
