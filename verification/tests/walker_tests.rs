use ast_doc_core::ingestion::walker::{build_globset, should_include_file};

#[test]
fn test_should_include_file_include_empty() {
    let inclusions = build_globset(&[]).unwrap();
    let exclude = build_globset(&["*.txt".to_string()]).unwrap();

    assert!(should_include_file("foo.rs", &inclusions, &exclude));
    assert!(!should_include_file("foo.txt", &inclusions, &exclude));
}

#[test]
fn test_should_include_file_exclude_wins() {
    let inclusions = build_globset(&["*.rs".to_string()]).unwrap();
    let exclude = build_globset(&["*.rs".to_string()]).unwrap();

    // exclude wins over include
    assert!(!should_include_file("foo.rs", &inclusions, &exclude));
}

#[test]
fn test_should_include_file_non_matching_include() {
    let inclusions = build_globset(&["*.py".to_string()]).unwrap();
    let exclude = build_globset(&[]).unwrap();

    assert!(!should_include_file("foo.rs", &inclusions, &exclude));
    assert!(should_include_file("foo.py", &inclusions, &exclude));
}

#[test]
fn test_build_globset_invalid_pattern() {
    let result = build_globset(&["[".to_string()]);
    assert!(result.is_err());
}
