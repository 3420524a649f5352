use ast_doc_core::ingestion::tree::build_directory_tree;

#[test]
fn test_build_directory_tree_basic() {
    let base = "/tmp/project";
    let files = vec!["src/main.rs".to_string(), "src/lib.rs".to_string(), "README.md".to_string()];

    let tree = build_directory_tree(base, &files);
    assert!(tree.contains("src"));
    assert!(tree.contains("main.rs"));
    assert!(tree.contains("lib.rs"));
    assert!(tree.contains("README.md"));
}
