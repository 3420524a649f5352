use ast_doc_core::ingestion::git::{GitContextProvider, MockGitContext};

#[test]
fn test_mock_git_context() {
    let mock = MockGitContext::new(
        "main",
        "abc1234 feat: add feature",
        Some("diff --git a/file.rs b/file.rs\n+added line"),
    );

    assert_eq!(mock.get_branch().unwrap(), "main");
    assert_eq!(mock.get_latest_commit().unwrap(), "abc1234 feat: add feature");
    assert!(mock.get_diff().unwrap().is_some());

    let ctx = mock.extract().unwrap();
    assert_eq!(ctx.branch, "main");
    assert_eq!(ctx.latest_commit, "abc1234 feat: add feature");
}

#[test]
fn test_mock_git_context_clean() {
    let mock = MockGitContext::new("develop", "def5678 fix: bug fix", None);

    assert_eq!(mock.get_branch().unwrap(), "develop");
    assert!(mock.get_diff().unwrap().is_none());

    let ctx = mock.extract().unwrap();
    assert!(ctx.diff.is_none());
}
