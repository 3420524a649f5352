use ast_doc_core::cli::{build_config, Args, CliOutputStrategy};
use ast_doc_core::OutputStrategy;

#[test]
fn build_config_preserves_args() {
    // The arguments of `ast-doc src --max-tokens 32000 --strategy no-tests --no-git --verbose`.
    let args = Args {
        path: "src".to_string(),
        output: None,
        max_tokens: 32_000,
        core: vec![],
        strategy: CliOutputStrategy::NoTests,
        include_patterns: vec![],
        exclude: vec![],
        no_git: true,
        no_tree: false,
        copy: false,
        verbose: true,
    };

    let config = build_config(&args);
    assert_eq!(config.path, "src");
    assert_eq!(config.max_tokens, 32_000);
    assert_eq!(config.default_strategy, OutputStrategy::NoTests);
    assert!(config.no_git);
    assert!(config.verbose);
}

#[test]
fn strategy_conversion() {
    assert_eq!(OutputStrategy::from(CliOutputStrategy::Full), OutputStrategy::Full);
    assert_eq!(OutputStrategy::from(CliOutputStrategy::NoTests), OutputStrategy::NoTests);
    assert_eq!(OutputStrategy::from(CliOutputStrategy::Summary), OutputStrategy::Summary);
}
