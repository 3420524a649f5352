use ast_doc_core::parser::{Language, ParsedFile, StrategyData, StrategyTable};
use ast_doc_core::scheduler::optimizer::optimize;
use ast_doc_core::{AstDocConfig, AstDocError, OutputStrategy};

/// Helper: build a `ParsedFile` with given token counts for each strategy.
fn make_parsed(path: &str, full: usize, notests: usize, summary: usize) -> ParsedFile {
    let mut strategies_data = StrategyTable::new();
    strategies_data.insert(
        OutputStrategy::Full,
        StrategyData { content: String::new(), token_count: full },
    );
    strategies_data.insert(
        OutputStrategy::NoTests,
        StrategyData { content: String::new(), token_count: notests },
    );
    strategies_data.insert(
        OutputStrategy::Summary,
        StrategyData { content: String::new(), token_count: summary },
    );
    ParsedFile {
        path: path.to_string(),
        language: Language::Rust,
        source: String::new(),
        strategies_data,
    }
}

fn make_config(max_tokens: usize, core_patterns: Vec<&str>) -> AstDocConfig {
    AstDocConfig {
        path: ".".to_string(),
        output: None,
        max_tokens,
        core_patterns: core_patterns.into_iter().map(String::from).collect(),
        default_strategy: OutputStrategy::Full,
        include_patterns: vec![],
        exclude_patterns: vec![],
        no_git: true,
        no_tree: true,
        copy: false,
        verbose: false,
    }
}

#[test]
fn test_budget_larger_than_total_all_full() {
    // All files fit within budget → all get Full strategy
    let files =
        vec![make_parsed("src/a.rs", 100, 80, 50), make_parsed("src/b.rs", 200, 150, 80)];
    let config = make_config(1000, vec![]);
    let result = optimize(&files, &config, 50).unwrap();

    assert_eq!(result.total_tokens, 300);
    assert_eq!(result.strategy_counts.get(&OutputStrategy::Full), Some(2));
    for f in &result.files {
        assert_eq!(f.strategy, OutputStrategy::Full);
    }
}

#[test]
fn test_budget_forces_some_to_notests() {
    // Budget forces some files to NoTests
    // file_a: Full=500, NoTests=300, Summary=100
    // file_b: Full=500, NoTests=400, Summary=100
    // Total Full = 1000, budget = 800 (base_overhead = 0)
    // After degrading file_a (test-heavy first): 500 + 400 = 900, still over
    // After degrading file_b: 300 + 400 = 700, fits
    let files =
        vec![make_parsed("src/a.rs", 500, 300, 100), make_parsed("src/b.rs", 500, 400, 100)];
    let config = make_config(800, vec![]);
    let result = optimize(&files, &config, 0).unwrap();

    assert!(result.total_tokens <= 800);
    // At least one file should be degraded
    assert!(result.strategy_counts.get(&OutputStrategy::Full).unwrap_or(0) < 2);
}

#[test]
fn test_budget_forces_some_to_summary() {
    // Budget forces some files all the way to Summary
    let files = vec![
        make_parsed("src/a.rs", 400, 300, 50),
        make_parsed("src/b.rs", 400, 300, 50),
        make_parsed("src/c.rs", 400, 300, 50),
    ];
    // Total Full = 1200, budget = 500
    let config = make_config(500, vec![]);
    let result = optimize(&files, &config, 0).unwrap();

    assert!(result.total_tokens <= 500);
    // Some files should be at Summary
    assert!(result.strategy_counts.get(&OutputStrategy::Summary).unwrap_or(0) > 0);
}

#[test]
fn test_core_files_never_degrade() {
    // Core files should always get Full strategy
    let files = vec![
        make_parsed("src/lib.rs", 500, 300, 100),
        make_parsed("src/utils.rs", 500, 300, 100),
    ];
    let config = make_config(600, vec!["src/lib.rs"]);
    let result = optimize(&files, &config, 0).unwrap();

    let lib_file =
        result.files.iter().find(|f| f.parsed.path == "src/lib.rs").unwrap();
    assert_eq!(lib_file.strategy, OutputStrategy::Full);

    // utils.rs should be degraded since budget is tight
    let utils_file =
        result.files.iter().find(|f| f.parsed.path == "src/utils.rs").unwrap();
    assert_ne!(utils_file.strategy, OutputStrategy::Full);
}

#[test]
fn test_base_overhead_exceeds_budget() {
    let files = vec![make_parsed("src/a.rs", 100, 80, 50)];
    let config = make_config(100, vec![]);
    let result = optimize(&files, &config, 100);
    assert!(matches!(result, Err(AstDocError::BudgetExceeded { .. })));
}

#[test]
fn test_all_summary_still_over_budget() {
    // Even at Summary, still over budget → BudgetExceeded
    let files =
        vec![make_parsed("src/a.rs", 400, 300, 200), make_parsed("src/b.rs", 400, 300, 200)];
    // Summary total = 400, budget = 300
    let config = make_config(300, vec![]);
    let result = optimize(&files, &config, 0);
    assert!(matches!(result, Err(AstDocError::BudgetExceeded { .. })));
}

#[test]
fn test_single_file() {
    let files = vec![make_parsed("src/main.rs", 500, 300, 100)];
    let config = make_config(400, vec![]);
    let result = optimize(&files, &config, 0).unwrap();

    assert_eq!(result.files.len(), 1);
    assert!(result.total_tokens <= 400);
    // Should be degraded to NoTests (300 <= 400)
    assert_eq!(result.files[0].strategy, OutputStrategy::NoTests);
}

#[test]
fn test_all_core_nothing_to_degrade() {
    // All files are core, but they fit in budget
    let files =
        vec![make_parsed("src/lib.rs", 200, 150, 50), make_parsed("src/core.rs", 200, 150, 50)];
    let config = make_config(1000, vec!["**/*.rs"]);
    let result = optimize(&files, &config, 0).unwrap();

    for f in &result.files {
        assert_eq!(f.strategy, OutputStrategy::Full);
    }
}

#[test]
fn test_all_core_over_budget_errors() {
    // All files are core, over budget → error
    let files = vec![
        make_parsed("src/lib.rs", 500, 400, 300),
        make_parsed("src/core.rs", 500, 400, 300),
    ];
    let config = make_config(500, vec!["**/*.rs"]);
    let result = optimize(&files, &config, 0);
    assert!(matches!(result, Err(AstDocError::BudgetExceeded { .. })));
}

#[test]
fn test_empty_files() {
    let files: Vec<ParsedFile> = vec![];
    let config = make_config(1000, vec![]);
    let result = optimize(&files, &config, 0).unwrap();

    assert_eq!(result.total_tokens, 0);
    assert_eq!(result.raw_tokens, 0);
    assert!(result.files.is_empty());
}

#[test]
fn test_base_overhead_deducted_from_budget() {
    let files = vec![make_parsed("src/a.rs", 300, 200, 100)];
    // max_tokens = 400, base_overhead = 200, remaining = 200
    // Full = 300 > 200, so must degrade to NoTests (200)
    let config = make_config(400, vec![]);
    let result = optimize(&files, &config, 200).unwrap();

    assert_eq!(result.files[0].strategy, OutputStrategy::NoTests);
    assert_eq!(result.total_tokens, 200);
}

#[test]
fn test_saved_tokens_computed_correctly() {
    let files = vec![make_parsed("src/a.rs", 500, 300, 100)];
    let config = make_config(400, vec![]);
    let result = optimize(&files, &config, 0).unwrap();

    assert_eq!(result.files[0].saved_tokens, 200); // 500 - 300
}

#[test]
fn test_raw_tokens_is_sum_of_full() {
    let files =
        vec![make_parsed("src/a.rs", 100, 80, 50), make_parsed("src/b.rs", 200, 150, 80)];
    let config = make_config(1000, vec![]);
    let result = optimize(&files, &config, 0).unwrap();

    assert_eq!(result.raw_tokens, 300);
}

#[test]
fn summary_without_saving_skips_to_next_file() {
    // a.rs saves nothing at Summary after NoTests; the loop goes on to b.rs,
    // and both at Summary (300 + 100) fit the budget.
    let files =
        vec![make_parsed("src/a.rs", 500, 300, 300), make_parsed("src/b.rs", 400, 400, 100)];
    let config = make_config(500, vec![]);
    let result = optimize(&files, &config, 0).unwrap();
    assert_eq!(result.total_tokens, 400);
    assert_eq!(result.files[0].strategy, OutputStrategy::Summary);
    assert_eq!(result.files[1].strategy, OutputStrategy::Summary);
}

#[test]
fn overflowing_totals_are_reported() {
    let files = vec![
        make_parsed("src/a.rs", usize::MAX, 1, 1),
        make_parsed("src/b.rs", 1, 1, 1),
    ];
    let config = make_config(10, vec![]);
    match optimize(&files, &config, 0) {
        Err(AstDocError::BudgetExceeded { message }) => {
            assert_eq!(message, "Token counts exceed the representable range")
        },
        other => panic!("unexpected result: {other:?}"),
    }
}

#[test]
fn large_unused_variants_do_not_overflow() {
    // Only the Full totals are computed; the huge NoTests counts are never summed.
    let files = vec![
        make_parsed("src/a.rs", 10, usize::MAX, 5),
        make_parsed("src/b.rs", 10, usize::MAX, 5),
    ];
    let config = make_config(100, vec![]);
    let result = optimize(&files, &config, 0).unwrap();
    assert_eq!(result.total_tokens, 20);
}

/// A small deterministic generator standing in for random test inputs.
struct Lcg(u64);

impl Lcg {
    fn next(&mut self, bound: usize) -> usize {
        self.0 = self.0.wrapping_mul(6364136223846793005).wrapping_add(1442695040888963407);
        ((self.0 >> 33) as usize) % bound.max(1)
    }
}

fn random_files(rng: &mut Lcg) -> Vec<ParsedFile> {
    let n = 1 + rng.next(9);
    (0..n)
        .map(|i| {
            let full = 1 + rng.next(9_999);
            let notests = full.saturating_sub(rng.next(full));
            let summary = notests.saturating_sub(rng.next(full));
            let name = if rng.next(3) == 0 { format!("src/core{i}.rs") } else { format!("src/f{i}.rs") };
            make_parsed(&name, full, notests, summary)
        })
        .collect()
}

#[test]
fn budget_invariant() {
    let mut rng = Lcg(7);
    for _ in 0..300 {
        let files = random_files(&mut rng);
        let max_tokens = 50 + rng.next(19_950);
        match optimize(&files, &make_config(max_tokens, vec![]), 0) {
            Ok(result) => assert!(result.total_tokens <= max_tokens),
            Err(AstDocError::BudgetExceeded { .. }) => {
                // With shrinking variants this happens only when the minimum exceeds the budget.
                let minimum: usize = files
                    .iter()
                    .map(|f| f.strategies_data.get(&OutputStrategy::Summary).unwrap().token_count)
                    .sum();
                assert!(minimum > max_tokens);
            },
            Err(e) => panic!("unexpected error: {e:?}"),
        }
    }
}

#[test]
fn core_files_always_full() {
    let mut rng = Lcg(11);
    for _ in 0..300 {
        let files = random_files(&mut rng);
        let max_tokens = 50 + rng.next(19_950);
        if let Ok(result) = optimize(&files, &make_config(max_tokens, vec!["src/core*.rs"]), 0) {
            for f in &result.files {
                if f.parsed.path.starts_with("src/core") {
                    assert_eq!(f.strategy, OutputStrategy::Full);
                }
            }
        }
    }
}
