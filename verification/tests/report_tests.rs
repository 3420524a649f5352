use ast_doc_core::parser::StrategyTable;
use ast_doc_core::report::{format_report_with, strategy_totals_fit_check};
use ast_doc_core::scheduler::StrategyCounts;
use ast_doc_core::{Language, OutputStrategy, ParsedFile, ScheduleResult, ScheduledFile};

/// The report as the command line prints it: the savings percentage, with one
/// decimal, is formatted by the host and handed to the library.
fn format_report(result: &ScheduleResult, max_tokens: usize) -> String {
    let savings_pct = if result.raw_tokens > 0 {
        (result.raw_tokens.saturating_sub(result.total_tokens) as f64 / result.raw_tokens as f64)
            * 100.0
    } else {
        0.0
    };
    assert!(strategy_totals_fit_check(&result.files));
    format_report_with(result, max_tokens, &format!("{savings_pct:.1}"))
}

fn make_schedule_result(
    files: Vec<ScheduledFile>,
    raw_tokens: usize,
    total_tokens: usize,
    strategy_counts: StrategyCounts,
) -> ScheduleResult {
    ScheduleResult { files, total_tokens, raw_tokens, strategy_counts }
}

fn scheduled(path: &str, strategy: OutputStrategy, rendered: usize, saved: usize) -> ScheduledFile {
    ScheduledFile {
        parsed: ParsedFile {
            path: path.to_string(),
            language: Language::Rust,
            source: String::new(),
            strategies_data: StrategyTable::new(),
        },
        strategy,
        rendered_tokens: rendered,
        saved_tokens: saved,
    }
}

#[test]
fn test_empty_report() {
    let result = make_schedule_result(vec![], 0, 0, StrategyCounts::new());
    let report = format_report(&result, 1000);
    assert!(report.contains("Total files: 0"));
    assert!(report.contains("Raw tokens: 0"));
    assert!(report.contains("Savings: 0.0%"));
    assert!(report.contains("\u{1f7e2} within budget"));
}

#[test]
fn test_all_full_within_budget() {
    let mut strategy_counts = StrategyCounts::new();
    strategy_counts.insert(OutputStrategy::Full, 2);

    let files = vec![
        scheduled("src/a.rs", OutputStrategy::Full, 100, 0),
        scheduled("src/b.rs", OutputStrategy::Full, 200, 0),
    ];

    let result = make_schedule_result(files, 300, 300, strategy_counts);
    let report = format_report(&result, 1000);

    assert!(report.contains("Total files: 2"));
    assert!(report.contains("Raw tokens: 300"));
    assert!(report.contains("Final tokens: 300"));
    assert!(report.contains("Savings: 0.0%"));
    assert!(report.contains("Full:     2 files (300 tokens)"));
    assert!(report.contains("NoTests:     0 files (0 tokens)"));
    assert!(report.contains("\u{1f7e2} within budget"));
}

#[test]
fn test_mixed_strategies_with_savings() {
    let mut strategy_counts = StrategyCounts::new();
    strategy_counts.insert(OutputStrategy::Full, 1);
    strategy_counts.insert(OutputStrategy::NoTests, 1);
    strategy_counts.insert(OutputStrategy::Summary, 1);

    let files = vec![
        scheduled("src/a.rs", OutputStrategy::Full, 500, 0),
        scheduled("src/b.rs", OutputStrategy::NoTests, 300, 200),
        scheduled("src/c.rs", OutputStrategy::Summary, 100, 400),
    ];

    // raw_tokens = 500+500+500 = 1500 (all at Full)
    // total_tokens = 500+300+100 = 900
    let result = make_schedule_result(files, 1500, 900, strategy_counts);
    let report = format_report(&result, 1000);

    assert!(report.contains("Total files: 3"));
    assert!(report.contains("Raw tokens: 1500"));
    assert!(report.contains("Final tokens: 900"));
    assert!(report.contains("Savings: 40.0%"));
    assert!(report.contains("Full:     1 files (500 tokens)"));
    assert!(report.contains("NoTests:     1 files (300 tokens)"));
    assert!(report.contains("Summary:     1 files (100 tokens)"));
    assert!(report.contains("\u{1f7e2} within budget"));
}

#[test]
fn test_budget_exceeded() {
    let mut strategy_counts = StrategyCounts::new();
    strategy_counts.insert(OutputStrategy::Summary, 2);

    let files = vec![
        scheduled("src/a.rs", OutputStrategy::Summary, 300, 200),
        scheduled("src/b.rs", OutputStrategy::Summary, 300, 200),
    ];

    let result = make_schedule_result(files, 1000, 600, strategy_counts);
    let report = format_report(&result, 500);

    assert!(report.contains("\u{1f534} exceeded"));
    assert!(report.contains("(600/500 tokens)"));
}

#[test]
fn test_report_header_format() {
    let result = make_schedule_result(vec![], 0, 0, StrategyCounts::new());
    let report = format_report(&result, 1000);

    let lines: Vec<&str> = report.lines().collect();
    assert_eq!(lines[0], "\u{1f4ca} Optimization Report");
    assert!(lines[1].starts_with('\u{2500}'));
}
