use ast_doc_core::ingestion::{GitContext, IngestionResult};
use ast_doc_core::parser::{Language, ParsedFile, StrategyData, StrategyTable};
use ast_doc_core::renderer::llms_txt::render;
use ast_doc_core::scheduler::{ScheduleResult, ScheduledFile, StrategyCounts};
use ast_doc_core::OutputStrategy;

fn make_scheduled_file(
    path: &str,
    lang: Language,
    strategy: OutputStrategy,
    content: &str,
    rendered_tokens: usize,
    saved_tokens: usize,
) -> ScheduledFile {
    let mut strategies_data = StrategyTable::new();
    strategies_data.insert(
        OutputStrategy::Full,
        StrategyData { content: content.to_string(), token_count: rendered_tokens },
    );
    strategies_data.insert(
        OutputStrategy::NoTests,
        StrategyData { content: content.to_string(), token_count: rendered_tokens },
    );
    strategies_data.insert(
        OutputStrategy::Summary,
        StrategyData { content: content.to_string(), token_count: rendered_tokens },
    );

    ScheduledFile {
        parsed: ParsedFile {
            path: path.to_string(),
            language: lang,
            source: content.to_string(),
            strategies_data,
        },
        strategy,
        rendered_tokens,
        saved_tokens,
    }
}

fn make_ingestion(directory_tree: &str, git_context: Option<GitContext>) -> IngestionResult {
    IngestionResult { files: vec![], directory_tree: directory_tree.to_string(), git_context }
}

fn make_schedule(files: Vec<ScheduledFile>) -> ScheduleResult {
    let total_tokens = files.iter().map(|f| f.rendered_tokens).sum();
    let mut strategy_counts = StrategyCounts::new();
    for f in &files {
        strategy_counts.increment(f.strategy);
    }
    ScheduleResult { total_tokens, raw_tokens: total_tokens, files, strategy_counts }
}

#[test]
fn output_contains_repository_header() {
    let scheduled = make_schedule(vec![]);
    let ingestion = make_ingestion("", None);
    let output = render(&scheduled, &ingestion, "my-project", "A cool project");

    assert!(output.contains("# Repository: my-project"), "missing repository header");
    assert!(output.contains("> A cool project"), "missing description");
}

#[test]
fn output_contains_directory_tree_section() {
    let tree = "my-project\n└── src\n    └── main.rs [Rust]";
    let file = make_scheduled_file(
        "src/main.rs",
        Language::Rust,
        OutputStrategy::Full,
        "fn main() {}",
        10,
        0,
    );
    let scheduled = make_schedule(vec![file]);
    let ingestion = make_ingestion(tree, None);
    let output = render(&scheduled, &ingestion, "my-project", "");

    assert!(output.contains("## Structure & Symbol Index"), "missing structure section");
    assert!(output.contains("### Directory Tree"), "missing directory tree header");
    assert!(output.contains("main.rs"), "missing main.rs in tree");
}

#[test]
fn output_contains_source_files_section() {
    let file = make_scheduled_file(
        "src/main.rs",
        Language::Rust,
        OutputStrategy::Full,
        "fn main() {}",
        10,
        0,
    );
    let scheduled = make_schedule(vec![file]);
    let ingestion = make_ingestion("", None);
    let output = render(&scheduled, &ingestion, "test", "");

    assert!(output.contains("## Source Files"), "missing source files section");
    assert!(output.contains("### File: src/main.rs"), "missing file header");
}

#[test]
fn each_source_file_has_strategy_annotation() {
    let file = make_scheduled_file(
        "src/lib.rs",
        Language::Rust,
        OutputStrategy::NoTests,
        "pub fn lib() {}",
        5,
        3,
    );
    let scheduled = make_schedule(vec![file]);
    let ingestion = make_ingestion("", None);
    let output = render(&scheduled, &ingestion, "test", "");

    assert!(output.contains("Strategy: NoTests"), "missing strategy annotation");
    assert!(output.contains("Tokens: 5"), "missing token count");
    assert!(output.contains("Saved: 3"), "missing saved count");
}

#[test]
fn anti_bloat_compresses_blank_lines() {
    let content = "fn main() {\n\n\n\n    println!(\"hi\");\n}\n";
    let file = make_scheduled_file(
        "src/main.rs",
        Language::Rust,
        OutputStrategy::Full,
        content,
        10,
        0,
    );
    // Inject extra blank lines into the tree to trigger compression
    let scheduled = make_schedule(vec![file]);
    let ingestion = make_ingestion("project\n\n\n\n└── src", None);
    let output = render(&scheduled, &ingestion, "test", "");

    // Should not have 3+ consecutive newlines
    assert!(!output.contains("\n\n\n"), "consecutive blank lines not compressed: {output:?}");
}

#[test]
fn anti_bloat_trims_trailing_whitespace() {
    let content = "fn main() {   \n    println!(\"hi\");   \n}\n";
    let file = make_scheduled_file(
        "src/main.rs",
        Language::Rust,
        OutputStrategy::Full,
        content,
        10,
        0,
    );
    let scheduled = make_schedule(vec![file]);
    let ingestion = make_ingestion("", None);
    let output = render(&scheduled, &ingestion, "test", "");

    for line in output.lines() {
        assert_eq!(line, line.trim_end(), "trailing whitespace found in line: {line:?}");
    }
}

#[test]
fn git_context_section_when_enabled() {
    let git = GitContext {
        branch: "main".to_string(),
        latest_commit: "abc123 feat: add feature".to_string(),
        diff: Some("M src/main.rs".to_string()),
    };
    let scheduled = make_schedule(vec![]);
    let ingestion = make_ingestion("", Some(git));
    let output = render(&scheduled, &ingestion, "test", "");

    assert!(output.contains("### Git Context"), "missing git context section");
    assert!(output.contains("**Branch**: main"), "missing branch");
    assert!(output.contains("**Latest Commit**: abc123 feat: add feature"), "missing commit");
    assert!(output.contains("**Uncommitted Changes**: M src/main.rs"), "missing diff");
}

#[test]
fn no_git_context_section_when_disabled() {
    let scheduled = make_schedule(vec![]);
    let ingestion = make_ingestion("", None);
    let output = render(&scheduled, &ingestion, "test", "");

    assert!(!output.contains("### Git Context"), "git context section should be absent");
    assert!(!output.contains("Branch"), "branch should be absent");
}

#[test]
fn strategy_content_rendered_in_code_blocks() {
    let content = "pub fn hello() {\n    println!(\"world\");\n}\n";
    let file =
        make_scheduled_file("src/lib.rs", Language::Rust, OutputStrategy::Full, content, 10, 0);
    let scheduled = make_schedule(vec![file]);
    let ingestion = make_ingestion("", None);
    let output = render(&scheduled, &ingestion, "test", "");

    assert!(output.contains("```rust"), "missing rust code fence");
    assert!(output.contains("pub fn hello()"), "missing code content");
    assert!(output.contains("```"), "missing closing code fence");
}

#[test]
fn token_counts_shown_in_file_headers() {
    let file = make_scheduled_file(
        "src/main.go",
        Language::Go,
        OutputStrategy::Summary,
        "func main()",
        3,
        7,
    );
    let scheduled = make_schedule(vec![file]);
    let ingestion = make_ingestion("", None);
    let output = render(&scheduled, &ingestion, "test", "");

    assert!(output.contains("Tokens: 3"), "missing rendered token count");
    assert!(output.contains("Saved: 7"), "missing saved token count");
    assert!(output.contains("Strategy: Summary"), "missing strategy");
}

#[test]
fn directory_tree_annotated_with_strategy() {
    let tree = "project\n└── src\n    └── main.rs [Rust]";
    let file = make_scheduled_file(
        "src/main.rs",
        Language::Rust,
        OutputStrategy::NoTests,
        "fn main() {}",
        10,
        2,
    );
    let scheduled = make_schedule(vec![file]);
    let ingestion = make_ingestion(tree, None);
    let output = render(&scheduled, &ingestion, "test", "");

    // The tree should have the strategy annotation instead of language
    assert!(output.contains("[NoTests]"), "missing strategy annotation in tree");
}

#[test]
fn multiple_files_all_rendered() {
    let files = vec![
        make_scheduled_file(
            "src/main.rs",
            Language::Rust,
            OutputStrategy::Full,
            "fn main() {}",
            10,
            0,
        ),
        make_scheduled_file(
            "src/lib.rs",
            Language::Rust,
            OutputStrategy::NoTests,
            "pub fn lib() {}",
            8,
            2,
        ),
        make_scheduled_file(
            "app.py",
            Language::Python,
            OutputStrategy::Summary,
            "def main(): ...",
            3,
            12,
        ),
    ];
    let scheduled = make_schedule(files);
    let ingestion = make_ingestion("", None);
    let output = render(&scheduled, &ingestion, "test", "");

    assert!(output.contains("### File: src/main.rs"), "missing main.rs");
    assert!(output.contains("### File: src/lib.rs"), "missing lib.rs");
    assert!(output.contains("### File: app.py"), "missing app.py");
    assert!(output.contains("Strategy: Full"), "missing Full strategy");
    assert!(output.contains("Strategy: NoTests"), "missing NoTests strategy");
    assert!(output.contains("Strategy: Summary"), "missing Summary strategy");
}

#[test]
fn code_fence_has_correct_language() {
    let py_file = make_scheduled_file(
        "app.py",
        Language::Python,
        OutputStrategy::Full,
        "print('hi')",
        5,
        0,
    );
    let go_file = make_scheduled_file(
        "main.go",
        Language::Go,
        OutputStrategy::Full,
        "package main",
        5,
        0,
    );
    let ts_file = make_scheduled_file(
        "index.ts",
        Language::TypeScript,
        OutputStrategy::Full,
        "console.log('hi')",
        5,
        0,
    );

    let scheduled = make_schedule(vec![py_file, go_file, ts_file]);
    let ingestion = make_ingestion("", None);
    let output = render(&scheduled, &ingestion, "test", "");

    assert!(output.contains("```python"), "missing python fence");
    assert!(output.contains("```go"), "missing go fence");
    assert!(output.contains("```typescript"), "missing typescript fence");
}

#[test]
fn description_blockquote_format() {
    let scheduled = make_schedule(vec![]);
    let ingestion = make_ingestion("", None);
    let output = render(&scheduled, &ingestion, "proj", "My description");

    assert!(output.contains("> My description"), "missing description blockquote");
    assert!(
        output.contains("> Note: This codebase has been optimized"),
        "missing optimization note"
    );
}

#[test]
fn tree_line_gets_strategy_of_the_file_it_names() {
    let tree = "project\n└── src\n    ├── main.rs [Rust]\n    └── domain.rs [Rust]";
    let main = make_scheduled_file(
        "src/main.rs",
        Language::Rust,
        OutputStrategy::Full,
        "fn main() {}",
        10,
        0,
    );
    let domain = make_scheduled_file(
        "src/domain.rs",
        Language::Rust,
        OutputStrategy::Summary,
        "pub struct Domain;",
        5,
        0,
    );
    let scheduled = make_schedule(vec![main, domain]);
    let ingestion = make_ingestion(tree, None);
    let output = render(&scheduled, &ingestion, "test", "");
    assert!(output.contains("    ├── main.rs [Full]\n"), "main.rs line mislabelled");
    assert!(output.contains("    └── domain.rs [Summary]\n"), "domain.rs line mislabelled");
    assert!(output.contains("└── src\n"), "directory line changed");
}

#[test]
fn tree_lines_are_labelled_by_full_path() {
    let tree = "project\n├── a\n│   └── mod.rs [Rust]\n└── b\n    └── mod.rs [Rust]";
    let a = make_scheduled_file("a/mod.rs", Language::Rust, OutputStrategy::Full, "fn a() {}", 5, 0);
    let b = make_scheduled_file("b/mod.rs", Language::Rust, OutputStrategy::Summary, "fn b() {}", 5, 0);
    let scheduled = make_schedule(vec![a, b]);
    let ingestion = make_ingestion(tree, None);
    let output = render(&scheduled, &ingestion, "test", "");
    assert!(output.contains("│   └── mod.rs [Full]\n"), "a/mod.rs mislabelled: {output}");
    assert!(output.contains("    └── mod.rs [Summary]\n"), "b/mod.rs mislabelled: {output}");
}
