use ast_doc_core::cli::{build_config, Args, CliOutputStrategy};
use ast_doc_core::ingestion::git::{finish_diff, GitContextProvider, MockGitContext, MAX_DIFF_SIZE};
use ast_doc_core::ingestion::tree::build_directory_tree;
use ast_doc_core::ingestion::walker::{build_globset, select_files};
use ast_doc_core::ingestion::{assemble_ingestion, discover_file, GitContext, IngestionResult};
use ast_doc_core::parser::lang::c_parser::CParser;
use ast_doc_core::parser::lang::generic_parser::{GenericParser, StructureEntry, StructureKind};
use ast_doc_core::parser::lang::go_parser::GoParser;
use ast_doc_core::parser::lang::python_parser::PythonParser;
use ast_doc_core::parser::lang::rust_parser::RustParser;
use ast_doc_core::parser::lang::typescript_parser::TypeScriptParser;
use ast_doc_core::parser::syntax::{SyntaxFailure, SyntaxNode};
use ast_doc_core::parser::{detect_language, pack_language, parse_file, Language, LanguageParser};
use ast_doc_core::paths::{components, extension, file_name};
use ast_doc_core::renderer::{project_name, render_llms_txt};
use ast_doc_core::scheduler::run_scheduler;
use ast_doc_core::tokens::compute_token_count;
use ast_doc_core::{
    compute_base_overhead, run_stages, AstDocConfig, AstDocError, DiscoveredFile, OutputStrategy,
    ParsedFile, StrategyData,
};
use ast_doc_core::parser::StrategyTable;
use ast_doc_core::report::{format_report_with, strategy_totals_fit_check};
use ast_doc_core::scheduler::StrategyCounts;

fn config(max_tokens: usize, core: Vec<&str>, default_strategy: OutputStrategy) -> AstDocConfig {
    AstDocConfig {
        path: ".".to_string(),
        output: None,
        max_tokens,
        core_patterns: core.into_iter().map(String::from).collect(),
        default_strategy,
        include_patterns: vec![],
        exclude_patterns: vec![],
        no_git: true,
        no_tree: true,
        copy: false,
        verbose: false,
    }
}

fn parsed(path: &str, full: usize, notests: usize, summary: usize) -> ParsedFile {
    let mut table = StrategyTable::new();
    table.insert(OutputStrategy::Full, StrategyData { content: "full".to_string(), token_count: full });
    table.insert(
        OutputStrategy::NoTests,
        StrategyData { content: "notests".to_string(), token_count: notests },
    );
    table.insert(
        OutputStrategy::Summary,
        StrategyData { content: "summary".to_string(), token_count: summary },
    );
    ParsedFile {
        path: path.to_string(),
        language: Language::Rust,
        source: String::new(),
        strategies_data: table,
    }
}

fn content(p: &ParsedFile, s: OutputStrategy) -> String {
    p.strategies_data.get(&s).unwrap().content.clone()
}

// ---- degradation order ----

#[test]
fn degrade_steps_full_notests_summary_then_stops() {
    assert_eq!(OutputStrategy::Full.degrade(), Some(OutputStrategy::NoTests));
    assert_eq!(OutputStrategy::NoTests.degrade(), Some(OutputStrategy::Summary));
    assert_eq!(OutputStrategy::Summary.degrade(), None);
    assert_eq!(OutputStrategy::NoTests.as_str(), "NoTests");
}

// ---- scheduler laws on concrete values ----

#[test]
fn scheduler_result_fits_budget_after_overhead() {
    let files = vec![parsed("a.rs", 500, 300, 100), parsed("b.rs", 400, 400, 50)];
    let result = run_scheduler(&files, &config(700, vec![], OutputStrategy::Full), 100).unwrap();
    assert!(result.total_tokens + 100 <= 700);
    assert_eq!(result.raw_tokens, 900);
}

#[test]
fn scheduler_keeps_core_files_full() {
    let files = vec![parsed("src/core.rs", 500, 300, 100), parsed("src/other.rs", 500, 300, 100)];
    let result =
        run_scheduler(&files, &config(700, vec!["src/core.rs"], OutputStrategy::Full), 0).unwrap();
    assert_eq!(result.files[0].strategy, OutputStrategy::Full);
    assert_eq!(result.files[1].strategy, OutputStrategy::Summary);
    assert_eq!(result.total_tokens, 600);
    assert_eq!(result.files[1].saved_tokens, 400);
}

#[test]
fn scheduler_never_raises_above_default_strategy() {
    let files = vec![parsed("a.rs", 100, 80, 10)];
    let result = run_scheduler(&files, &config(10_000, vec![], OutputStrategy::Summary), 0).unwrap();
    assert_eq!(result.files[0].strategy, OutputStrategy::Summary);
    assert_eq!(result.total_tokens, 10);
}

#[test]
fn scheduler_reports_overflowing_token_counts() {
    let files = vec![parsed("a.rs", usize::MAX, 1, 1), parsed("b.rs", 1, 1, 1)];
    let result = run_scheduler(&files, &config(10, vec![], OutputStrategy::Full), 0);
    assert!(matches!(result, Err(AstDocError::BudgetExceeded { .. })));
    // A single huge variant whose sum is never overflowed is degraded as usual.
    let files = vec![parsed("a.rs", usize::MAX, 1, 1)];
    let result = run_scheduler(&files, &config(10, vec![], OutputStrategy::Full), 0).unwrap();
    assert_eq!(result.total_tokens, 1);
}

#[test]
fn scheduler_invalid_core_pattern_is_invalid_glob() {
    let files = vec![parsed("a.rs", 1, 1, 1)];
    let result = run_scheduler(&files, &config(10, vec!["["], OutputStrategy::Full), 0);
    assert!(matches!(result, Err(AstDocError::InvalidGlob(_))));
}

// ---- paths ----

#[test]
fn paths_follow_std_path_rules() {
    assert_eq!(file_name("src/main.rs").as_deref(), Some("main.rs"));
    assert_eq!(file_name("src/").as_deref(), Some("src"));
    assert_eq!(file_name("a/.."), None);
    assert_eq!(file_name("/"), None);
    assert_eq!(extension("archive.tar.gz").as_deref(), Some("gz"));
    assert_eq!(extension(".gitignore"), None);
    assert_eq!(extension("noext"), None);
    assert_eq!(extension("trailing."), Some(String::new()));
    assert_eq!(components("./a//b/./c"), vec![".", "a", "b", "c"]);
    assert_eq!(components("/usr/lib"), vec!["/", "usr", "lib"]);
    assert_eq!(project_name("/home/me/project"), "project");
    assert_eq!(project_name(".."), "unknown");
}

#[test]
fn detect_language_uses_final_extension_only() {
    assert_eq!(detect_language("dir.rs/readme"), None);
    assert_eq!(detect_language("lib/x.jsx"), Some(Language::TypeScript));
    assert_eq!(detect_language(".rs"), None);
    assert_eq!(detect_language("a.RS"), None);
}

#[test]
fn pack_language_skips_core_names_and_missing_grammars() {
    assert_eq!(pack_language("rust", true), None);
    assert_eq!(pack_language("javascript", true), None);
    assert_eq!(pack_language("java", false), None);
    assert_eq!(pack_language("java", true), Some(Language::Generic("java".to_string())));
}

// ---- parsers ----

#[test]
fn rust_test_function_removal_includes_its_attribute() {
    let source = "fn keep() {}\n\n#[test]\nfn check() {}\n";
    let parsed = RustParser::new().parse(source, "lib.rs").unwrap();
    assert_eq!(content(&parsed, OutputStrategy::NoTests), "fn keep() {}\n\n// ✂️ test module omitted\n\n");
}

#[test]
fn rust_summary_replaces_function_body() {
    let source = "fn f() { 1 }\n";
    let parsed = RustParser::new().parse(source, "lib.rs").unwrap();
    assert_eq!(content(&parsed, OutputStrategy::Summary), "fn f() // ✂️ implementations omitted\n");
}

#[test]
fn rust_parse_syntax_reports_grammar_and_tree_failures() {
    let parser = RustParser::new();
    match parser.parse_syntax("fn x() {}", "x.rs", Err(SyntaxFailure::Grammar("bad version".to_string()))) {
        Err(AstDocError::Parse { path, message }) => {
            assert_eq!(path, "<inline>");
            assert_eq!(message, "Failed to set Rust language: bad version");
        }
        other => panic!("unexpected {other:?}"),
    }
    match parser.parse_syntax("fn x() {}", "x.rs", Err(SyntaxFailure::NoTree)) {
        Err(AstDocError::Parse { message, .. }) => assert_eq!(message, "Failed to parse Rust source"),
        other => panic!("unexpected {other:?}"),
    }
}

#[test]
fn rust_parse_syntax_rejects_ranges_outside_the_source() {
    let nodes = vec![SyntaxNode { kind: "source_file".to_string(), start_byte: 0, end_byte: 99, depth: 0 }];
    match RustParser::new().parse_syntax("fn x() {}", "x.rs", Ok(nodes)) {
        Err(AstDocError::Parse { path, message }) => {
            assert_eq!(path, "x.rs");
            assert_eq!(message, "syntax tree does not fit the source");
        }
        other => panic!("unexpected {other:?}"),
    }
}

#[test]
fn rust_parse_tree_walks_a_given_tree() {
    // `fn f() {}` as a tree: the function's block is cut in Summary mode.
    let source = "fn f() {}";
    let nodes = vec![
        SyntaxNode { kind: "source_file".to_string(), start_byte: 0, end_byte: 9, depth: 0 },
        SyntaxNode { kind: "function_item".to_string(), start_byte: 0, end_byte: 9, depth: 1 },
        SyntaxNode { kind: "identifier".to_string(), start_byte: 3, end_byte: 4, depth: 2 },
        SyntaxNode { kind: "block".to_string(), start_byte: 7, end_byte: 9, depth: 2 },
    ];
    let parsed = RustParser::new().parse_tree(source, "f.rs", &nodes);
    assert_eq!(content(&parsed, OutputStrategy::Summary), "fn f() // ✂️ implementations omitted");
    assert_eq!(content(&parsed, OutputStrategy::NoTests), source);
}

#[test]
fn python_test_class_and_pytest_fixture_are_removed() {
    let source = "def keep():\n    pass\n\nclass TestX:\n    pass\n";
    let parsed = PythonParser::new().parse(source, "t.py").unwrap();
    let no_tests = content(&parsed, OutputStrategy::NoTests);
    assert!(no_tests.contains("def keep"));
    assert!(!no_tests.contains("TestX"));
}

#[test]
fn typescript_member_test_calls_are_removed() {
    let source = "const x = 1;\nit.only('works', () => {});\n";
    let parsed = TypeScriptParser::new().parse(source, "t.ts").unwrap();
    let no_tests = content(&parsed, OutputStrategy::NoTests);
    assert!(no_tests.contains("const x = 1;"));
    assert!(!no_tests.contains("it.only"));
}

#[test]
fn go_test_file_is_one_test_range() {
    let source = "package main\n\nfunc Helper() {}\n";
    let parsed = GoParser::new().parse(source, "pkg/helper_test.go").unwrap();
    assert_eq!(content(&parsed, OutputStrategy::NoTests), "// ✂️ test module omitted\n");
    assert_eq!(content(&parsed, OutputStrategy::Summary), "// ✂️ test module omitted\n");
}

#[test]
fn c_no_tests_keeps_whole_source() {
    let source = "int f(void) { return 1; }\nint g(void) { return 2; }\n";
    let parsed = CParser::new().parse(source, "x.c").unwrap();
    assert_eq!(content(&parsed, OutputStrategy::NoTests), source);
    assert_eq!(
        content(&parsed, OutputStrategy::Summary),
        "int f(void) // ✂️ implementations omitted\nint g(void) // ✂️ implementations omitted\n"
    );
}

#[test]
fn token_counts_are_those_of_each_variant() {
    let source = "def a():\n    return 1\n";
    let parsed = PythonParser::new().parse(source, "a.py").unwrap();
    for s in [OutputStrategy::Full, OutputStrategy::NoTests, OutputStrategy::Summary] {
        let data = parsed.strategies_data.get(&s).unwrap();
        assert_eq!(data.token_count, compute_token_count(&data.content));
    }
    assert!(compute_token_count("hello world") > 0);
}

#[test]
fn parse_file_generic_language_is_unsupported() {
    let file = DiscoveredFile {
        path: "Main.java".to_string(),
        content: "class Main {}".to_string(),
        language: Some(Language::Generic("java".to_string())),
        raw_token_count: 3,
    };
    match parse_file(&file, &Language::Generic("java".to_string())) {
        Err(AstDocError::UnsupportedLanguage { language }) => assert_eq!(language, "java"),
        other => panic!("unexpected {other:?}"),
    }
}

#[test]
fn generic_parser_cuts_test_items_and_function_bodies() {
    let source = "fn keep(a: Vec<u8>) {\n  body();\n}\nfn test_it() {}\n";
    let keep_end = source.find("}\n").unwrap() + 1;
    let test_start = source.find("fn test_it").unwrap();
    let structure = vec![
        StructureEntry { kind: StructureKind::Function, name: Some("keep".to_string()), start_byte: 0, end_byte: keep_end },
        StructureEntry { kind: StructureKind::Function, name: Some("test_it".to_string()), start_byte: test_start, end_byte: source.len() - 1 },
    ];
    let parser = GenericParser::new("rust");
    let parsed = parser.parse_structure(source, "a.rs", &structure).unwrap();
    assert_eq!(parsed.language, Language::Generic("rust".to_string()));
    assert_eq!(content(&parsed, OutputStrategy::Summary), "fn keep(a: Vec<u8>) // ✂️ implementations omitted\n// ✂️ test module omitted\n\n");
    assert_eq!(content(&parsed, OutputStrategy::NoTests), "fn keep(a: Vec<u8>) {\n  body();\n}\n// ✂️ test module omitted\n\n");
    match parser.process_error("a.rs", "boom") {
        AstDocError::Parse { message, .. } => assert_eq!(message, "Failed to process rust source: boom"),
        other => panic!("unexpected {other:?}"),
    }
}

// ---- ingestion ----

#[test]
fn select_files_filters_and_sorts_in_path_order() {
    let inclusions = build_globset(&["*.rs".to_string(), "*.md".to_string()]).unwrap();
    let exclusions = build_globset(&["target/*".to_string()]).unwrap();
    let candidates = vec![
        "src/z.rs".to_string(),
        "a.b.rs".to_string(),
        "target/x.rs".to_string(),
        "a/b.rs".to_string(),
        "notes.txt".to_string(),
        "README.md".to_string(),
    ];
    let files = select_files(&candidates, &inclusions, &exclusions);
    assert_eq!(files, vec!["README.md", "a/b.rs", "a.b.rs", "src/z.rs"]);
}

#[test]
fn directory_tree_nests_directories_and_tags_languages() {
    let files = vec!["src/main.rs".to_string(), "src/util/mod.rs".to_string(), "README.md".to_string()];
    let tree = build_directory_tree("/work/project", &files);
    assert!(tree.starts_with("project\n"));
    assert!(tree.contains("main.rs [Rust]"));
    assert!(tree.contains("mod.rs [Rust]"));
    assert!(tree.contains("README.md\n"));
    assert_eq!(tree.matches("src").count(), 1);
    assert!(tree.contains("├──") || tree.contains("└──"));
}

#[test]
fn assemble_ingestion_skips_unreadable_files() {
    let paths = vec!["a.rs".to_string(), "b.py".to_string()];
    let contents = vec![None, Some("x = 1\n".to_string())];
    let result = assemble_ingestion("/p", &paths, &contents, true, None);
    assert_eq!(result.files.len(), 1);
    assert_eq!(result.files[0].path, "b.py");
    assert_eq!(result.files[0].language, Some(Language::Python));
    assert_eq!(result.directory_tree, "");
    let file = discover_file("x.go", "package x\n");
    assert_eq!(file.raw_token_count, compute_token_count("package x\n"));
}

#[test]
fn finish_diff_truncates_long_diffs() {
    assert_eq!(finish_diff(""), None);
    assert_eq!(finish_diff("+a").as_deref(), Some("+a"));
    let long = "x".repeat(MAX_DIFF_SIZE + 5);
    let kept = finish_diff(&long).unwrap();
    assert_eq!(kept.len(), MAX_DIFF_SIZE + "...[truncated]".len());
    assert!(kept.ends_with("...[truncated]"));
}

#[test]
fn mock_git_context_extract_gives_its_answers() {
    let mock = MockGitContext::new("dev", "123 msg", Some("+x"));
    let ctx = mock.extract().unwrap();
    assert_eq!(ctx.branch, "dev");
    assert_eq!(ctx.latest_commit, "123 msg");
    assert_eq!(ctx.diff.as_deref(), Some("+x"));
}

// ---- pipeline ----

#[test]
fn base_overhead_counts_tree_and_git_context() {
    let git = GitContext { branch: "main".to_string(), latest_commit: "abc fix".to_string(), diff: None };
    let ingestion = IngestionResult { files: vec![], directory_tree: "proj".to_string(), git_context: Some(git) };
    let expected = compute_token_count("proj") + compute_token_count("main") + compute_token_count("abc fix");
    assert_eq!(compute_base_overhead(&ingestion), Some(expected));
}

#[test]
fn run_stages_parses_schedules_and_renders() {
    let files = vec![discover_file("src/lib.rs", "pub fn one() -> i32 {\n    1\n}\n")];
    let ingestion = IngestionResult { files, directory_tree: String::new(), git_context: None };
    let cfg = config(10_000, vec![], OutputStrategy::Full);
    let result = run_stages(&cfg, &ingestion, "/x/demo").unwrap();
    assert!(result.output.starts_with("# Repository: demo\n"));
    assert!(result.output.contains("### File: src/lib.rs"));
    assert_eq!(result.schedule.files.len(), 1);
    assert_eq!(result.output, render_llms_txt(&result.schedule, &ingestion, "/x/demo"));
}

#[test]
fn build_config_converts_every_strategy() {
    for (cli, core) in [
        (CliOutputStrategy::Full, OutputStrategy::Full),
        (CliOutputStrategy::NoTests, OutputStrategy::NoTests),
        (CliOutputStrategy::Summary, OutputStrategy::Summary),
    ] {
        let args = Args {
            path: "p".to_string(),
            output: Some("o.txt".to_string()),
            max_tokens: 7,
            core: vec!["c".to_string()],
            strategy: cli,
            include_patterns: vec!["*.rs".to_string()],
            exclude: vec!["*.md".to_string()],
            no_git: false,
            no_tree: true,
            copy: true,
            verbose: false,
        };
        let cfg = build_config(&args);
        assert_eq!(cfg.default_strategy, core);
        assert_eq!(cfg.output.as_deref(), Some("o.txt"));
        assert_eq!(cfg.core_patterns, vec!["c"]);
        assert_eq!(cfg.include_patterns, vec!["*.rs"]);
        assert!(cfg.no_tree && cfg.copy && !cfg.no_git);
    }
}

fn is_subsequence(source: &str, candidate: &str) -> bool {
    let mut rest = source.chars();
    candidate.chars().all(|c| rest.any(|s| s == c))
}

#[test]
fn variants_without_markers_are_subsequences_of_the_source() {
    let source = "pub fn a() -> i32 {\n    1\n}\n\n#[cfg(test)]\nmod tests {\n    #[test]\n    fn t() {}\n}\n\nimpl X {\n    fn b(&self) {}\n}\n";
    let parsed = RustParser::new().parse(source, "lib.rs").unwrap();
    for s in [OutputStrategy::Full, OutputStrategy::NoTests, OutputStrategy::Summary] {
        let text = content(&parsed, s)
            .replace("// ✂️ test module omitted\n", "")
            .replace("// ✂️ implementations omitted", "");
        assert!(is_subsequence(source, &text), "{s:?}: {text:?}");
    }
}

// ---- report ----

fn scheduled(path: &str, strategy: OutputStrategy, rendered: usize, saved: usize) -> ast_doc_core::ScheduledFile {
    ast_doc_core::ScheduledFile { parsed: parsed(path, 0, 0, 0), strategy, rendered_tokens: rendered, saved_tokens: saved }
}

#[test]
fn report_lists_breakdown_and_budget() {
    let mut counts = StrategyCounts::new();
    counts.insert(OutputStrategy::Full, 1);
    counts.insert(OutputStrategy::NoTests, 1);
    counts.insert(OutputStrategy::Summary, 1);
    let result = ast_doc_core::ScheduleResult {
        files: vec![
            scheduled("a.rs", OutputStrategy::Full, 500, 0),
            scheduled("b.rs", OutputStrategy::NoTests, 300, 200),
            scheduled("c.rs", OutputStrategy::Summary, 100, 400),
        ],
        total_tokens: 900,
        raw_tokens: 1500,
        strategy_counts: counts,
    };
    assert!(strategy_totals_fit_check(&result.files));
    let report = format_report_with(&result, 1000, "40.0");
    let lines: Vec<&str> = report.lines().collect();
    assert_eq!(lines[0], "\u{1f4ca} Optimization Report");
    assert_eq!(lines[1], "\u{2500}".repeat(25));
    assert_eq!(lines[2], "  Total files: 3");
    assert_eq!(lines[3], "  Raw tokens: 1500  \u{2192}  Final tokens: 900");
    assert_eq!(lines[4], "  Savings: 40.0%");
    assert_eq!(lines[7], "    Full:     1 files (500 tokens)");
    assert_eq!(lines[8], "    NoTests:     1 files (300 tokens)");
    assert_eq!(lines[9], "    Summary:     1 files (100 tokens)");
    assert_eq!(lines[11], "  Budget: \u{1f7e2} within budget (900/1000 tokens)");
    let over = format_report_with(&result, 800, "40.0");
    assert!(over.ends_with("\u{1f534} exceeded (900/800 tokens)"));
}

#[test]
fn report_overflowing_totals_are_detected() {
    let files = vec![
        scheduled("a.rs", OutputStrategy::Full, usize::MAX, 0),
        scheduled("b.rs", OutputStrategy::Full, 1, 0),
    ];
    assert!(!strategy_totals_fit_check(&files));
    // Sums are taken per strategy: a huge Full file beside a Summary file fits.
    let files = vec![
        scheduled("a.rs", OutputStrategy::Full, usize::MAX, 0),
        scheduled("b.rs", OutputStrategy::Summary, 1, 0),
    ];
    assert!(strategy_totals_fit_check(&files));
}

#[test]
fn directory_tree_text_is_exact() {
    let files = vec!["src/main.rs".to_string(), "src/util/mod.rs".to_string(), "README.md".to_string()];
    let tree = build_directory_tree("/work/project", &files);
    assert_eq!(
        tree,
        "project\n├── src\n│   ├── main.rs [Rust]\n│   └── util\n│       └── mod.rs [Rust]\n└── README.md\n"
    );
}

#[test]
fn run_stages_keeps_output_within_budget() {
    let files = vec![discover_file("src/lib.rs", "pub fn one() -> i32 {\n    1\n}\n")];
    let ingestion = IngestionResult { files, directory_tree: String::new(), git_context: None };
    let result = run_stages(&config(10_000, vec![], OutputStrategy::Full), &ingestion, "/x/demo").unwrap();
    assert!(compute_token_count(&result.output) <= 10_000);
    // The file fits a budget of 40 tokens, but the document around it does not.
    match run_stages(&config(40, vec![], OutputStrategy::Full), &ingestion, "/x/demo") {
        Err(AstDocError::BudgetExceeded { message }) => {
            assert!(message.starts_with("Rendered output ("), "unexpected message: {message}");
            assert!(message.ends_with(" tokens) exceeds budget (40)"), "unexpected message: {message}");
        },
        other => panic!("unexpected result: {other:?}"),
    }
}
