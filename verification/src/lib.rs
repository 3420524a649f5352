//! Core library of ast-doc: a four-stage pipeline that turns a codebase into an
//! `llms.txt` document under a token budget.
//!
//! 1. Ingestion: discovered files, git metadata, directory tree.
//! 2. Parser: syntax trees and the three pre-computed strategy variants.
//! 3. Scheduler: token budget optimization by degradation.
//! 4. Renderer: markdown assembly with anti-bloat rules.
//!
//! Reading the file system and the repository is the host's work: it hands the
//! library what it read, and the library computes the rest.

pub mod cli;
pub mod config;
pub mod error;
pub mod globs;
pub mod ingestion;
pub mod parser;
pub mod paths;
pub mod renderer;
pub mod report;
pub mod scheduler;
pub mod text;
pub mod tokens;

pub use config::{AstDocConfig, OutputStrategy};
pub use error::AstDocError;
pub use ingestion::{DiscoveredFile, GitContext, IngestionResult};
pub use parser::{Language, ParsedFile, StrategyData};
pub use scheduler::{ScheduleResult, ScheduledFile};

use vstd::prelude::*;
use crate::parser::{file_parse_claim, file_parses, parse_file};
use crate::renderer::llms_txt::{anti_bloat, render_buffer};
use crate::renderer::{project_name_of, render_llms_txt};
use crate::scheduler::optimizer::optimized;
use crate::scheduler::run_scheduler;
use crate::tokens::{cl100k_token_count, compute_token_count};
use crate::text::{decimal, push_decimal, push_str, string_from};

verus! {

/// Maximum tokens of a git diff counted in full in the base overhead.
pub const MAX_DIFF_TOKENS: usize = 1000;

/// Result of running the full pipeline.
#[derive(Debug)]
pub struct PipelineResult {
    /// The rendered `llms.txt` output.
    pub output: String,
    /// The scheduling result with token breakdowns.
    pub schedule: ScheduleResult,
}

/// The token cost of a diff in the base overhead: its token count, or, past
/// `MAX_DIFF_TOKENS`, that limit plus the tokens of the truncation notice.
pub open spec fn diff_cost(diff: Seq<char>) -> nat {
    if cl100k_token_count(diff) > MAX_DIFF_TOKENS {
        MAX_DIFF_TOKENS as nat + cl100k_token_count("... (diff truncated)"@)
    } else {
        cl100k_token_count(diff)
    }
}

/// The token cost of the non-file content of an ingestion: the directory tree,
/// and the branch, commit and diff of the git context.
pub open spec fn base_overhead(ingestion: IngestionResult) -> nat {
    cl100k_token_count(ingestion.directory_tree@) + match ingestion.git_context {
        Some(git) => cl100k_token_count(git.branch@) + cl100k_token_count(git.latest_commit@)
            + match git.diff {
            Some(d) => diff_cost(d@),
            None => 0,
        },
        None => 0,
    }
}

/// Compute the token overhead of the directory tree and git context; `None`
/// when it exceeds `usize::MAX`.
pub fn compute_base_overhead(ingestion: &IngestionResult) -> (res: Option<usize>)
    ensures
        match res {
            Some(n) => n == base_overhead(*ingestion),
            None => base_overhead(*ingestion) > usize::MAX,
        },
{
    let mut overhead = compute_token_count(ingestion.directory_tree.as_str());
    match &ingestion.git_context {
        Some(git) => {
            let branch = compute_token_count(git.branch.as_str());
            let commit = compute_token_count(git.latest_commit.as_str());
            overhead = match overhead.checked_add(branch) {
                Some(n) => n,
                None => return None,
            };
            overhead = match overhead.checked_add(commit) {
                Some(n) => n,
                None => return None,
            };
            match &git.diff {
                Some(diff) => {
                    let diff_tokens = compute_token_count(diff.as_str());
                    let cost = if diff_tokens > MAX_DIFF_TOKENS {
                        let notice = compute_token_count("... (diff truncated)");
                        match MAX_DIFF_TOKENS.checked_add(notice) {
                            Some(n) => n,
                            None => return None,
                        }
                    } else {
                        diff_tokens
                    };
                    overhead = match overhead.checked_add(cost) {
                        Some(n) => n,
                        None => return None,
                    };
                },
                None => {},
            }
        },
        None => {},
    }
    Some(overhead)
}

/// The discovered files that have a language, in order.
pub open spec fn language_files(files: Seq<DiscoveredFile>) -> Seq<DiscoveredFile>
    decreases files.len(),
{
    if files.len() == 0 {
        Seq::empty()
    } else {
        language_files(files.drop_last()) + if files.last().language is Some {
            seq![files.last()]
        } else {
            Seq::empty()
        }
    }
}


/// `parsed` holds, in order, a parse of each discovered file that has a language.
pub open spec fn parsed_all(files: Seq<DiscoveredFile>, parsed: Seq<ParsedFile>) -> bool {
    let lf = language_files(files);
    &&& parsed.len() == lf.len()
    &&& forall|k: int| 0 <= k < parsed.len() ==> file_parse_claim(
        lf[k],
        lf[k].language->0,
        Ok(#[trigger] parsed[k]),
    )
}

/// Parsing `files` in order stops at file `i` with `e`: every earlier file with
/// a language parsed, and file `i` has a language whose parse gives `e`.
pub open spec fn parse_failed_first(files: Seq<DiscoveredFile>, e: AstDocError) -> bool {
    exists|i: int, before: Seq<ParsedFile>|
        #![trigger parsed_all(files.take(i), before), files[i]]
        0 <= i < files.len() && parsed_all(files.take(i), before) && files[i].language is Some
            && file_parse_claim(files[i], files[i].language->0, Err(e))
}

/// Every discovered file with a language parses (see [`file_parses`]).
pub open spec fn all_parse(files: Seq<DiscoveredFile>) -> bool {
    forall|i: int|
        0 <= i < files.len() && (#[trigger] files[i]).language is Some ==> file_parses(
            files[i],
            files[i].language->0,
        )
}

/// The rendered document of a schedule for the project rooted at `project_path`.
pub open spec fn rendered_output(schedule: ScheduleResult, ingestion: IngestionResult, project_path: Seq<char>) -> Seq<char> {
    anti_bloat(render_buffer(schedule, ingestion, project_name_of(project_path), Seq::empty()))
}

/// The message reported when the rendered document exceeds the token budget.
pub open spec fn output_budget_message(tokens: nat, max: nat) -> Seq<char> {
    "Rendered output ("@ + decimal(tokens) + " tokens) exceeds budget ("@ + decimal(max) + ")"@
}

/// `e` is the error for a schedule whose rendered document exceeds the budget.
pub open spec fn output_over_budget(
    schedule: ScheduleResult,
    ingestion: IngestionResult,
    project_path: Seq<char>,
    max: usize,
    e: AstDocError,
) -> bool {
    let tokens = cl100k_token_count(rendered_output(schedule, ingestion, project_path));
    &&& tokens > max
    &&& e matches AstDocError::BudgetExceeded { message } && message@ == output_budget_message(
        tokens,
        max as nat,
    )
}

/// What the scheduling and rendering stages give for the parsed files: the
/// optimizer's error, or its schedule with the rendered document when that fits
/// the budget, or the error for a document over the budget.
pub open spec fn stages_result(
    parsed: Seq<ParsedFile>,
    config: AstDocConfig,
    ingestion: IngestionResult,
    project_path: Seq<char>,
    res: Result<PipelineResult, AstDocError>,
) -> bool {
    let base = base_overhead(ingestion) as usize;
    match res {
        Ok(r) => optimized(parsed, config, base, Ok(r.schedule)) && r.output@ == rendered_output(
            r.schedule,
            ingestion,
            project_path,
        ) && cl100k_token_count(r.output@) <= config.max_tokens,
        Err(e) => optimized(parsed, config, base, Err(e)) || exists|s: ScheduleResult|
            #![trigger optimized(parsed, config, base, Ok(s))]
            optimized(parsed, config, base, Ok(s)) && output_over_budget(
                s,
                ingestion,
                project_path,
                config.max_tokens,
                e,
            ),
    }
}

/// The message reported when the base overhead does not fit in a machine word.
pub open spec fn overhead_overflow_message() -> Seq<char> {
    "Base overhead exceeds the representable range"@
}

/// Run the parsing, scheduling and rendering stages on the result of ingestion.
///
/// Each discovered file with a language is parsed, in order, and the first
/// failure is returned; the base overhead is that of the directory tree and git
/// context; the output is rendered for the project rooted at `project_path`, and
/// it is refused with `BudgetExceeded` when its own token count exceeds
/// `max_tokens`.
pub fn run_stages(config: &AstDocConfig, ingestion: &IngestionResult, project_path: &str) -> (res: Result<
    PipelineResult,
    AstDocError,
>)
    ensures
        res matches Ok(r) ==> exists|parsed: Seq<ParsedFile>|
            #![trigger parsed_all(ingestion.files@, parsed)]
            parsed_all(ingestion.files@, parsed) && base_overhead(*ingestion) <= usize::MAX && optimized(
                parsed,
                *config,
                base_overhead(*ingestion) as usize,
                Ok(r.schedule),
            ),
        res matches Ok(r) ==> r.output@ == rendered_output(r.schedule, *ingestion, project_path@),
        res matches Ok(r) ==> cl100k_token_count(r.output@) <= config.max_tokens,
        res matches Ok(r) ==> r.schedule.total_tokens + base_overhead(*ingestion) <= config.max_tokens,
        all_parse(ingestion.files@) && base_overhead(*ingestion) <= usize::MAX ==> exists|
            parsed: Seq<ParsedFile>,
        |
            #![trigger parsed_all(ingestion.files@, parsed)]
            parsed_all(ingestion.files@, parsed) && stages_result(parsed, *config, *ingestion, project_path@, res),
        res matches Err(e) ==> parse_failed_first(ingestion.files@, e) || exists|parsed: Seq<
            ParsedFile,
        >|
            #![trigger parsed_all(ingestion.files@, parsed)]
            parsed_all(ingestion.files@, parsed) && if base_overhead(*ingestion) <= usize::MAX {
                stages_result(parsed, *config, *ingestion, project_path@, res)
            } else {
                e matches AstDocError::BudgetExceeded { message } && message@
                    == overhead_overflow_message()
            },
{
    let files = &ingestion.files;
    let mut parsed: Vec<ParsedFile> = Vec::new();
    let mut i: usize = 0;
    while i < files.len()
        invariant
            i <= files@.len(),
            files@ == ingestion.files@,
            parsed_all(files@.take(i as int), parsed@),
        decreases files.len() - i,
    {
        proof {
            assert(files@.take(i + 1).drop_last() =~= files@.take(i as int));
        }
        let file = &files[i];
        let ghost before = parsed@;
        match &file.language {
            Some(lang) => {
                match parse_file(file, lang) {
                    Ok(p) => {
                        parsed.push(p);
                        proof {
                            let lf = language_files(files@.take(i + 1));
                            assert(lf =~= language_files(files@.take(i as int)).push(*file));
                            assert forall|k: int| 0 <= k < parsed@.len() implies file_parse_claim(
                                lf[k],
                                lf[k].language->0,
                                Ok(#[trigger] parsed@[k]),
                            ) by {
                                if k < before.len() {
                                    assert(parsed@[k] == before[k]);
                                }
                            }
                        }
                    },
                    Err(e) => {
                        proof {
                            assert(parsed_all(ingestion.files@.take(i as int), parsed@));
                            assert(ingestion.files@[i as int] == *file);
                            assert(!file_parses(*file, *lang));
                            assert(!all_parse(ingestion.files@));
                        }
                        return Err(e);
                    },
                }
            },
            None => {
                proof {
                    assert(language_files(files@.take(i + 1)) =~= language_files(files@.take(i as int)));
                }
            },
        }
        i = i + 1;
    }
    assert(files@.take(i as int) =~= files@);
    let overhead = match compute_base_overhead(ingestion) {
        Some(n) => n,
        None => {
            return Err(
                AstDocError::BudgetExceeded {
                    message: String::from_str("Base overhead exceeds the representable range"),
                },
            );
        },
    };
    let schedule = match run_scheduler(parsed.as_slice(), config, overhead) {
        Ok(s) => s,
        Err(e) => {
            return Err(e);
        },
    };
    let output = render_llms_txt(&schedule, ingestion, project_path);
    // The rendered document itself must fit the budget.
    let tokens = compute_token_count(output.as_str());
    if tokens > config.max_tokens {
        let mut message: Vec<char> = Vec::new();
        push_str(&mut message, "Rendered output (");
        push_decimal(&mut message, tokens);
        push_str(&mut message, " tokens) exceeds budget (");
        push_decimal(&mut message, config.max_tokens);
        push_str(&mut message, ")");
        let e = AstDocError::BudgetExceeded { message: string_from(&message) };
        proof {
            assert(output_over_budget(schedule, *ingestion, project_path@, config.max_tokens, e));
            assert(optimized(parsed@, *config, overhead, Ok(schedule)));
        }
        return Err(e);
    }
    Ok(PipelineResult { output, schedule })
}

} // verus!
