//! Phase 3: token budget scheduling.
//!
//! A pure optimizer that selects strategies to fit within the token budget
//! while protecting core files.

pub mod optimizer;

use vstd::prelude::*;
use crate::config::{AstDocConfig, OutputStrategy};
use crate::error::AstDocError;
use crate::parser::ParsedFile;
use crate::scheduler::optimizer::{core_flags, optimize, optimized};

verus! {

/// A file with its assigned strategy and token counts.
#[derive(Debug)]
pub struct ScheduledFile {
    /// The parsed file data.
    pub parsed: ParsedFile,
    /// The assigned output strategy.
    pub strategy: OutputStrategy,
    /// Token count for the assigned strategy.
    pub rendered_tokens: usize,
    /// Tokens saved compared to Full strategy.
    pub saved_tokens: usize,
}

/// Count of files per strategy; a strategy that no file uses has no entry.
#[derive(Debug, Clone, Copy)]
pub struct StrategyCounts {
    full: Option<usize>,
    no_tests: Option<usize>,
    summary: Option<usize>,
}

impl StrategyCounts {
    /// The entry stored for a strategy.
    pub closed spec fn entry(self, strategy: OutputStrategy) -> Option<usize> {
        match strategy {
            OutputStrategy::Full => self.full,
            OutputStrategy::NoTests => self.no_tests,
            OutputStrategy::Summary => self.summary,
        }
    }

    /// No entries.
    pub fn new() -> (res: Self)
        ensures
            forall|s: OutputStrategy| #[trigger] res.entry(s) is None,
    {
        StrategyCounts { full: None, no_tests: None, summary: None }
    }

    /// Store the count of a strategy.
    pub fn insert(&mut self, strategy: OutputStrategy, count: usize)
        ensures
            final(self).entry(strategy) == Some(count),
            forall|s: OutputStrategy| s != strategy ==> #[trigger] final(self).entry(s) == old(self).entry(s),
    {
        match strategy {
            OutputStrategy::Full => self.full = Some(count),
            OutputStrategy::NoTests => self.no_tests = Some(count),
            OutputStrategy::Summary => self.summary = Some(count),
        }
    }

    /// Add one to the count of a strategy (a missing entry counts as 0).
    pub fn increment(&mut self, strategy: OutputStrategy)
        requires
            old(self).entry(strategy) matches Some(c) ==> c < usize::MAX,
        ensures
            final(self).entry(strategy) == Some(
                match old(self).entry(strategy) {
                    Some(c) => (c + 1) as usize,
                    None => 1usize,
                },
            ),
            forall|s: OutputStrategy| s != strategy ==> #[trigger] final(self).entry(s) == old(self).entry(s),
    {
        let next = match self.get(&strategy) {
            Some(c) => c + 1,
            None => 1,
        };
        self.insert(strategy, next);
    }

    /// The count stored for a strategy, if any.
    pub fn get(&self, strategy: &OutputStrategy) -> (res: Option<usize>)
        ensures
            res == self.entry(*strategy),
    {
        match strategy {
            OutputStrategy::Full => self.full,
            OutputStrategy::NoTests => self.no_tests,
            OutputStrategy::Summary => self.summary,
        }
    }

    /// Whether an entry is stored for the strategy.
    pub fn contains_key(&self, strategy: &OutputStrategy) -> (res: bool)
        ensures
            res == self.entry(*strategy) is Some,
    {
        self.get(strategy).is_some()
    }
}

/// Result of the scheduling phase.
#[derive(Debug)]
pub struct ScheduleResult {
    /// All scheduled files.
    pub files: Vec<ScheduledFile>,
    /// Total tokens after scheduling.
    pub total_tokens: usize,
    /// Raw tokens before scheduling (all files at Full).
    pub raw_tokens: usize,
    /// Count of files per strategy.
    pub strategy_counts: StrategyCounts,
}

/// Run the token scheduling phase.
///
/// `base_overhead_tokens` is the token cost of non-file content (directory tree
/// and git context). The result is that of [`optimizer::optimize`]: it fits
/// `max_tokens`, keeps core files at Full and never raises a file above the
/// default strategy.
pub fn run_scheduler(
    parsed: &[ParsedFile],
    config: &AstDocConfig,
    base_overhead_tokens: usize,
) -> (res: Result<ScheduleResult, AstDocError>)
    ensures
        optimized(parsed@, *config, base_overhead_tokens, res),
        res matches Ok(r) ==> r.total_tokens + base_overhead_tokens <= config.max_tokens,
        res matches Ok(r) ==> forall|i: int|
            0 <= i < parsed@.len() && #[trigger] core_flags(parsed@, config.core_patterns@)[i]
                ==> r.files@[i].strategy == OutputStrategy::Full,
        res matches Ok(r) ==> forall|i: int|
            0 <= i < parsed@.len() && !#[trigger] core_flags(parsed@, config.core_patterns@)[i]
                ==> r.files@[i].strategy.level() >= config.default_strategy.level(),
{
    optimize(parsed, config, base_overhead_tokens)
}

} // verus!
