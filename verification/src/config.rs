//! Configuration types for the pipeline.

use vstd::prelude::*;

verus! {

/// Output strategy for code extraction.
///
/// Ordering: `Full < NoTests < Summary` (increasing degradation level).
#[derive(Debug, Clone, Copy, PartialEq, Eq, Structural, Hash, PartialOrd, Ord)]
pub enum OutputStrategy {
    /// Include all source code verbatim.
    Full,
    /// Strip test modules and test functions.
    NoTests,
    /// Extract signatures only, omit implementations.
    Summary,
}

impl OutputStrategy {
    /// Degradation level: 0 for `Full`, 1 for `NoTests`, 2 for `Summary`.
    pub open spec fn level(self) -> nat {
        match self {
            OutputStrategy::Full => 0,
            OutputStrategy::NoTests => 1,
            OutputStrategy::Summary => 2,
        }
    }

    /// The next more-degraded strategy, if any.
    pub open spec fn spec_degrade(self) -> Option<OutputStrategy> {
        match self {
            OutputStrategy::Full => Some(OutputStrategy::NoTests),
            OutputStrategy::NoTests => Some(OutputStrategy::Summary),
            OutputStrategy::Summary => None,
        }
    }

    /// Return the next more-degraded strategy, or `None` if already at `Summary`.
    pub fn degrade(self) -> (res: Option<OutputStrategy>)
        ensures
            res == self.spec_degrade(),
            res matches Some(next) ==> next.level() == self.level() + 1,
            res is None <==> self == OutputStrategy::Summary,
    {
        match self {
            OutputStrategy::Full => Some(OutputStrategy::NoTests),
            OutputStrategy::NoTests => Some(OutputStrategy::Summary),
            OutputStrategy::Summary => None,
        }
    }

    /// The display name of the strategy.
    pub open spec fn spec_name(self) -> Seq<char> {
        match self {
            OutputStrategy::Full => "Full"@,
            OutputStrategy::NoTests => "NoTests"@,
            OutputStrategy::Summary => "Summary"@,
        }
    }

    /// The display name of the strategy (`Full`, `NoTests` or `Summary`).
    pub fn as_str(&self) -> (res: &'static str)
        ensures
            res@ == self.spec_name(),
    {
        match self {
            OutputStrategy::Full => "Full",
            OutputStrategy::NoTests => "NoTests",
            OutputStrategy::Summary => "Summary",
        }
    }
}

impl Default for OutputStrategy {
    fn default() -> (res: Self)
        ensures
            res == OutputStrategy::Full,
    {
        OutputStrategy::Full
    }
}

/// Top-level configuration for the pipeline.
#[derive(Debug, Clone)]
pub struct AstDocConfig {
    /// Path to the project root directory.
    pub path: String,
    /// Output file path (None = stdout).
    pub output: Option<String>,
    /// Maximum token budget for the output.
    pub max_tokens: usize,
    /// Glob patterns for core files that should never be degraded.
    pub core_patterns: Vec<String>,
    /// Default output strategy for non-core files.
    pub default_strategy: OutputStrategy,
    /// Glob patterns to include (e.g., "*.rs").
    pub include_patterns: Vec<String>,
    /// Glob patterns to exclude (e.g., "*.txt").
    pub exclude_patterns: Vec<String>,
    /// Skip git context collection.
    pub no_git: bool,
    /// Skip directory tree generation.
    pub no_tree: bool,
    /// Copy output to clipboard.
    pub copy: bool,
    /// Enable verbose logging.
    pub verbose: bool,
}

} // verus!
