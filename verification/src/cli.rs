//! The command-line arguments of the `ast-doc` tool and the configuration they
//! give.

use vstd::prelude::*;
use crate::config::{AstDocConfig, OutputStrategy};

verus! {

/// Output strategy for code extraction, as chosen on the command line.
#[derive(Debug, Clone, Copy, PartialEq, Eq, Structural)]
pub enum CliOutputStrategy {
    /// Include all source code verbatim.
    Full,
    /// Strip test modules and test functions.
    NoTests,
    /// Extract signatures only, omit implementations.
    Summary,
}

impl Default for CliOutputStrategy {
    fn default() -> (res: Self)
        ensures
            res == CliOutputStrategy::Full,
    {
        CliOutputStrategy::Full
    }
}

/// The output strategy a command-line strategy stands for.
pub open spec fn strategy_of(value: CliOutputStrategy) -> OutputStrategy {
    match value {
        CliOutputStrategy::Full => OutputStrategy::Full,
        CliOutputStrategy::NoTests => OutputStrategy::NoTests,
        CliOutputStrategy::Summary => OutputStrategy::Summary,
    }
}

impl From<CliOutputStrategy> for OutputStrategy {
    fn from(value: CliOutputStrategy) -> (res: Self) {
        match value {
            CliOutputStrategy::Full => OutputStrategy::Full,
            CliOutputStrategy::NoTests => OutputStrategy::NoTests,
            CliOutputStrategy::Summary => OutputStrategy::Summary,
        }
    }
}

impl vstd::std_specs::convert::FromSpecImpl<CliOutputStrategy> for OutputStrategy {
    open spec fn obeys_from_spec() -> bool {
        true
    }

    open spec fn from_spec(v: CliOutputStrategy) -> Self {
        strategy_of(v)
    }
}

/// Command-line arguments of `ast-doc`.
#[derive(Debug)]
pub struct Args {
    /// Path to the project root directory.
    pub path: String,
    /// Output file path (default: stdout).
    pub output: Option<String>,
    /// Maximum token budget for the output.
    pub max_tokens: usize,
    /// Glob patterns for core files that should never be degraded.
    pub core: Vec<String>,
    /// Default output strategy for non-core files.
    pub strategy: CliOutputStrategy,
    /// Glob patterns to include (e.g., "*.rs").
    pub include_patterns: Vec<String>,
    /// Glob patterns to exclude (e.g., "*.txt").
    pub exclude: Vec<String>,
    /// Skip git context collection.
    pub no_git: bool,
    /// Skip directory tree generation.
    pub no_tree: bool,
    /// Copy output to clipboard.
    pub copy: bool,
    /// Enable verbose logging.
    pub verbose: bool,
}

/// A copy of a list of strings.
fn copy_strings(v: &Vec<String>) -> (res: Vec<String>)
    ensures
        res@ == v@,
{
    let mut out: Vec<String> = Vec::new();
    let mut i: usize = 0;
    while i < v.len()
        invariant
            i <= v@.len(),
            out@ == v@.take(i as int),
        decreases v.len() - i,
    {
        out.push(v[i].clone());
        i = i + 1;
        assert(out@ =~= v@.take(i as int));
    }
    assert(v@.take(i as int) =~= v@);
    out
}

/// Build a configuration from parsed command-line arguments: each setting is
/// carried over, the strategy converted.
pub fn build_config(args: &Args) -> (res: AstDocConfig)
    ensures
        res.path == args.path,
        res.output == args.output,
        res.max_tokens == args.max_tokens,
        res.core_patterns@ == args.core@,
        res.default_strategy == strategy_of(args.strategy),
        res.include_patterns@ == args.include_patterns@,
        res.exclude_patterns@ == args.exclude@,
        res.no_git == args.no_git,
        res.no_tree == args.no_tree,
        res.copy == args.copy,
        res.verbose == args.verbose,
{
    let output = match &args.output {
        Some(o) => Some(o.clone()),
        None => None,
    };
    AstDocConfig {
        path: args.path.clone(),
        output,
        max_tokens: args.max_tokens,
        core_patterns: copy_strings(&args.core),
        default_strategy: OutputStrategy::from(args.strategy),
        include_patterns: copy_strings(&args.include_patterns),
        exclude_patterns: copy_strings(&args.exclude),
        no_git: args.no_git,
        no_tree: args.no_tree,
        copy: args.copy,
        verbose: args.verbose,
    }
}

} // verus!
