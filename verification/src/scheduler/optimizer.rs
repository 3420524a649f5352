//! Degradation optimizer for token budget enforcement.
//!
//! Selects one of the pre-computed strategy variants of each parsed file: no
//! string is touched, only token counts.

use vstd::prelude::*;
use crate::config::{AstDocConfig, OutputStrategy};
use crate::error::AstDocError;
use crate::globs::{set_globs, set_is_match, set_matches};
use crate::ingestion::walker::{build_globset, globset_builds, pattern_texts};
use crate::parser::ParsedFile;
use crate::scheduler::{ScheduleResult, ScheduledFile, StrategyCounts};
use crate::text::{decimal, push_decimal, push_str, string_from};

verus! {

/// Token count of a file under a strategy (0 when the file has no such variant).
pub open spec fn cost(file: ParsedFile, strategy: OutputStrategy) -> nat {
    file.strategies_data.tokens(strategy)
}

/// Sum of the costs of the first `n` files under the assignment `a`.
pub open spec fn total_upto(files: Seq<ParsedFile>, a: Seq<OutputStrategy>, n: int) -> nat
    decreases n,
{
    if n <= 0 {
        0
    } else {
        total_upto(files, a, n - 1) + cost(files[n - 1], a[n - 1])
    }
}

/// Sum of the costs of all files under the assignment `a`.
pub open spec fn total(files: Seq<ParsedFile>, a: Seq<OutputStrategy>) -> nat {
    total_upto(files, a, files.len() as int)
}

/// The assignment that gives every one of `n` files the Full strategy.
pub open spec fn all_full(n: nat) -> Seq<OutputStrategy> {
    Seq::new(n, |i: int| OutputStrategy::Full)
}

/// Tokens of all files at Full.
pub open spec fn raw_total(files: Seq<ParsedFile>) -> nat {
    total(files, all_full(files.len()))
}

/// The total of a prefix is at most the total of a longer prefix.
proof fn lemma_total_upto_monotone(files: Seq<ParsedFile>, a: Seq<OutputStrategy>, m: int, n: int)
    requires
        0 <= m <= n,
    ensures
        total_upto(files, a, m) <= total_upto(files, a, n),
    decreases n - m,
{
    if m < n {
        lemma_total_upto_monotone(files, a, m, n - 1);
    }
}

/// A file has test content when its NoTests variant is cheaper than Full.
pub open spec fn has_tests(file: ParsedFile) -> bool {
    cost(file, OutputStrategy::NoTests) < cost(file, OutputStrategy::Full)
}

/// A file may be degraded when it is not core and not yet at Summary.
pub open spec fn degradable(core: Seq<bool>, a: Seq<OutputStrategy>, i: int) -> bool {
    !core[i] && a[i] != OutputStrategy::Summary
}

/// File `i` comes before file `j` in degradation order: files with test content
/// first, then by current token count, descending.
pub open spec fn prefers(files: Seq<ParsedFile>, a: Seq<OutputStrategy>, i: int, j: int) -> bool {
    ||| has_tests(files[i]) && !has_tests(files[j])
    ||| has_tests(files[i]) == has_tests(files[j]) && cost(files[i], a[i]) > cost(files[j], a[j])
}

/// The first degradable file among the first `n` in degradation order; among
/// equals, the one with the lowest index.
pub open spec fn best_upto(
    files: Seq<ParsedFile>,
    core: Seq<bool>,
    a: Seq<OutputStrategy>,
    n: int,
) -> Option<int>
    decreases n,
{
    if n <= 0 {
        None
    } else {
        let b = best_upto(files, core, a, n - 1);
        if degradable(core, a, n - 1) && (match b {
            None => true,
            Some(j) => prefers(files, a, n - 1, j),
        }) {
            Some(n - 1)
        } else {
            b
        }
    }
}

/// The file that the next degradation step acts on.
pub open spec fn pick(files: Seq<ParsedFile>, core: Seq<bool>, a: Seq<OutputStrategy>) -> Option<int> {
    best_upto(files, core, a, a.len() as int)
}

/// Among the first `n` files, the chosen one is degradable, no degradable file
/// with test content is passed over for one without, and among degradable files
/// of the same test status the chosen one has the largest current token count.
proof fn lemma_best_largest(files: Seq<ParsedFile>, core: Seq<bool>, a: Seq<OutputStrategy>, n: int)
    requires
        0 <= n <= a.len(),
        a.len() == files.len(),
        core.len() == files.len(),
    ensures
        best_upto(files, core, a, n) matches Some(i) ==> {
            &&& 0 <= i < n
            &&& degradable(core, a, i)
            &&& forall|j: int|
                0 <= j < n && #[trigger] degradable(core, a, j) ==> (has_tests(files[j]) ==> has_tests(
                    files[i],
                )) && (has_tests(files[j]) == has_tests(files[i]) ==> cost(files[j], a[j]) <= cost(
                    files[i],
                    a[i],
                ))
        },
        best_upto(files, core, a, n) is None ==> forall|j: int| 0 <= j < n ==> !#[trigger] degradable(core, a, j),
    decreases n,
{
    if n > 0 {
        lemma_best_largest(files, core, a, n - 1);
    }
}

/// Law: the file that a degradation step acts on is degradable; no degradable
/// file with test content is passed over for one without; and among degradable
/// files with the same test status it has the largest current token count. When
/// no file is picked, none is degradable.
pub proof fn lemma_pick_largest(files: Seq<ParsedFile>, core: Seq<bool>, a: Seq<OutputStrategy>)
    requires
        a.len() == files.len(),
        core.len() == files.len(),
    ensures
        pick(files, core, a) matches Some(i) ==> {
            &&& 0 <= i < a.len()
            &&& !core[i] && a[i] != OutputStrategy::Summary
            &&& forall|j: int|
                0 <= j < a.len() && !core[j] && a[j] != OutputStrategy::Summary ==> (has_tests(
                    #[trigger] files[j],
                ) ==> has_tests(files[i])) && (has_tests(files[j]) == has_tests(files[i]) ==> cost(
                    files[j],
                    a[j],
                ) <= cost(files[i], a[i]))
        },
        pick(files, core, a) is None ==> forall|j: int|
            0 <= j < a.len() ==> core[j] || #[trigger] a[j] == OutputStrategy::Summary,
{
    lemma_best_largest(files, core, a, a.len() as int);
    if let Some(i) = pick(files, core, a) {
        assert forall|j: int|
            0 <= j < a.len() && !core[j] && a[j] != OutputStrategy::Summary implies (has_tests(
                #[trigger] files[j],
            ) ==> has_tests(files[i])) && (has_tests(files[j]) == has_tests(files[i]) ==> cost(
                files[j],
                a[j],
            ) <= cost(files[i], a[i])) by {
            assert(degradable(core, a, j));
        }
    } else {
        assert forall|j: int| 0 <= j < a.len() implies core[j] || #[trigger] a[j] == OutputStrategy::Summary by {
            assert(!degradable(core, a, j));
        }
    }
}

/// Degradation steps left to the first `n` files (2 at Full, 0 at Summary).
pub open spec fn rank_upto(a: Seq<OutputStrategy>, n: int) -> nat
    decreases n,
{
    if n <= 0 {
        0
    } else {
        rank_upto(a, n - 1) + (2 - a[n - 1].level()) as nat
    }
}

/// The strategy one step more degraded, Summary staying Summary.
pub open spec fn next_level(s: OutputStrategy) -> OutputStrategy {
    match s.spec_degrade() {
        Some(n) => n,
        None => s,
    }
}

/// How a run of the degradation loop ends.
pub enum Outcome {
    /// The assignment fits the budget.
    Fits(Seq<OutputStrategy>),
    /// Over budget with nothing left to degrade; carries the total.
    NothingToDegrade(nat),
    /// A total computed on the way exceeds `usize::MAX`.
    Overflow,
}

/// The degradation loop from assignment `a`: while the total exceeds the
/// budget, degrade the picked file one step; when that leaves the total
/// unchanged, degrade it once more if it is not yet at Summary. A total computed
/// on the way that exceeds `usize::MAX` ends the loop.
pub open spec fn run(
    files: Seq<ParsedFile>,
    core: Seq<bool>,
    budget: nat,
    a: Seq<OutputStrategy>,
) -> Outcome
    decreases rank_upto(a, a.len() as int),
    via run_decreases
{
    let t = total(files, a);
    if t <= budget {
        Outcome::Fits(a)
    } else {
        match pick(files, core, a) {
            None => Outcome::NothingToDegrade(t),
            Some(i) => {
                let a1 = a.update(i, next_level(a[i]));
                let t1 = total(files, a1);
                if t1 > usize::MAX {
                    Outcome::Overflow
                } else if t1 == t {
                    match a1[i].spec_degrade() {
                        Some(s2) => if total(files, a1.update(i, s2)) > usize::MAX {
                            Outcome::Overflow
                        } else {
                            run(files, core, budget, a1.update(i, s2))
                        },
                        None => run(files, core, budget, a1),
                    }
                } else {
                    run(files, core, budget, a1)
                }
            },
        }
    }
}

proof fn lemma_best_props(files: Seq<ParsedFile>, core: Seq<bool>, a: Seq<OutputStrategy>, n: int)
    ensures
        best_upto(files, core, a, n) matches Some(i) ==> 0 <= i < n && degradable(core, a, i),
        best_upto(files, core, a, n) is None ==> forall|j: int| 0 <= j < n ==> !degradable(core, a, j),
    decreases n,
{
    if n > 0 {
        lemma_best_props(files, core, a, n - 1);
    }
}

proof fn lemma_rank_update(a: Seq<OutputStrategy>, i: int, s: OutputStrategy, n: int)
    requires
        0 <= i < a.len(),
        0 <= n <= a.len(),
    ensures
        i < n ==> rank_upto(a.update(i, s), n) + s.level() == rank_upto(a, n) + a[i].level(),
        i >= n ==> rank_upto(a.update(i, s), n) == rank_upto(a, n),
    decreases n,
{
    if n > 0 {
        lemma_rank_update(a, i, s, n - 1);
    }
}

#[via_fn]
proof fn run_decreases(files: Seq<ParsedFile>, core: Seq<bool>, budget: nat, a: Seq<OutputStrategy>) {
    let t = total(files, a);
    if t > budget {
        lemma_best_props(files, core, a, a.len() as int);
        if let Some(i) = pick(files, core, a) {
            let a1 = a.update(i, next_level(a[i]));
            lemma_rank_update(a, i, next_level(a[i]), a.len() as int);
            assert(next_level(a[i]).level() == a[i].level() + 1);
            assert(rank_upto(a1, a1.len() as int) < rank_upto(a, a.len() as int));
            if let Some(s2) = a1[i].spec_degrade() {
                lemma_rank_update(a1, i, s2, a1.len() as int);
                assert(rank_upto(a1.update(i, s2), a1.len() as int) < rank_upto(a, a.len() as int));
            }
        }
    }
}

/// The core flags of the files: a file is core when a core pattern matches its path.
pub open spec fn core_flags(files: Seq<ParsedFile>, patterns: Seq<String>) -> Seq<bool> {
    Seq::new(files.len(), |i: int| set_matches(pattern_texts(patterns), files[i].path@))
}

/// The initial assignment: core files at Full, the others at the default strategy.
pub open spec fn initial(core: Seq<bool>, default: OutputStrategy) -> Seq<OutputStrategy> {
    Seq::new(core.len(), |i: int| if core[i] { OutputStrategy::Full } else { default })
}

/// The course that scheduling takes.
pub enum Scheduling {
    /// A core pattern does not compile.
    InvalidGlob,
    /// The base overhead alone reaches the budget.
    BaseOverhead,
    /// The raw total or the total of the initial assignment exceeds `usize::MAX`.
    Overflow,
    /// The degradation loop ran, with this outcome.
    Ran(Outcome),
}

/// The course of scheduling `files` under `config` with the given base overhead.
pub open spec fn scheduling(files: Seq<ParsedFile>, config: AstDocConfig, base: nat) -> Scheduling {
    if !globset_builds(config.core_patterns@) {
        Scheduling::InvalidGlob
    } else if base >= config.max_tokens {
        Scheduling::BaseOverhead
    } else {
        let core = core_flags(files, config.core_patterns@);
        let start = initial(core, config.default_strategy);
        if raw_total(files) > usize::MAX || total(files, start) > usize::MAX {
            Scheduling::Overflow
        } else {
            Scheduling::Ran(run(files, core, (config.max_tokens - base) as nat, start))
        }
    }
}

/// Message when the base overhead alone reaches the budget.
pub open spec fn base_overhead_message(base: nat, max: nat) -> Seq<char> {
    "Base overhead ("@ + decimal(base) + " tokens) exceeds or equals budget ("@ + decimal(max)
        + ")"@
}

/// Message when every file is at its minimum strategy and the budget is still exceeded.
pub open spec fn minimum_message(total: nat, budget: nat) -> Seq<char> {
    "All files at minimum strategy but still over budget: "@ + decimal(total) + " > "@ + decimal(
        budget,
    )
}

/// Message when a token total does not fit in a machine word.
pub open spec fn overflow_message() -> Seq<char> {
    "Token counts exceed the representable range"@
}

/// Number of the first `n` entries of `a` equal to `s`.
pub open spec fn count_upto(a: Seq<OutputStrategy>, s: OutputStrategy, n: int) -> nat
    decreases n,
{
    if n <= 0 {
        0
    } else {
        count_upto(a, s, n - 1) + if a[n - 1] == s { 1nat } else { 0nat }
    }
}

/// The per-strategy count entry of an assignment: absent when no file has the strategy.
pub open spec fn count_entry(a: Seq<OutputStrategy>, s: OutputStrategy) -> Option<usize> {
    let c = count_upto(a, s, a.len() as int);
    if c > 0 {
        Some(c as usize)
    } else {
        None
    }
}

/// `x - y` floored at zero.
pub open spec fn saturating_sub(x: nat, y: nat) -> nat {
    if x >= y {
        (x - y) as nat
    } else {
        0
    }
}

/// A schedule result describes the assignment `a` of `files`.
pub open spec fn schedule_matches(
    files: Seq<ParsedFile>,
    a: Seq<OutputStrategy>,
    r: ScheduleResult,
) -> bool {
    &&& r.files@.len() == files.len()
    &&& forall|i: int|
        #![trigger r.files@[i]]
        0 <= i < files.len() ==> {
            &&& r.files@[i].parsed == files[i]
            &&& r.files@[i].strategy == a[i]
            &&& r.files@[i].rendered_tokens == cost(files[i], a[i])
            &&& r.files@[i].saved_tokens == saturating_sub(
                cost(files[i], OutputStrategy::Full),
                cost(files[i], a[i]),
            )
        }
    &&& r.total_tokens == total(files, a)
    &&& r.raw_tokens == raw_total(files)
    &&& forall|s: OutputStrategy| #[trigger] r.strategy_counts.entry(s) == count_entry(a, s)
}

/// Token count of a file under a strategy.
fn cost_of(file: &ParsedFile, strategy: OutputStrategy) -> (res: usize)
    ensures
        res == cost(*file, strategy),
{
    file.strategies_data.token_count(&strategy)
}

/// Compute total tokens for the current assignments; `None` when the total
/// exceeds `usize::MAX`.
fn compute_total(parsed: &[ParsedFile], assignments: &Vec<OutputStrategy>) -> (res: Option<usize>)
    requires
        assignments@.len() == parsed@.len(),
    ensures
        match res {
            Some(n) => n == total(parsed@, assignments@),
            None => total(parsed@, assignments@) > usize::MAX,
        },
{
    let mut sum: usize = 0;
    let mut i: usize = 0;
    while i < assignments.len()
        invariant
            i <= parsed@.len(),
            assignments@.len() == parsed@.len(),
            sum == total_upto(parsed@, assignments@, i as int),
        decreases assignments.len() - i,
    {
        match sum.checked_add(cost_of(&parsed[i], assignments[i])) {
            Some(n) => {
                sum = n;
            },
            None => {
                proof {
                    lemma_total_upto_monotone(parsed@, assignments@, i + 1, parsed@.len() as int);
                }
                return None;
            },
        }
        i = i + 1;
    }
    Some(sum)
}

/// Total tokens of all files at Full; `None` when it exceeds `usize::MAX`.
fn compute_raw_total(parsed: &[ParsedFile]) -> (res: Option<usize>)
    ensures
        match res {
            Some(n) => n == raw_total(parsed@),
            None => raw_total(parsed@) > usize::MAX,
        },
{
    let ghost full = all_full(parsed@.len());
    let mut sum: usize = 0;
    let mut i: usize = 0;
    while i < parsed.len()
        invariant
            i <= parsed@.len(),
            full == all_full(parsed@.len()),
            sum == total_upto(parsed@, full, i as int),
        decreases parsed.len() - i,
    {
        match sum.checked_add(cost_of(&parsed[i], OutputStrategy::Full)) {
            Some(n) => {
                sum = n;
            },
            None => {
                proof {
                    lemma_total_upto_monotone(parsed@, full, i + 1, parsed@.len() as int);
                }
                return None;
            },
        }
        i = i + 1;
    }
    Some(sum)
}

/// Check if a file has test-related content (heuristic: its NoTests variant saves
/// tokens compared to Full).
fn has_test_content(parsed: &ParsedFile) -> (res: bool)
    ensures
        res == has_tests(*parsed),
{
    let full_tc = cost_of(parsed, OutputStrategy::Full);
    let notests_tc = cost_of(parsed, OutputStrategy::NoTests);
    notests_tc < full_tc
}

/// The file that the next degradation step acts on: the first degradable file in
/// degradation order (test content first, then larger current token count).
fn pick_candidate(
    parsed: &[ParsedFile],
    core: &Vec<bool>,
    assignments: &Vec<OutputStrategy>,
) -> (res: Option<usize>)
    requires
        assignments@.len() == parsed@.len(),
        core@.len() == parsed@.len(),
    ensures
        res matches Some(i) ==> pick(parsed@, core@, assignments@) == Some(i as int),
        res is None ==> pick(parsed@, core@, assignments@) is None,
{
    let mut best: Option<usize> = None;
    let mut i: usize = 0;
    while i < assignments.len()
        invariant
            i <= parsed@.len(),
            assignments@.len() == parsed@.len(),
            core@.len() == parsed@.len(),
            best matches Some(b) ==> best_upto(parsed@, core@, assignments@, i as int) == Some(b as int),
            best is None ==> best_upto(parsed@, core@, assignments@, i as int) is None,
        decreases assignments.len() - i,
    {
        let candidate = !core[i] && assignments[i] != OutputStrategy::Summary;
        if candidate {
            let better = match best {
                None => true,
                Some(j) => {
                    proof {
                        lemma_best_props(parsed@, core@, assignments@, i as int);
                    }
                    let i_tests = has_test_content(&parsed[i]);
                    let j_tests = has_test_content(&parsed[j]);
                    (i_tests && !j_tests) || (i_tests == j_tests && cost_of(
                        &parsed[i],
                        assignments[i],
                    ) > cost_of(&parsed[j], assignments[j]))
                },
            };
            if better {
                best = Some(i);
            }
        }
        i = i + 1;
    }
    best
}

/// Build the final `ScheduleResult` from the assignments.
fn build_result(
    parsed: &[ParsedFile],
    assignments: &Vec<OutputStrategy>,
    raw_tokens: usize,
) -> (res: ScheduleResult)
    requires
        assignments@.len() == parsed@.len(),
        total(parsed@, assignments@) <= usize::MAX,
        raw_tokens == raw_total(parsed@),
    ensures
        schedule_matches(parsed@, assignments@, res),
{
    let mut files: Vec<ScheduledFile> = Vec::new();
    let mut strategy_counts = StrategyCounts::new();
    let mut total_tokens: usize = 0;
    let mut i: usize = 0;
    while i < assignments.len()
        invariant
            i <= parsed@.len(),
            assignments@.len() == parsed@.len(),
            total(parsed@, assignments@) <= usize::MAX,
            files@.len() == i,
            forall|k: int|
                #![trigger files@[k]]
                0 <= k < i ==> {
                    &&& files@[k].parsed == parsed@[k]
                    &&& files@[k].strategy == assignments@[k]
                    &&& files@[k].rendered_tokens == cost(parsed@[k], assignments@[k])
                    &&& files@[k].saved_tokens == saturating_sub(
                        cost(parsed@[k], OutputStrategy::Full),
                        cost(parsed@[k], assignments@[k]),
                    )
                },
            total_tokens == total_upto(parsed@, assignments@, i as int),
            forall|s: OutputStrategy|
                #[trigger] strategy_counts.entry(s) == if count_upto(assignments@, s, i as int) > 0 {
                    Some(count_upto(assignments@, s, i as int) as usize)
                } else {
                    None
                },
            forall|s: OutputStrategy| #[trigger] count_upto(assignments@, s, i as int) <= i,
        decreases assignments.len() - i,
    {
        let strategy = assignments[i];
        let rendered_tokens = cost_of(&parsed[i], strategy);
        let full_tokens = cost_of(&parsed[i], OutputStrategy::Full);
        let saved_tokens = if full_tokens >= rendered_tokens {
            full_tokens - rendered_tokens
        } else {
            0
        };
        proof {
            assert(count_upto(assignments@, strategy, i as int) <= i);
            lemma_total_upto_monotone(parsed@, assignments@, i + 1, parsed@.len() as int);
        }
        strategy_counts.increment(strategy);
        files.push(
            ScheduledFile { parsed: parsed[i].clone(), strategy, rendered_tokens, saved_tokens },
        );
        total_tokens = total_tokens + rendered_tokens;
        i = i + 1;
        proof {
            assert forall|s: OutputStrategy| #[trigger] count_upto(assignments@, s, i as int) <= i by {
                assert(count_upto(assignments@, s, i - 1) <= i - 1);
            }
        }
    }
    ScheduleResult { files, total_tokens, raw_tokens, strategy_counts }
}

/// The core flags of the files, matched against the compiled core set.
fn core_flags_of(parsed: &[ParsedFile], core_set: &globset::GlobSet, patterns: Ghost<Seq<String>>) -> (res: Vec<bool>)
    requires
        set_globs(*core_set) == pattern_texts(patterns@),
    ensures
        res@ == core_flags(parsed@, patterns@),
{
    let mut core: Vec<bool> = Vec::new();
    let mut i: usize = 0;
    while i < parsed.len()
        invariant
            i <= parsed@.len(),
            set_globs(*core_set) == pattern_texts(patterns@),
            core@ == core_flags(parsed@, patterns@).take(i as int),
        decreases parsed.len() - i,
    {
        let flag = set_is_match(core_set, parsed[i].path.as_str());
        core.push(flag);
        i = i + 1;
        assert(core@ =~= core_flags(parsed@, patterns@).take(i as int));
    }
    assert(core@ =~= core_flags(parsed@, patterns@));
    core
}

/// The initial assignments: core files at Full, the others at the default strategy.
fn initial_assignments(core: &Vec<bool>, default: OutputStrategy) -> (res: Vec<OutputStrategy>)
    ensures
        res@ == initial(core@, default),
{
    let mut assignments: Vec<OutputStrategy> = Vec::new();
    let mut i: usize = 0;
    while i < core.len()
        invariant
            i <= core@.len(),
            assignments@ == initial(core@, default).take(i as int),
        decreases core.len() - i,
    {
        if core[i] {
            assignments.push(OutputStrategy::Full);
        } else {
            assignments.push(default);
        }
        i = i + 1;
        assert(assignments@ =~= initial(core@, default).take(i as int));
    }
    assert(assignments@ =~= initial(core@, default));
    assignments
}

fn budget_error(message: Vec<char>) -> (res: AstDocError)
    ensures
        res matches AstDocError::BudgetExceeded { message: m } && m@ == message@,
{
    AstDocError::BudgetExceeded { message: string_from(&message) }
}

/// The result of [`optimize`] on these inputs, as its contract states it.
pub open spec fn optimized(
    parsed: Seq<ParsedFile>,
    config: AstDocConfig,
    base_overhead_tokens: usize,
    res: Result<ScheduleResult, AstDocError>,
) -> bool {
        match scheduling(parsed, config, base_overhead_tokens as nat) {
            Scheduling::InvalidGlob => res matches Err(e) && e is InvalidGlob,
            Scheduling::BaseOverhead => res matches Err(AstDocError::BudgetExceeded { message })
                && message@ == base_overhead_message(
                base_overhead_tokens as nat,
                config.max_tokens as nat,
            ),
            Scheduling::Ran(Outcome::Fits(a)) => res matches Ok(r) && schedule_matches(
                parsed,
                a,
                r,
            ),
            Scheduling::Ran(Outcome::NothingToDegrade(t)) => res matches Err(
                AstDocError::BudgetExceeded { message },
            ) && message@ == minimum_message(
                t,
                (config.max_tokens - base_overhead_tokens) as nat,
            ),
            Scheduling::Overflow | Scheduling::Ran(Outcome::Overflow) => res matches Err(
                AstDocError::BudgetExceeded { message },
            ) && message@ == overflow_message(),
        }
}

fn overflow_error() -> (res: AstDocError)
    ensures
        res matches AstDocError::BudgetExceeded { message } && message@ == overflow_message(),
{
    AstDocError::BudgetExceeded {
        message: String::from_str("Token counts exceed the representable range"),
    }
}

/// Run the degradation optimizer.
///
/// Core files (those whose path a core pattern matches) start and stay at
/// Full; the others start at the default strategy. While the total exceeds
/// `max_tokens - base_overhead_tokens`, the optimizer degrades the first
/// degradable file in degradation order by one step (see [`run`]); a step that
/// saves nothing is followed by one more step of the same file, if it is not yet
/// at Summary. It fails with `InvalidGlob` when a core pattern does not compile,
/// and with `BudgetExceeded` when the base overhead reaches the budget, when every
/// file is at its minimum strategy and the total still exceeds the budget, or
/// when a total it computes exceeds `usize::MAX`.
pub fn optimize(
    parsed: &[ParsedFile],
    config: &AstDocConfig,
    base_overhead_tokens: usize,
) -> (res: Result<ScheduleResult, AstDocError>)
    ensures
        optimized(parsed@, *config, base_overhead_tokens, res),
        res matches Ok(r) ==> r.total_tokens + base_overhead_tokens <= config.max_tokens,
        res matches Ok(r) ==> forall|i: int|
            0 <= i < parsed@.len() && #[trigger] core_flags(parsed@, config.core_patterns@)[i]
                ==> r.files@[i].strategy == OutputStrategy::Full,
        res matches Ok(r) ==> forall|i: int|
            0 <= i < parsed@.len() && !#[trigger] core_flags(parsed@, config.core_patterns@)[i]
                ==> r.files@[i].strategy.level() >= config.default_strategy.level(),
{
    let core_set = match build_globset(config.core_patterns.as_slice()) {
        Ok(set) => set,
        Err(e) => {
            return Err(e);
        },
    };

    // 1. Check base overhead
    if base_overhead_tokens >= config.max_tokens {
        let mut message: Vec<char> = Vec::new();
        push_str(&mut message, "Base overhead (");
        push_decimal(&mut message, base_overhead_tokens);
        push_str(&mut message, " tokens) exceeds or equals budget (");
        push_decimal(&mut message, config.max_tokens);
        push_str(&mut message, ")");
        return Err(budget_error(message));
    }
    let remaining_budget = config.max_tokens - base_overhead_tokens;

    // 2. Assign initial strategies
    let core = core_flags_of(parsed, &core_set, Ghost(config.core_patterns@));
    let mut assignments = initial_assignments(&core, config.default_strategy);

    // 3. Compute initial total
    let raw_tokens = match compute_raw_total(parsed) {
        Some(n) => n,
        None => {
            return Err(overflow_error());
        },
    };
    let mut total_tokens = match compute_total(parsed, &assignments) {
        Some(n) => n,
        None => {
            return Err(overflow_error());
        },
    };

    let ghost files = parsed@;
    let ghost core_s = core@;
    let ghost start = assignments@;
    let ghost outcome = run(files, core_s, remaining_budget as nat, start);
    assert(scheduling(parsed@, *config, base_overhead_tokens as nat) == Scheduling::Ran(outcome));
    proof {
        lemma_run_laws(files, core_s, remaining_budget as nat, start);
    }

    // 4. Degradation loop
    while total_tokens > remaining_budget
        invariant
            files == parsed@,
            core@ == core_s,
            core_s.len() == files.len(),
            assignments@.len() == files.len(),
            total_tokens == total(files, assignments@),
            raw_tokens == raw_total(files),
            run(files, core_s, remaining_budget as nat, assignments@) == outcome,
            scheduling(parsed@, *config, base_overhead_tokens as nat) == Scheduling::Ran(outcome),
            remaining_budget == config.max_tokens - base_overhead_tokens,
        decreases rank_upto(assignments@, assignments@.len() as int),
    {
        let ghost before = assignments@;
        proof {
            lemma_best_props(files, core_s, before, before.len() as int);
        }
        match pick_candidate(parsed, &core, &assignments) {
            None => {
                let mut message: Vec<char> = Vec::new();
                push_str(&mut message, "All files at minimum strategy but still over budget: ");
                push_decimal(&mut message, total_tokens);
                push_str(&mut message, " > ");
                push_decimal(&mut message, remaining_budget);
                return Err(budget_error(message));
            },
            Some(idx) => {
                // Degrade the first candidate
                let current_strategy = assignments[idx];
                if let Some(next) = current_strategy.degrade() {
                    assignments.set(idx, next);
                }
                let new_total = match compute_total(parsed, &assignments) {
                    Some(n) => n,
                    None => {
                        return Err(overflow_error());
                    },
                };
                proof {
                    lemma_rank_update(before, idx as int, next_level(before[idx as int]), before.len() as int);
                }

                // Safety valve: if no reduction, force the file one more step
                if new_total == total_tokens {
                    let ghost middle = assignments@;
                    if let Some(min_strategy) = assignments[idx].degrade() {
                        assignments.set(idx, min_strategy);
                        proof {
                            lemma_rank_update(middle, idx as int, min_strategy, middle.len() as int);
                        }
                        total_tokens = match compute_total(parsed, &assignments) {
                            Some(n) => n,
                            None => {
                                return Err(overflow_error());
                            },
                        };
                    } else {
                        total_tokens = new_total;
                    }
                } else {
                    total_tokens = new_total;
                }
            },
        }
    }

    // 5. Build result
    let result = build_result(parsed, &assignments, raw_tokens);
    proof {
        assert forall|i: int| 0 <= i < parsed@.len() && #[trigger] core_flags(parsed@, config.core_patterns@)[i]
            implies result.files@[i].strategy == OutputStrategy::Full by {
            assert(core_s[i]);
        }
        assert forall|i: int| 0 <= i < parsed@.len() && !#[trigger] core_flags(parsed@, config.core_patterns@)[i]
            implies result.files@[i].strategy.level() >= config.default_strategy.level() by {
            assert(!core_s[i]);
            assert(start[i] == config.default_strategy);
        }
    }
    Ok(result)
}

/// What every run of the degradation loop keeps: an assignment it returns has the
/// same length, fits the budget, leaves core files at their strategy and only
/// ever degrades.
pub proof fn lemma_run_laws(
    files: Seq<ParsedFile>,
    core: Seq<bool>,
    budget: nat,
    a: Seq<OutputStrategy>,
)
    requires
        a.len() == files.len(),
        core.len() == files.len(),
    ensures
        run(files, core, budget, a) matches Outcome::Fits(b) ==> {
            &&& b.len() == a.len()
            &&& total(files, b) <= budget
            &&& forall|i: int| 0 <= i < a.len() && core[i] ==> #[trigger] b[i] == a[i]
            &&& forall|i: int| 0 <= i < a.len() ==> #[trigger] b[i].level() >= a[i].level()
        },
    decreases rank_upto(a, a.len() as int),
{
    let t = total(files, a);
    if t > budget {
        lemma_best_props(files, core, a, a.len() as int);
        if let Some(i) = pick(files, core, a) {
            let a1 = a.update(i, next_level(a[i]));
            lemma_rank_update(a, i, next_level(a[i]), a.len() as int);
            if total(files, a1) == t {
                if let Some(s2) = a1[i].spec_degrade() {
                    let a2 = a1.update(i, s2);
                    lemma_rank_update(a1, i, s2, a1.len() as int);
                    lemma_run_laws(files, core, budget, a2);
                    if let Outcome::Fits(b) = run(files, core, budget, a2) {
                        assert forall|j: int| 0 <= j < a.len() implies #[trigger] b[j].level() >= a[j].level() by {
                            assert(b[j].level() >= a2[j].level());
                        }
                        assert forall|j: int| 0 <= j < a.len() && core[j] implies #[trigger] b[j] == a[j] by {
                            assert(b[j] == a2[j]);
                        }
                    }
                } else {
                    lemma_run_laws(files, core, budget, a1);
                    if let Outcome::Fits(b) = run(files, core, budget, a1) {
                        assert forall|j: int| 0 <= j < a.len() implies #[trigger] b[j].level() >= a[j].level() by {
                            assert(b[j].level() >= a1[j].level());
                        }
                        assert forall|j: int| 0 <= j < a.len() && core[j] implies #[trigger] b[j] == a[j] by {
                            assert(b[j] == a1[j]);
                        }
                    }
                }
            } else {
                lemma_run_laws(files, core, budget, a1);
                if let Outcome::Fits(b) = run(files, core, budget, a1) {
                    assert forall|j: int| 0 <= j < a.len() implies #[trigger] b[j].level() >= a[j].level() by {
                        assert(b[j].level() >= a1[j].level());
                    }
                    assert forall|j: int| 0 <= j < a.len() && core[j] implies #[trigger] b[j] == a[j] by {
                        assert(b[j] == a1[j]);
                    }
                }
            }
        }
    }
}


/// The assignment in which every non-core file is at Summary and each core file
/// keeps its strategy in `a`.
pub open spec fn minimum(core: Seq<bool>, a: Seq<OutputStrategy>) -> Seq<OutputStrategy> {
    Seq::new(a.len(), |i: int| if core[i] { a[i] } else { OutputStrategy::Summary })
}

/// Every file's variants cost no more the further it is degraded.
pub open spec fn monotone_costs(files: Seq<ParsedFile>) -> bool {
    forall|k: int|
        #![trigger files[k]]
        0 <= k < files.len() ==> cost(files[k], OutputStrategy::Summary) <= cost(
            files[k],
            OutputStrategy::NoTests,
        ) && cost(files[k], OutputStrategy::NoTests) <= cost(files[k], OutputStrategy::Full)
}

/// A total is at most another when each file costs at most as much.
proof fn lemma_total_pointwise(
    files: Seq<ParsedFile>,
    a: Seq<OutputStrategy>,
    b: Seq<OutputStrategy>,
    n: int,
)
    requires
        forall|k: int| 0 <= k < n ==> cost(files[k], #[trigger] a[k]) <= cost(files[k], b[k]),
    ensures
        total_upto(files, a, n) <= total_upto(files, b, n),
    decreases n,
{
    if n > 0 {
        lemma_total_pointwise(files, a, b, n - 1);
    }
}

/// With monotone costs, a more degraded strategy of a file costs no more.
proof fn lemma_cost_by_level(files: Seq<ParsedFile>, k: int, s: OutputStrategy, t: OutputStrategy)
    requires
        monotone_costs(files),
        0 <= k < files.len(),
        s.level() >= t.level(),
    ensures
        cost(files[k], s) <= cost(files[k], t),
{
    assert(files[k] == files[k]);
}

/// What the degradation loop from `a` gives relative to the minimum assignment:
/// it runs out of files to degrade only with the minimum assignment's total over
/// the budget; and where costs shrink with degradation and the total of `a` fits
/// in a machine word, it never overflows and fits whenever the minimum does.
proof fn lemma_run_minimum(files: Seq<ParsedFile>, core: Seq<bool>, budget: nat, a: Seq<OutputStrategy>)
    requires
        a.len() == files.len(),
        core.len() == files.len(),
    ensures
        run(files, core, budget, a) matches Outcome::NothingToDegrade(t) ==> t == total(
            files,
            minimum(core, a),
        ) && t > budget,
        monotone_costs(files) && total(files, a) <= usize::MAX ==> !(run(
            files,
            core,
            budget,
            a,
        ) is Overflow),
        monotone_costs(files) && run(files, core, budget, a) is Fits ==> total(
            files,
            minimum(core, a),
        ) <= budget,
    decreases rank_upto(a, a.len() as int),
{
    lemma_run_laws(files, core, budget, a);
    if let Outcome::Fits(b) = run(files, core, budget, a) {
        if monotone_costs(files) {
            assert forall|k: int| 0 <= k < files.len() implies cost(
                files[k],
                #[trigger] minimum(core, a)[k],
            ) <= cost(files[k], b[k]) by {
                if !core[k] {
                    lemma_cost_by_level(files, k, OutputStrategy::Summary, b[k]);
                } else {
                    assert(b[k] == a[k]);
                }
            }
            lemma_total_pointwise(files, minimum(core, a), b, files.len() as int);
        }
    }
    let t = total(files, a);
    if t > budget {
        lemma_best_props(files, core, a, a.len() as int);
        match pick(files, core, a) {
            None => {
                assert forall|j: int| 0 <= j < a.len() implies #[trigger] minimum(core, a)[j] == a[j] by {
                    assert(!degradable(core, a, j));
                }
                assert(minimum(core, a) =~= a);
            },
            Some(i) => {
                let a1 = a.update(i, next_level(a[i]));
                lemma_rank_update(a, i, next_level(a[i]), a.len() as int);
                assert(minimum(core, a1) =~= minimum(core, a));
                if monotone_costs(files) {
                    assert forall|k: int| 0 <= k < files.len() implies cost(files[k], #[trigger] a1[k])
                        <= cost(files[k], a[k]) by {
                        lemma_cost_by_level(files, k, a1[k], a[k]);
                    }
                    lemma_total_pointwise(files, a1, a, files.len() as int);
                }
                if total(files, a1) <= usize::MAX {
                    if total(files, a1) == t {
                        if let Some(s2) = a1[i].spec_degrade() {
                            let a2 = a1.update(i, s2);
                            lemma_rank_update(a1, i, s2, a1.len() as int);
                            assert(minimum(core, a2) =~= minimum(core, a));
                            if monotone_costs(files) {
                                assert forall|k: int| 0 <= k < files.len() implies cost(
                                    files[k],
                                    #[trigger] a2[k],
                                ) <= cost(files[k], a1[k]) by {
                                    lemma_cost_by_level(files, k, a2[k], a1[k]);
                                }
                                lemma_total_pointwise(files, a2, a1, files.len() as int);
                            }
                            if total(files, a2) <= usize::MAX {
                                lemma_run_minimum(files, core, budget, a2);
                            }
                        } else {
                            lemma_run_minimum(files, core, budget, a1);
                        }
                    } else {
                        lemma_run_minimum(files, core, budget, a1);
                    }
                }
            },
        }
    }
}

/// Where every file's variants cost no more the further it is degraded, and the
/// files' Full total fits in a machine word, scheduling with valid core patterns
/// and a base overhead under the budget runs the degradation loop without
/// overflow, and it fails for want of budget exactly when the total with core
/// files at Full and all others at Summary exceeds the remaining budget.
pub proof fn lemma_budget_failure_iff_minimum_exceeds(
    parsed: Seq<ParsedFile>,
    config: AstDocConfig,
    base: nat,
)
    requires
        monotone_costs(parsed),
        raw_total(parsed) <= usize::MAX,
        globset_builds(config.core_patterns@),
        base < config.max_tokens,
    ensures
        scheduling(parsed, config, base) matches Scheduling::Ran(o) && !(o is Overflow) && (
        o is NothingToDegrade <==> total(
            parsed,
            minimum(
                core_flags(parsed, config.core_patterns@),
                initial(core_flags(parsed, config.core_patterns@), config.default_strategy),
            ),
        ) > config.max_tokens - base),
{
    let core = core_flags(parsed, config.core_patterns@);
    let start = initial(core, config.default_strategy);
    let budget = (config.max_tokens - base) as nat;
    assert forall|k: int| 0 <= k < parsed.len() implies cost(parsed[k], #[trigger] start[k]) <= cost(
        parsed[k],
        all_full(parsed.len())[k],
    ) by {
        lemma_cost_by_level(parsed, k, start[k], OutputStrategy::Full);
    }
    lemma_total_pointwise(parsed, start, all_full(parsed.len()), parsed.len() as int);
    lemma_run_minimum(parsed, core, budget, start);
    lemma_run_laws(parsed, core, budget, start);
}

} // verus!
