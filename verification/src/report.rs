//! The terminal optimization report.
//!
//! The savings percentage is a floating-point figure that the caller formats;
//! everything else in the report is computed here.

use vstd::prelude::*;
use crate::config::OutputStrategy;
use crate::scheduler::{ScheduleResult, ScheduledFile};
use crate::text::{decimal, push_decimal, push_str, string_from};

verus! {

/// The rendered tokens of the files scheduled with strategy `s`.
pub open spec fn strategy_tokens(files: Seq<ScheduledFile>, s: OutputStrategy) -> nat
    decreases files.len(),
{
    if files.len() == 0 {
        0
    } else {
        strategy_tokens(files.drop_last(), s) + if files.last().strategy == s {
            files.last().rendered_tokens as nat
        } else {
            0
        }
    }
}

/// The rendered tokens of each strategy add up to at most `usize::MAX`.
pub open spec fn strategy_totals_fit(files: Seq<ScheduledFile>) -> bool {
    &&& strategy_tokens(files, OutputStrategy::Full) <= usize::MAX
    &&& strategy_tokens(files, OutputStrategy::NoTests) <= usize::MAX
    &&& strategy_tokens(files, OutputStrategy::Summary) <= usize::MAX
}

/// The tokens of a strategy over a prefix are at most those over the whole list.
proof fn lemma_strategy_tokens_prefix(files: Seq<ScheduledFile>, s: OutputStrategy, n: int)
    requires
        0 <= n <= files.len(),
    ensures
        strategy_tokens(files.take(n), s) <= strategy_tokens(files, s),
    decreases files.len(),
{
    if n < files.len() {
        assert(files.drop_last().take(n) =~= files.take(n));
        lemma_strategy_tokens_prefix(files.drop_last(), s, n);
    } else {
        assert(files.take(n) =~= files);
    }
}

/// The number of files counted for a strategy, 0 when it has no entry.
pub open spec fn strategy_count(result: ScheduleResult, s: OutputStrategy) -> nat {
    match result.strategy_counts.entry(s) {
        Some(c) => c as nat,
        None => 0,
    }
}

/// The breakdown line of a strategy.
pub open spec fn breakdown_line(result: ScheduleResult, s: OutputStrategy) -> Seq<char> {
    "    "@ + s.spec_name() + ":     "@ + decimal(strategy_count(result, s)) + " files ("@ + decimal(
        strategy_tokens(result.files@, s),
    ) + " tokens)\n"@
}

/// The text of the report, given the savings percentage as formatted text.
pub open spec fn report_text(result: ScheduleResult, max_tokens: usize, savings: Seq<char>) -> Seq<char> {
    let within = result.total_tokens <= max_tokens;
    "\u{1f4ca} Optimization Report\n"@ + "\u{2500}\u{2500}\u{2500}\u{2500}\u{2500}\u{2500}\u{2500}\u{2500}\u{2500}\u{2500}\u{2500}\u{2500}\u{2500}\u{2500}\u{2500}\u{2500}\u{2500}\u{2500}\u{2500}\u{2500}\u{2500}\u{2500}\u{2500}\u{2500}\u{2500}\n"@
        + "  Total files: "@ + decimal(result.files@.len()) + "\n"@ + "  Raw tokens: "@ + decimal(
        result.raw_tokens as nat,
    ) + "  \u{2192}  Final tokens: "@ + decimal(result.total_tokens as nat) + "\n"@ + "  Savings: "@
        + savings + "%\n"@ + "\n"@ + "  Strategy breakdown:\n"@ + breakdown_line(
        result,
        OutputStrategy::Full,
    ) + breakdown_line(result, OutputStrategy::NoTests) + breakdown_line(result, OutputStrategy::Summary)
        + "\n"@ + "  Budget: "@ + (if within {
        "\u{1f7e2} within budget"@
    } else {
        "\u{1f534} exceeded"@
    }) + " ("@ + decimal(result.total_tokens as nat) + "/"@ + decimal(max_tokens as nat) + " tokens)"@
}

/// The rendered tokens of the files scheduled with a strategy; `None` when they
/// add up to more than `usize::MAX`.
fn tokens_for(files: &Vec<ScheduledFile>, s: OutputStrategy) -> (res: Option<usize>)
    ensures
        match res {
            Some(n) => n == strategy_tokens(files@, s),
            None => strategy_tokens(files@, s) > usize::MAX,
        },
{
    let mut sum: usize = 0;
    let mut i: usize = 0;
    while i < files.len()
        invariant
            i <= files@.len(),
            sum == strategy_tokens(files@.take(i as int), s),
        decreases files.len() - i,
    {
        proof {
            assert(files@.take(i + 1).drop_last() =~= files@.take(i as int));
        }
        if files[i].strategy == s {
            match sum.checked_add(files[i].rendered_tokens) {
                Some(next) => {
                    sum = next;
                },
                None => {
                    proof {
                        lemma_strategy_tokens_prefix(files@, s, i + 1);
                    }
                    return None;
                },
            }
        }
        i = i + 1;
    }
    assert(files@.take(i as int) =~= files@);
    Some(sum)
}

/// Append the breakdown line of a strategy.
fn push_breakdown(buf: &mut Vec<char>, result: &ScheduleResult, s: OutputStrategy)
    requires
        strategy_tokens(result.files@, s) <= usize::MAX,
    ensures
        final(buf)@ == old(buf)@ + breakdown_line(*result, s),
{
    let count = match result.strategy_counts.get(&s) {
        Some(c) => c,
        None => 0,
    };
    let tokens = match tokens_for(&result.files, s) {
        Some(n) => n,
        None => 0,
    };
    push_str(buf, "    ");
    push_str(buf, s.as_str());
    push_str(buf, ":     ");
    push_decimal(buf, count);
    push_str(buf, " files (");
    push_decimal(buf, tokens);
    push_str(buf, " tokens)\n");
    assert(buf@ =~= old(buf)@ + breakdown_line(*result, s));
}

/// Format the optimization report, given the savings percentage as text (one
/// decimal place).
pub fn format_report_with(result: &ScheduleResult, max_tokens: usize, savings: &str) -> (res: String)
    requires
        strategy_totals_fit(result.files@),
    ensures
        res@ == report_text(*result, max_tokens, savings@),
{
    let mut buf: Vec<char> = Vec::new();
    push_str(&mut buf, "\u{1f4ca} Optimization Report\n");
    push_str(
        &mut buf,
        "\u{2500}\u{2500}\u{2500}\u{2500}\u{2500}\u{2500}\u{2500}\u{2500}\u{2500}\u{2500}\u{2500}\u{2500}\u{2500}\u{2500}\u{2500}\u{2500}\u{2500}\u{2500}\u{2500}\u{2500}\u{2500}\u{2500}\u{2500}\u{2500}\u{2500}\n",
    );
    push_str(&mut buf, "  Total files: ");
    push_decimal(&mut buf, result.files.len());
    push_str(&mut buf, "\n");
    push_str(&mut buf, "  Raw tokens: ");
    push_decimal(&mut buf, result.raw_tokens);
    push_str(&mut buf, "  \u{2192}  Final tokens: ");
    push_decimal(&mut buf, result.total_tokens);
    push_str(&mut buf, "\n");
    push_str(&mut buf, "  Savings: ");
    push_str(&mut buf, savings);
    push_str(&mut buf, "%\n");
    push_str(&mut buf, "\n");
    push_str(&mut buf, "  Strategy breakdown:\n");
    push_breakdown(&mut buf, result, OutputStrategy::Full);
    push_breakdown(&mut buf, result, OutputStrategy::NoTests);
    push_breakdown(&mut buf, result, OutputStrategy::Summary);
    push_str(&mut buf, "\n");
    push_str(&mut buf, "  Budget: ");
    if result.total_tokens <= max_tokens {
        push_str(&mut buf, "\u{1f7e2} within budget");
    } else {
        push_str(&mut buf, "\u{1f534} exceeded");
    }
    push_str(&mut buf, " (");
    push_decimal(&mut buf, result.total_tokens);
    push_str(&mut buf, "/");
    push_decimal(&mut buf, max_tokens);
    push_str(&mut buf, " tokens)");
    assert(buf@ =~= report_text(*result, max_tokens, savings@));
    string_from(&buf)
}

/// Whether the rendered tokens of each strategy add up to at most `usize::MAX`.
pub fn strategy_totals_fit_check(files: &Vec<ScheduledFile>) -> (res: bool)
    ensures
        res == strategy_totals_fit(files@),
{
    tokens_for(files, OutputStrategy::Full).is_some() && tokens_for(files, OutputStrategy::NoTests).is_some()
        && tokens_for(files, OutputStrategy::Summary).is_some()
}

} // verus!
