//! llms.txt markdown assembly.
//!
//! Assembles the final markdown output from scheduled files, directory tree,
//! and git context, then applies the anti-bloat rules (compress blank lines,
//! trim trailing whitespace).

use vstd::prelude::*;
use crate::config::OutputStrategy;
use crate::ingestion::{GitContext, IngestionResult};
use crate::parser::Language;
use crate::scheduler::{ScheduleResult, ScheduledFile, StrategyCounts};
use crate::paths::{components, path_components};
use crate::text::{
    chars_of, decimal, is_space, lemma_find_char, lemma_find_char_first, lemma_lines_no_newline,
    lemma_trim_end, lines, push_decimal, push_str, seq_equal, string_from, trim_end,
    trimmed_end, rfind_char, lemma_rfind_char, after_last, find_char,
};

verus! {

// ---------------------------------------------------------------------------
// Anti-bloat rules
// ---------------------------------------------------------------------------

/// The output of the line pass over `ls`: each line trimmed at its end and
/// followed by `'\n'`, a blank line that follows a blank line dropped. Also
/// whether the last line kept was blank.
pub open spec fn bloat_fold(ls: Seq<Seq<char>>) -> (Seq<char>, bool)
    decreases ls.len(),
{
    if ls.len() == 0 {
        (Seq::empty(), false)
    } else {
        let (out, prev_blank) = bloat_fold(ls.drop_last());
        let t = trim_end(ls.last());
        let blank = t.len() == 0;
        if blank && prev_blank {
            (out, prev_blank)
        } else {
            (out + t + seq!['\n'], blank)
        }
    }
}

/// The text with the final `'\n'` removed while it ends with two of them.
pub open spec fn strip_trailing_newlines(s: Seq<char>) -> Seq<char>
    decreases s.len(),
{
    if s.len() >= 2 && s[s.len() - 1] == '\n' && s[s.len() - 2] == '\n' {
        strip_trailing_newlines(s.drop_last())
    } else {
        s
    }
}

/// The anti-bloat rewrite of a text: trailing whitespace trimmed from each
/// line, runs of blank lines compressed to one, a single final newline.
pub open spec fn anti_bloat(text: Seq<char>) -> Seq<char> {
    strip_trailing_newlines(bloat_fold(lines(text)).0)
}

/// No three consecutive newlines, i.e. never two blank lines in a row.
pub open spec fn no_blank_runs(s: Seq<char>) -> bool {
    forall|i: int|
        0 <= i && i + 2 < s.len() ==> !(#[trigger] s[i] == '\n' && s[i + 1] == '\n' && s[i + 2]
            == '\n')
}

/// No line ends in whitespace: the character before a newline is a newline or
/// not whitespace.
pub open spec fn no_trailing_space(s: Seq<char>) -> bool {
    forall|i: int|
        0 <= i && i + 1 < s.len() && #[trigger] s[i + 1] == '\n' ==> (s[i] == '\n' || !is_space(
            s[i],
        ))
}

/// The text is empty or ends with exactly one newline.
pub open spec fn ends_with_one_newline(s: Seq<char>) -> bool {
    s.len() == 0 || (s.last() == '\n' && !(s.len() >= 2 && s[s.len() - 2] == '\n'))
}

/// The text does not start with a blank line followed by another.
pub open spec fn no_leading_blank_run(s: Seq<char>) -> bool {
    !(s.len() >= 2 && s[0] == '\n' && s[1] == '\n')
}

spec fn fold_clean(out: Seq<char>, prev_blank: bool) -> bool {
    &&& no_blank_runs(out)
    &&& no_trailing_space(out)
    &&& out.len() > 0 ==> out.last() == '\n'
    &&& !prev_blank ==> !(out.len() >= 2 && out[out.len() - 2] == '\n')
    &&& out.len() == 1 ==> prev_blank
    &&& no_leading_blank_run(out)
}

proof fn lemma_fold_clean(ls: Seq<Seq<char>>)
    requires
        forall|i: int, j: int| 0 <= i < ls.len() && 0 <= j < ls[i].len() ==> #[trigger] ls[i][j] != '\n',
    ensures
        fold_clean(bloat_fold(ls).0, bloat_fold(ls).1),
    decreases ls.len(),
{
    if ls.len() > 0 {
        let prefix = ls.drop_last();
        assert forall|i: int, j: int| 0 <= i < prefix.len() && 0 <= j < prefix[i].len() implies #[trigger] prefix[i][j] != '\n' by {
            assert(prefix[i] == ls[i]);
        }
        lemma_fold_clean(prefix);
        let (out, prev_blank) = bloat_fold(prefix);
        let line = ls.last();
        let t = trim_end(line);
        lemma_trim_end(line);
        assert forall|j: int| 0 <= j < t.len() implies t[j] != '\n' by {
            assert(t[j] == line[j]);
            assert(ls[ls.len() - 1][j] != '\n');
        }
        let blank = t.len() == 0;
        if !(blank && prev_blank) {
            let out2 = out + t + seq!['\n'];
            assert(out2.last() == '\n');
            assert forall|i: int|
                0 <= i && i + 2 < out2.len() implies !(#[trigger] out2[i] == '\n' && out2[i + 1] == '\n'
                && out2[i + 2] == '\n') by {
                if i + 2 < out.len() {
                    assert(out2[i] == out[i] && out2[i + 1] == out[i + 1] && out2[i + 2] == out[i + 2]);
                } else if t.len() > 0 {
                    if i + 2 == out2.len() - 1 {
                        assert(out2[i + 1] == t.last());
                    } else {
                        assert(out2[i + 2] == t[i + 2 - out.len()]);
                    }
                } else {
                    assert(i + 2 == out.len());
                    assert(out2[i] == out[out.len() - 2]);
                }
            }
            assert forall|i: int|
                0 <= i && i + 1 < out2.len() && #[trigger] out2[i + 1] == '\n' implies (out2[i] == '\n'
                || !is_space(out2[i])) by {
                if i + 1 < out.len() {
                    assert(out2[i] == out[i] && out2[i + 1] == out[i + 1]);
                } else if i + 1 < out.len() + t.len() {
                    assert(out2[i + 1] == t[i + 1 - out.len()]);
                } else if t.len() > 0 {
                    assert(out2[i] == t.last());
                } else {
                    assert(out2[i] == out.last());
                }
            }
            if !blank {
                assert(out2[out2.len() - 2] == t.last());
            }
            if out.len() >= 2 {
                assert(out2[0] == out[0] && out2[1] == out[1]);
            } else if out.len() == 1 {
                assert(out2[1] == t[0]);
            } else if t.len() > 0 {
                assert(out2[0] == t[0]);
            }
        }
    }
}

proof fn lemma_strip_clean(s: Seq<char>)
    requires
        no_blank_runs(s),
        no_trailing_space(s),
        s.len() > 0 ==> s.last() == '\n',
        no_leading_blank_run(s),
    ensures
        no_blank_runs(strip_trailing_newlines(s)),
        no_trailing_space(strip_trailing_newlines(s)),
        ends_with_one_newline(strip_trailing_newlines(s)),
        no_leading_blank_run(strip_trailing_newlines(s)),
    decreases s.len(),
{
    if s.len() >= 2 && s[s.len() - 1] == '\n' && s[s.len() - 2] == '\n' {
        let d = s.drop_last();
        assert forall|i: int|
            0 <= i && i + 2 < d.len() implies !(#[trigger] d[i] == '\n' && d[i + 1] == '\n' && d[i + 2]
            == '\n') by {
            assert(d[i] == s[i] && d[i + 1] == s[i + 1] && d[i + 2] == s[i + 2]);
        }
        assert forall|i: int|
            0 <= i && i + 1 < d.len() && #[trigger] d[i + 1] == '\n' implies (d[i] == '\n' || !is_space(
            d[i],
        )) by {
            assert(d[i] == s[i] && d[i + 1] == s[i + 1]);
        }
        if d.len() >= 2 {
            assert(d[0] == s[0] && d[1] == s[1]);
        }
        lemma_strip_clean(d);
    }
}

/// The anti-bloat rewrite never leaves two blank lines in a row, never leaves
/// trailing whitespace on a line, and ends with exactly one newline.
pub proof fn lemma_anti_bloat_clean(text: Seq<char>)
    ensures
        no_blank_runs(anti_bloat(text)),
        no_trailing_space(anti_bloat(text)),
        ends_with_one_newline(anti_bloat(text)),
{
    lemma_anti_bloat_shape(text);
}

proof fn lemma_anti_bloat_shape(text: Seq<char>)
    ensures
        no_blank_runs(anti_bloat(text)),
        no_trailing_space(anti_bloat(text)),
        ends_with_one_newline(anti_bloat(text)),
        no_leading_blank_run(anti_bloat(text)),
{
    lemma_lines_no_newline(text);
    lemma_fold_clean(lines(text));
    lemma_strip_clean(bloat_fold(lines(text)).0);
}

/// The lines of a text that ends a line, followed by one more line.
proof fn lemma_lines_push(p: Seq<char>, l: Seq<char>)
    requires
        p.len() == 0 || p.last() == '\n',
        forall|j: int| 0 <= j < l.len() ==> l[j] != '\n',
    ensures
        lines(p + l + seq!['\n']) == lines(p).push(l),
    decreases p.len(),
{
    let s = p + l + seq!['\n'];
    if p.len() == 0 {
        lemma_find_char_first(s, '\n', l.len() as int);
        assert(s.take(l.len() as int) =~= l);
        assert(s.skip(l.len() as int + 1) =~= Seq::<char>::empty());
        assert(lines(p) =~= Seq::<Seq<char>>::empty());
        let e = s.skip(l.len() as int + 1);
        assert(lines(e) =~= Seq::<Seq<char>>::empty());
        assert(lines(s) == seq![s.take(l.len() as int)] + lines(e));
        assert(lines(s) =~= seq![l]);
    } else {
        lemma_find_char(p, '\n', 0);
        let k = find_char(p, '\n', 0)->0;
        lemma_find_char_first(s, '\n', k);
        let rest = p.skip(k + 1);
        assert(s.take(k) =~= p.take(k));
        assert(s.skip(k + 1) =~= rest + l + seq!['\n']);
        lemma_lines_push(rest, l);
        assert(lines(s) =~= lines(p).push(l));
    }
}

/// The last line of a text is blank.
spec fn blank_end(s: Seq<char>) -> bool {
    s.len() > 0 && (s.len() == 1 || s[s.len() - 2] == '\n')
}

/// Folding the lines of a text that is already clean gives the text back.
proof fn lemma_fold_identity(s: Seq<char>)
    requires
        no_blank_runs(s),
        no_trailing_space(s),
        s.len() > 0 ==> s.last() == '\n',
        no_leading_blank_run(s),
    ensures
        bloat_fold(lines(s)) == (s, blank_end(s)),
    decreases s.len(),
{
    if s.len() > 0 {
        let n = s.len() as int;
        lemma_rfind_char(s, '\n', n - 1);
        let start = match rfind_char(s, '\n', n - 1) {
            Some(j) => j + 1,
            None => 0,
        };
        let p = s.take(start);
        let l = s.subrange(start, n - 1);
        assert(s =~= p + l + seq!['\n']);
        lemma_lines_push(p, l);
        assert forall|i: int| 0 <= i && i + 2 < p.len() implies !(#[trigger] p[i] == '\n' && p[i + 1]
            == '\n' && p[i + 2] == '\n') by {
            assert(p[i] == s[i] && p[i + 1] == s[i + 1] && p[i + 2] == s[i + 2]);
        }
        assert forall|i: int| 0 <= i && i + 1 < p.len() && #[trigger] p[i + 1] == '\n' implies (p[i]
            == '\n' || !is_space(p[i])) by {
            assert(p[i] == s[i] && p[i + 1] == s[i + 1]);
        }
        if p.len() >= 2 {
            assert(p[0] == s[0] && p[1] == s[1]);
        }
        lemma_fold_identity(p);
        let ls = lines(s);
        assert(ls.drop_last() =~= lines(p));
        assert(ls.last() == l);
        if l.len() > 0 {
            assert(s[n - 2] == l.last());
            let i = n - 2;
            assert(0 <= i && i + 1 < s.len() && s[i + 1] == '\n');
            assert(s[i] == '\n' || !is_space(s[i]));
            assert(!is_space(l.last()));
        }
        assert(trim_end(l) == l);
        if l.len() == 0 && blank_end(p) {
            if p.len() == 1 {
                assert(s[0] == '\n' && s[1] == '\n');
            } else {
                assert(s[p.len() - 2] == '\n' && s[p.len() - 1] == '\n' && s[p.len() as int] == '\n');
            }
        }
        assert(p + l + seq!['\n'] =~= s);
        if l.len() > 0 {
            assert(s[n - 2] == l.last());
        }
    }
}

/// Applying the anti-bloat rewrite to its own output changes nothing.
pub proof fn lemma_anti_bloat_idempotent(text: Seq<char>)
    ensures
        anti_bloat(anti_bloat(text)) == anti_bloat(text),
{
    let c = anti_bloat(text);
    lemma_anti_bloat_shape(text);
    lemma_fold_identity(c);
    assert(strip_trailing_newlines(c) == c);
}

/// The anti-bloat rewrite of a non-empty text is not empty.
pub proof fn lemma_anti_bloat_nonempty(text: Seq<char>)
    requires
        text.len() > 0,
    ensures
        anti_bloat(text).len() > 0,
{
    lemma_find_char(text, '\n', 0);
    assert(lines(text).len() > 0);
    lemma_fold_nonempty(lines(text));
    lemma_strip_nonempty(bloat_fold(lines(text)).0);
}

proof fn lemma_fold_nonempty(ls: Seq<Seq<char>>)
    ensures
        ls.len() > 0 ==> bloat_fold(ls).0.len() > 0,
    decreases ls.len(),
{
    if ls.len() > 0 {
        let prefix = ls.drop_last();
        lemma_fold_nonempty(prefix);
        if prefix.len() == 0 {
            assert(bloat_fold(prefix) == (Seq::<char>::empty(), false));
        }
        let (out, prev_blank) = bloat_fold(prefix);
        let t = trim_end(ls.last());
        if !(t.len() == 0 && prev_blank) {
            assert((out + t + seq!['\n']).len() > 0);
        }
    }
}

proof fn lemma_strip_nonempty(s: Seq<char>)
    ensures
        s.len() > 0 ==> strip_trailing_newlines(s).len() > 0,
    decreases s.len(),
{
    if s.len() >= 2 && s[s.len() - 1] == '\n' && s[s.len() - 2] == '\n' {
        lemma_strip_nonempty(s.drop_last());
    }
}

proof fn lemma_lines_step(s: Seq<char>, start: int, i: int)
    requires
        0 <= start <= i < s.len(),
        s[i] == '\n',
        forall|k: int| start <= k < i ==> s[k] != '\n',
    ensures
        lines(s.skip(start)) == seq![s.subrange(start, i)] + lines(s.skip(i + 1)),
{
    let t = s.skip(start);
    lemma_find_char_first(t, '\n', i - start);
    assert(t.take(i - start) =~= s.subrange(start, i));
    assert(t.skip(i - start + 1) =~= s.skip(i + 1));
}

proof fn lemma_lines_last(s: Seq<char>, start: int)
    requires
        0 <= start <= s.len(),
        forall|k: int| start <= k < s.len() ==> s[k] != '\n',
    ensures
        start < s.len() ==> lines(s.skip(start)) == seq![s.subrange(start, s.len() as int)],
        start == s.len() ==> lines(s.skip(start)) == Seq::<Seq<char>>::empty(),
{
    let t = s.skip(start);
    lemma_find_char(t, '\n', 0);
    assert(t =~= s.subrange(start, s.len() as int));
}

/// Push the line `text[start..end]`, trimmed, unless it is a second blank line in a row.
fn push_line(
    result: &mut Vec<char>,
    prev_blank: &mut bool,
    text: &Vec<char>,
    start: usize,
    end: usize,
    done: Ghost<Seq<Seq<char>>>,
)
    requires
        start <= end <= text@.len(),
        (old(result)@, *old(prev_blank)) == bloat_fold(done@),
    ensures
        (final(result)@, *final(prev_blank)) == bloat_fold(
            done@.push(text@.subrange(start as int, end as int)),
        ),
{
    let ghost line = text@.subrange(start as int, end as int);
    assert(done@.push(line).drop_last() =~= done@);
    let t_end = trimmed_end(text, start, end);
    let blank = t_end == start;
    if blank && *prev_blank {
        return;
    }
    let mut k = start;
    while k < t_end
        invariant
            start <= k <= t_end <= end <= text@.len(),
            result@ == old(result)@ + text@.subrange(start as int, k as int),
        decreases t_end - k,
    {
        result.push(text[k]);
        k = k + 1;
        assert(result@ =~= old(result)@ + text@.subrange(start as int, k as int));
    }
    result.push('\n');
    *prev_blank = blank;
}

/// Apply the anti-bloat rules to a rendered text.
fn apply_anti_bloat(text: &Vec<char>) -> (res: Vec<char>)
    ensures
        res@ == anti_bloat(text@),
        anti_bloat(res@) == res@,
{
    proof {
        lemma_anti_bloat_idempotent(text@);
    }
    let mut result: Vec<char> = Vec::new();
    let mut prev_blank = false;
    let ghost mut done: Seq<Seq<char>> = Seq::empty();
    let mut start: usize = 0;
    let mut i: usize = 0;
    proof {
        assert(text@.skip(0) =~= text@);
    }
    while i < text.len()
        invariant
            start <= i <= text@.len(),
            forall|k: int| start <= k < i ==> text@[k] != '\n',
            lines(text@) == done + lines(text@.skip(start as int)),
            (result@, prev_blank) == bloat_fold(done),
        decreases text.len() - i,
    {
        if text[i] == '\n' {
            proof {
                lemma_lines_step(text@, start as int, i as int);
                assert(done + lines(text@.skip(start as int)) =~= done.push(
                    text@.subrange(start as int, i as int),
                ) + lines(text@.skip(i + 1)));
            }
            push_line(&mut result, &mut prev_blank, text, start, i, Ghost(done));
            proof {
                done = done.push(text@.subrange(start as int, i as int));
            }
            start = i + 1;
        }
        i = i + 1;
    }
    proof {
        lemma_lines_last(text@, start as int);
    }
    if start < text.len() {
        proof {
            assert(done + lines(text@.skip(start as int)) =~= done.push(
                text@.subrange(start as int, text@.len() as int),
            ));
        }
        push_line(&mut result, &mut prev_blank, text, start, text.len(), Ghost(done));
        proof {
            done = done.push(text@.subrange(start as int, text@.len() as int));
        }
    } else {
        assert(done + lines(text@.skip(start as int)) =~= done);
    }
    assert(done == lines(text@));
    // Ensure the text ends with a single newline (no trailing blank lines)
    while result.len() >= 2 && result[result.len() - 1] == '\n' && result[result.len() - 2] == '\n'
        invariant
            strip_trailing_newlines(result@) == strip_trailing_newlines(bloat_fold(lines(text@)).0),
        decreases result.len(),
    {
        result.pop();
    }
    result
}

// ---------------------------------------------------------------------------
// Directory tree annotation
// ---------------------------------------------------------------------------

/// The first index at or after `from` of an entry for the path.
pub open spec fn find_entry(entries: Seq<(Seq<char>, OutputStrategy)>, path: Seq<char>, from: int) -> Option<int>
    decreases entries.len() - from,
{
    if from < 0 || from >= entries.len() {
        None
    } else if entries[from].0 == path {
        Some(from)
    } else {
        find_entry(entries, path, from + 1)
    }
}

/// The path-to-strategy entries of the scheduled files, one per distinct path in
/// order of first appearance, holding the strategy of the last file with that path.
pub open spec fn path_entries(files: Seq<ScheduledFile>) -> Seq<(Seq<char>, OutputStrategy)>
    decreases files.len(),
{
    if files.len() == 0 {
        Seq::empty()
    } else {
        let e = path_entries(files.drop_last());
        let f = files.last();
        match find_entry(e, f.parsed.path@, 0) {
            Some(k) => e.update(k, (f.parsed.path@, f.strategy)),
            None => e.push((f.parsed.path@, f.strategy)),
        }
    }
}

/// A tree line labelled with a strategy: its last `[...]` annotation replaced,
/// or the label appended.
pub open spec fn labelled(line: Seq<char>, strategy: OutputStrategy) -> Seq<char> {
    match rfind_char(line, '[', line.len() as int) {
        Some(b) => line.take(b) + "["@ + strategy.spec_name() + "]"@,
        None => line + " ["@ + strategy.spec_name() + "]"@,
    }
}

/// The position just after the first `── ` branch marker of a tree line at or
/// after `from`.
pub open spec fn branch_end(line: Seq<char>, from: int) -> Option<int>
    decreases line.len() - from,
{
    if from < 0 || from + 3 > line.len() {
        None
    } else if line[from] == '─' && line[from + 1] == '─' && line[from + 2] == ' ' {
        Some(from + 3)
    } else {
        branch_end(line, from + 1)
    }
}

/// The label of a tree line: what follows its branch marker, or the whole line
/// (the root).
pub open spec fn tree_label(line: Seq<char>) -> Seq<char> {
    match branch_end(line, 0) {
        Some(k) => line.skip(k),
        None => line,
    }
}

/// The name that a label gives: the label without its trailing ` [...]`
/// annotation, if it has one.
pub open spec fn label_name(label: Seq<char>) -> Seq<char> {
    match rfind_char(label, '[', label.len() as int) {
        Some(b) => if b >= 1 && label[b - 1] == ' ' && label.last() == ']' {
            label.take(b - 1)
        } else {
            label
        },
        None => label,
    }
}

/// The name of the file or directory that a tree line shows.
pub open spec fn line_name(line: Seq<char>) -> Seq<char> {
    label_name(tree_label(line))
}

/// The depth of a tree line below the root's children: the number of
/// four-character groups before its branch glyph.
pub open spec fn line_depth(line: Seq<char>) -> int {
    match branch_end(line, 0) {
        Some(k) => if k >= 4 {
            (k - 4) / 4
        } else {
            0
        },
        None => 0,
    }
}

/// The path components of the node that a tree line shows, given those of the
/// nodes last seen at each depth: its ancestors', then its own name.
pub open spec fn line_components(line: Seq<char>, stack: Seq<Seq<char>>) -> Seq<Seq<char>> {
    let d = line_depth(line);
    (if d <= stack.len() {
        stack.take(d)
    } else {
        stack
    }).push(line_name(line))
}

/// A tree line annotated with the strategy of the first entry (from `k` on)
/// whose path has the components `comps` of the node the line shows; unchanged
/// when there is none.
pub open spec fn annotate_from(
    line: Seq<char>,
    comps: Seq<Seq<char>>,
    entries: Seq<(Seq<char>, OutputStrategy)>,
    k: int,
) -> Seq<char>
    decreases entries.len() - k,
{
    if k < 0 || k >= entries.len() {
        line
    } else if path_components(entries[k].0) == comps {
        labelled(line, entries[k].1)
    } else {
        annotate_from(line, comps, entries, k + 1)
    }
}

/// The annotated lines, each trimmed at its end and followed by a newline, and
/// the path components of the nodes last seen at each depth. The root line is
/// kept as it is; every other line is labelled by the path of the node it shows.
pub open spec fn annotate_state(ls: Seq<Seq<char>>, entries: Seq<(Seq<char>, OutputStrategy)>) -> (
    Seq<char>,
    Seq<Seq<char>>,
)
    decreases ls.len(),
{
    if ls.len() == 0 {
        (Seq::empty(), Seq::empty())
    } else {
        let prev = annotate_state(ls.drop_last(), entries);
        let line = trim_end(ls.last());
        if branch_end(line, 0) is None {
            (prev.0 + line + seq!['\n'], prev.1)
        } else {
            let comps = line_components(line, prev.1);
            (prev.0 + annotate_from(line, comps, entries, 0) + seq!['\n'], comps)
        }
    }
}

/// The annotated lines (see [`annotate_state`]).
pub open spec fn annotate_lines(ls: Seq<Seq<char>>, entries: Seq<(Seq<char>, OutputStrategy)>) -> Seq<char> {
    annotate_state(ls, entries).0
}

/// The directory tree with each file line labelled by its strategy.
pub open spec fn annotated_tree(tree: Seq<char>, files: Seq<ScheduledFile>) -> Seq<char> {
    annotate_lines(lines(tree), path_entries(files))
}

/// A path of the tree annotation map with its strategy.
struct PathEntry {
    path: Vec<char>,
    strategy: OutputStrategy,
}

spec fn entries_view(v: Seq<PathEntry>) -> Seq<(Seq<char>, OutputStrategy)> {
    v.map_values(|e: PathEntry| (e.path@, e.strategy))
}

proof fn lemma_find_entry(entries: Seq<(Seq<char>, OutputStrategy)>, path: Seq<char>, from: int)
    requires
        0 <= from,
    ensures
        find_entry(entries, path, from) matches Some(k) ==> from <= k < entries.len() && entries[k].0
            == path && forall|j: int| from <= j < k ==> entries[j].0 != path,
        find_entry(entries, path, from) is None ==> forall|j: int|
            from <= j < entries.len() ==> entries[j].0 != path,
    decreases entries.len() - from,
{
    if from < entries.len() && entries[from].0 != path {
        lemma_find_entry(entries, path, from + 1);
    }
}

fn find_entry_index(entries: &Vec<PathEntry>, path: &Vec<char>) -> (res: Option<usize>)
    ensures
        res matches Some(k) ==> find_entry(entries_view(entries@), path@, 0) == Some(k as int),
        res is None ==> find_entry(entries_view(entries@), path@, 0) is None,
{
    let ghost view = entries_view(entries@);
    let mut i: usize = 0;
    while i < entries.len()
        invariant
            i <= entries@.len(),
            view == entries_view(entries@),
            forall|j: int| 0 <= j < i ==> view[j].0 != path@,
        decreases entries.len() - i,
    {
        assert(view[i as int] == (entries@[i as int].path@, entries@[i as int].strategy));
        if seq_equal(entries[i].path.as_slice(), path.as_slice()) {
            proof {
                lemma_find_entry(view, path@, 0);
                let f = find_entry(view, path@, 0);
                if let Some(k) = f {
                    assert(k == i);
                }
            }
            return Some(i);
        }
        i = i + 1;
    }
    proof {
        lemma_find_entry(view, path@, 0);
    }
    None
}

fn build_entries(files: &Vec<ScheduledFile>) -> (res: Vec<PathEntry>)
    ensures
        entries_view(res@) == path_entries(files@),
{
    let mut entries: Vec<PathEntry> = Vec::new();
    let mut i: usize = 0;
    while i < files.len()
        invariant
            i <= files@.len(),
            entries_view(entries@) == path_entries(files@.take(i as int)),
        decreases files.len() - i,
    {
        let path = chars_of(files[i].parsed.path.as_str());
        let strategy = files[i].strategy;
        let ghost prev = entries_view(entries@);
        proof {
            assert(files@.take(i + 1).drop_last() =~= files@.take(i as int));
            assert(prev.len() == entries@.len());
            lemma_find_entry(prev, path@, 0);
        }
        match find_entry_index(&entries, &path) {
            Some(k) => {
                entries.set(k, PathEntry { path, strategy });
                assert(entries_view(entries@) =~= prev.update(k as int, (files@[i as int].parsed.path@, strategy)));
            },
            None => {
                entries.push(PathEntry { path, strategy });
                assert(entries_view(entries@) =~= prev.push((files@[i as int].parsed.path@, strategy)));
            },
        }
        i = i + 1;
    }
    assert(files@.take(i as int) =~= files@);
    entries
}

/// Append `s[from..to]` to `out`.
fn push_range(out: &mut Vec<char>, s: &Vec<char>, from: usize, to: usize)
    requires
        from <= to <= s@.len(),
    ensures
        final(out)@ == old(out)@ + s@.subrange(from as int, to as int),
{
    let mut k = from;
    while k < to
        invariant
            from <= k <= to <= s@.len(),
            out@ == old(out)@ + s@.subrange(from as int, k as int),
        decreases to - k,
    {
        out.push(s[k]);
        k = k + 1;
        assert(out@ =~= old(out)@ + s@.subrange(from as int, k as int));
    }
}

/// Append the line labelled with a strategy.
fn push_labelled(out: &mut Vec<char>, line: &Vec<char>, strategy: OutputStrategy)
    ensures
        final(out)@ == old(out)@ + labelled(line@, strategy),
{
    let after = after_last(line, '[');
    proof {
        lemma_rfind_char(line@, '[', line@.len() as int);
    }
    if after > 0 {
        push_range(out, line, 0, after - 1);
        push_str(out, "[");
        push_str(out, strategy.as_str());
        push_str(out, "]");
        assert(line@.subrange(0, after - 1) =~= line@.take(after - 1));
        assert(out@ =~= old(out)@ + labelled(line@, strategy));
    } else {
        push_range(out, line, 0, line.len());
        push_str(out, " [");
        push_str(out, strategy.as_str());
        push_str(out, "]");
        assert(line@.subrange(0, line@.len() as int) =~= line@);
        assert(out@ =~= old(out)@ + labelled(line@, strategy));
    }
}

/// The position just after the branch marker of a tree line (see [`branch_end`]).
fn branch_marker_end(line: &Vec<char>) -> (res: Option<usize>)
    ensures
        match res {
            Some(k) => branch_end(line@, 0) == Some(k as int) && k <= line@.len(),
            None => branch_end(line@, 0) is None,
        },
{
    if line.len() < 3 {
        return None;
    }
    let mut i: usize = 0;
    while i <= line.len() - 3
        invariant
            line@.len() >= 3,
            i <= line@.len() - 2,
            branch_end(line@, 0) == branch_end(line@, i as int),
        decreases line.len() - i,
    {
        if line[i] == '─' && line[i + 1] == '─' && line[i + 2] == ' ' {
            return Some(i + 3);
        }
        i = i + 1;
    }
    None
}

/// The name that a tree line shows (see [`line_name`]).
fn shown_name(line: &Vec<char>) -> (res: Vec<char>)
    ensures
        res@ == line_name(line@),
{
    let start = match branch_marker_end(line) {
        Some(k) => k,
        None => 0,
    };
    let mut label: Vec<char> = Vec::new();
    push_range(&mut label, line, start, line.len());
    assert(label@ =~= tree_label(line@)) by {
        if branch_end(line@, 0) is None {
            assert(line@.subrange(0, line@.len() as int) =~= line@);
        } else {
            assert(line@.subrange(start as int, line@.len() as int) =~= line@.skip(start as int));
        }
    }
    let after = after_last(&label, '[');
    proof {
        lemma_rfind_char(label@, '[', label@.len() as int);
    }
    if after >= 2 && label[after - 2] == ' ' && label[label.len() - 1] == ']' {
        let mut name: Vec<char> = Vec::new();
        push_range(&mut name, &label, 0, after - 2);
        assert(name@ =~= label@.take(after - 2));
        name
    } else {
        label
    }
}

/// Whether a list of components (as character vectors) equals another (as strings).
fn comps_equal(a: &Vec<Vec<char>>, b: &Vec<String>) -> (res: bool)
    ensures
        res == (stack_view(a@) == comps_view(*b)),
{
    let ghost av = a@.map_values(|v: Vec<char>| v@);
    let ghost bv = b@.map_values(|c: String| c@);
    if a.len() != b.len() {
        assert(av.len() != bv.len());
        return false;
    }
    let mut i: usize = 0;
    while i < a.len()
        invariant
            i <= a@.len(),
            a@.len() == b@.len(),
            av == a@.map_values(|v: Vec<char>| v@),
            bv == b@.map_values(|c: String| c@),
            forall|j: int| 0 <= j < i ==> av[j] == bv[j],
        decreases a.len() - i,
    {
        let bc = chars_of(b[i].as_str());
        if !seq_equal(a[i].as_slice(), bc.as_slice()) {
            assert(av[i as int] != bv[i as int]);
            return false;
        }
        i = i + 1;
    }
    assert(av =~= bv);
    true
}

/// The components held as strings, as character sequences.
spec fn comps_view(v: Vec<String>) -> Seq<Seq<char>> {
    v@.map_values(|c: String| c@)
}

/// The character vectors' view of a stack of components.
spec fn stack_view(v: Seq<Vec<char>>) -> Seq<Seq<char>> {
    v.map_values(|c: Vec<char>| c@)
}

/// Append a tree line annotated with the strategy of the first entry whose path
/// has the components `comps`.
fn push_annotated(
    out: &mut Vec<char>,
    line: &Vec<char>,
    comps: &Vec<Vec<char>>,
    entries: &Vec<PathEntry>,
    entry_comps: &Vec<Vec<String>>,
)
    requires
        entry_comps@.len() == entries@.len(),
        forall|k: int| 0 <= k < entry_comps@.len() ==> #[trigger] comps_view(entry_comps@[k]) == path_components(entries@[k].path@),
    ensures
        final(out)@ == old(out)@ + annotate_from(line@, stack_view(comps@), entries_view(entries@), 0),
{
    let ghost view = entries_view(entries@);
    let ghost cv = stack_view(comps@);
    let mut k: usize = 0;
    while k < entries.len()
        invariant
            k <= entries@.len(),
            entry_comps@.len() == entries@.len(),
            forall|j: int| 0 <= j < entry_comps@.len() ==> #[trigger] comps_view(entry_comps@[j]) == path_components(entries@[j].path@),
            view == entries_view(entries@),
            cv == stack_view(comps@),
            annotate_from(line@, cv, view, 0) == annotate_from(line@, cv, view, k as int),
            out@ == old(out)@,
        decreases entries.len() - k,
    {
        if comps_equal(comps, &entry_comps[k]) {
            push_labelled(out, line, entries[k].strategy);
            return;
        }
        k = k + 1;
    }
    push_range(out, line, 0, line.len());
    assert(line@.subrange(0, line@.len() as int) =~= line@);
}

/// Append the annotated line `text[start..end]` (trimmed) and a newline, and
/// update the components of the nodes last seen at each depth.
fn push_annotated_line(
    result: &mut Vec<char>,
    stack: &mut Vec<Vec<char>>,
    text: &Vec<char>,
    start: usize,
    end: usize,
    entries: &Vec<PathEntry>,
    entry_comps: &Vec<Vec<String>>,
    done: Ghost<Seq<Seq<char>>>,
)
    requires
        start <= end <= text@.len(),
        entry_comps@.len() == entries@.len(),
        forall|k: int| 0 <= k < entry_comps@.len() ==> #[trigger] comps_view(entry_comps@[k]) == path_components(entries@[k].path@),
        old(result)@ == annotate_state(done@, entries_view(entries@)).0,
        stack_view(old(stack)@) == annotate_state(done@, entries_view(entries@)).1,
    ensures
        final(result)@ == annotate_state(
            done@.push(text@.subrange(start as int, end as int)),
            entries_view(entries@),
        ).0,
        stack_view(final(stack)@) == annotate_state(
            done@.push(text@.subrange(start as int, end as int)),
            entries_view(entries@),
        ).1,
{
    let ghost line = text@.subrange(start as int, end as int);
    let t_end = trimmed_end(text, start, end);
    let mut trimmed: Vec<char> = Vec::new();
    push_range(&mut trimmed, text, start, t_end);
    assert(trimmed@ =~= text@.subrange(start as int, t_end as int));
    assert(done@.push(line).drop_last() =~= done@);
    match branch_marker_end(&trimmed) {
        None => {
            push_range(result, &trimmed, 0, trimmed.len());
            assert(trimmed@.subrange(0, trimmed@.len() as int) =~= trimmed@);
            result.push('\n');
        },
        Some(k) => {
            let d: usize = if k >= 4 {
                (k - 4) / 4
            } else {
                0
            };
            let name = shown_name(&trimmed);
            let ghost before = stack_view(stack@);
            if d <= stack.len() {
                stack.truncate(d);
                assert(stack_view(stack@) =~= before.take(d as int));
            }
            stack.push(name);
            assert(stack_view(stack@) =~= line_components(trimmed@, before));
            push_annotated(result, &trimmed, stack, entries, entry_comps);
            result.push('\n');
        },
    }
}

/// Annotate the directory tree with the strategy label of each file.
fn annotate_directory_tree(tree: &str, files: &Vec<ScheduledFile>) -> (res: Vec<char>)
    ensures
        res@ == annotated_tree(tree@, files@),
{
    let text = chars_of(tree);
    let entries = build_entries(files);
    let mut entry_comps: Vec<Vec<String>> = Vec::new();
    let mut n: usize = 0;
    while n < entries.len()
        invariant
            n <= entries@.len(),
            entry_comps@.len() == n,
            forall|k: int| 0 <= k < n ==> #[trigger] comps_view(entry_comps@[k])
                == path_components(entries@[k].path@),
        decreases entries.len() - n,
    {
        let p = string_from(&entries[n].path);
        entry_comps.push(components(p.as_str()));
        n = n + 1;
    }
    let ghost es = entries_view(entries@);
    let mut result: Vec<char> = Vec::new();
    let mut stack: Vec<Vec<char>> = Vec::new();
    let ghost mut done: Seq<Seq<char>> = Seq::empty();
    let mut start: usize = 0;
    let mut i: usize = 0;
    proof {
        assert(text@.skip(0) =~= text@);
        assert(stack_view(stack@) =~= Seq::<Seq<char>>::empty());
    }
    while i < text.len()
        invariant
            start <= i <= text@.len(),
            forall|k: int| start <= k < i ==> text@[k] != '\n',
            lines(text@) == done + lines(text@.skip(start as int)),
            result@ == annotate_state(done, es).0,
            stack_view(stack@) == annotate_state(done, es).1,
            entry_comps@.len() == entries@.len(),
            forall|k: int| 0 <= k < entry_comps@.len() ==> #[trigger] comps_view(entry_comps@[k]) == path_components(entries@[k].path@),
            es == entries_view(entries@),
        decreases text.len() - i,
    {
        if text[i] == '\n' {
            proof {
                lemma_lines_step(text@, start as int, i as int);
                assert(done + lines(text@.skip(start as int)) =~= done.push(
                    text@.subrange(start as int, i as int),
                ) + lines(text@.skip(i + 1)));
            }
            push_annotated_line(&mut result, &mut stack, &text, start, i, &entries, &entry_comps, Ghost(done));
            proof {
                done = done.push(text@.subrange(start as int, i as int));
            }
            start = i + 1;
        }
        i = i + 1;
    }
    proof {
        lemma_lines_last(text@, start as int);
    }
    if start < text.len() {
        proof {
            assert(done + lines(text@.skip(start as int)) =~= done.push(
                text@.subrange(start as int, text@.len() as int),
            ));
        }
        push_annotated_line(&mut result, &mut stack, &text, start, text.len(), &entries, &entry_comps, Ghost(done));
        proof {
            done = done.push(text@.subrange(start as int, text@.len() as int));
        }
    } else {
        assert(done + lines(text@.skip(start as int)) =~= done);
    }
    result
}

// ---------------------------------------------------------------------------
// Document assembly
// ---------------------------------------------------------------------------

/// The names of the strategies that some file uses, in the order Full, NoTests,
/// Summary.
pub open spec fn used_modes(counts: StrategyCounts) -> Seq<Seq<char>> {
    (if counts.entry(OutputStrategy::Full) is Some { seq!["Full"@] } else { Seq::empty() }) + (
    if counts.entry(OutputStrategy::NoTests) is Some {
        seq!["NoTests"@]
    } else {
        Seq::empty()
    }) + (if counts.entry(OutputStrategy::Summary) is Some {
        seq!["Summary (signatures only)"@]
    } else {
        Seq::empty()
    })
}

/// The parts joined with a separator between consecutive parts.
pub open spec fn join(parts: Seq<Seq<char>>, sep: Seq<char>) -> Seq<char>
    decreases parts.len(),
{
    if parts.len() == 0 {
        Seq::empty()
    } else if parts.len() == 1 {
        parts[0]
    } else {
        join(parts.drop_last(), sep) + sep + parts.last()
    }
}

/// The note line on the modes used.
pub open spec fn modes_line(counts: StrategyCounts) -> Seq<char> {
    let modes = used_modes(counts);
    if modes.len() == 0 {
        "> No source files were included in the output.\n\n"@
    } else {
        "> Files are presented in "@ + join(modes, ", "@) + " mode"@ + (if modes.len() == 1 {
            ""@
        } else {
            "s"@
        }) + ".\n\n"@
    }
}

/// The header: title, optional description and the note on the modes used.
pub open spec fn header(counts: StrategyCounts, project_name: Seq<char>, description: Seq<char>) -> Seq<char> {
    "# Repository: "@ + project_name + "\n\n"@ + (if description.len() > 0 {
        "> "@ + description + "\n"@
    } else {
        Seq::empty()
    }) + "> Note: This codebase has been optimized using AST trimming to fit token limits.\n"@
        + modes_line(counts) + "## Structure & Symbol Index\n\n"@
}

/// The directory tree section (absent for an empty tree).
pub open spec fn tree_section(tree: Seq<char>, files: Seq<ScheduledFile>) -> Seq<char> {
    if tree.len() > 0 {
        "### Directory Tree\n\n"@ + annotated_tree(tree, files) + "\n"@
    } else {
        Seq::empty()
    }
}

/// The git context section (absent without git context).
pub open spec fn git_section(git: Option<GitContext>) -> Seq<char> {
    match git {
        Some(g) => "### Git Context\n\n"@ + "- **Branch**: "@ + g.branch@ + "\n"@
            + "- **Latest Commit**: "@ + g.latest_commit@ + "\n"@ + (match g.diff {
            Some(d) => "- **Uncommitted Changes**: "@ + d@ + "\n"@,
            None => Seq::empty(),
        }) + "\n"@,
        None => Seq::empty(),
    }
}

/// The markdown code-fence language of a language.
pub open spec fn fence(lang: Language) -> Seq<char> {
    match lang {
        Language::Rust => "rust"@,
        Language::Python => "python"@,
        Language::TypeScript => "typescript"@,
        Language::Go => "go"@,
        Language::C => "c"@,
        Language::Generic(name) => name@,
    }
}

/// The section of one scheduled file: header, annotation line, and the
/// content of its strategy in a code block when the file has that variant.
pub open spec fn file_section(f: ScheduledFile) -> Seq<char> {
    "### File: "@ + f.parsed.path@ + "\n\n"@ + "*Strategy: "@ + f.strategy.spec_name()
        + " | Tokens: "@ + decimal(f.rendered_tokens as nat) + " (Saved: "@ + decimal(
        f.saved_tokens as nat,
    ) + ")*\n\n"@ + match f.parsed.strategies_data.entry(f.strategy) {
        Some(data) => "```"@ + fence(f.parsed.language) + "\n"@ + data.content@ + (if data.content@.len()
            > 0 && data.content@.last() == '\n' {
            Seq::empty()
        } else {
            "\n"@
        }) + "```\n\n"@,
        None => Seq::empty(),
    }
}

/// The sections of the scheduled files, in order.
pub open spec fn file_sections(files: Seq<ScheduledFile>) -> Seq<char>
    decreases files.len(),
{
    if files.len() == 0 {
        Seq::empty()
    } else {
        file_sections(files.drop_last()) + file_section(files.last())
    }
}

/// The document before the anti-bloat rewrite.
pub open spec fn render_buffer(
    scheduled: ScheduleResult,
    ingestion: IngestionResult,
    project_name: Seq<char>,
    description: Seq<char>,
) -> Seq<char> {
    header(scheduled.strategy_counts, project_name, description) + tree_section(
        ingestion.directory_tree@,
        scheduled.files@,
    ) + git_section(ingestion.git_context) + "---\n\n"@ + "## Source Files\n\n"@ + file_sections(
        scheduled.files@,
    )
}

fn push_modes_line(out: &mut Vec<char>, counts: &StrategyCounts)
    ensures
        final(out)@ == old(out)@ + modes_line(*counts),
{
    let mut used: usize = 0;
    let ghost mut names: Seq<Seq<char>> = Seq::empty();
    let mut modes: Vec<char> = Vec::new();
    if counts.contains_key(&OutputStrategy::Full) {
        push_str(&mut modes, "Full");
        used = used + 1;
        proof {
            names = names.push("Full"@);
        }
    }
    assert(modes@ == join(names, ", "@));
    if counts.contains_key(&OutputStrategy::NoTests) {
        if used > 0 {
            push_str(&mut modes, ", ");
        }
        push_str(&mut modes, "NoTests");
        used = used + 1;
        proof {
            assert(names.push("NoTests"@).drop_last() =~= names);
            names = names.push("NoTests"@);
        }
    }
    assert(modes@ =~= join(names, ", "@));
    if counts.contains_key(&OutputStrategy::Summary) {
        if used > 0 {
            push_str(&mut modes, ", ");
        }
        push_str(&mut modes, "Summary (signatures only)");
        used = used + 1;
        proof {
            assert(names.push("Summary (signatures only)"@).drop_last() =~= names);
            names = names.push("Summary (signatures only)"@);
        }
    }
    assert(modes@ =~= join(names, ", "@));
    assert(names =~= used_modes(*counts));
    assert(used == names.len());
    if used == 0 {
        push_str(out, "> No source files were included in the output.\n\n");
    } else {
        push_str(out, "> Files are presented in ");
        out.append(&mut modes);
        push_str(out, " mode");
        if used != 1 {
            push_str(out, "s");
            assert(out@ =~= old(out)@ + "> Files are presented in "@ + join(names, ", "@) + " mode"@ + "s"@);
        } else {
            proof {
                reveal_strlit("");
            }
            assert(out@ =~= old(out)@ + "> Files are presented in "@ + join(names, ", "@) + " mode"@ + ""@);
        }
        push_str(out, ".\n\n");
    }
    assert(out@ =~= old(out)@ + modes_line(*counts));
}

fn push_header(out: &mut Vec<char>, counts: &StrategyCounts, project_name: &str, description: &str)
    ensures
        final(out)@ == old(out)@ + header(*counts, project_name@, description@),
{
    push_str(out, "# Repository: ");
    push_str(out, project_name);
    push_str(out, "\n\n");
    if !description.is_empty() {
        push_str(out, "> ");
        push_str(out, description);
        push_str(out, "\n");
    }
    push_str(out, "> Note: This codebase has been optimized using AST trimming to fit token limits.\n");
    push_modes_line(out, counts);
    push_str(out, "## Structure & Symbol Index\n\n");
    assert(out@ =~= old(out)@ + header(*counts, project_name@, description@));
}

fn push_git_section(out: &mut Vec<char>, git: &Option<GitContext>)
    ensures
        final(out)@ == old(out)@ + git_section(*git),
{
    if let Some(git) = git {
        push_str(out, "### Git Context\n\n");
        push_str(out, "- **Branch**: ");
        push_str(out, git.branch.as_str());
        push_str(out, "\n");
        push_str(out, "- **Latest Commit**: ");
        push_str(out, git.latest_commit.as_str());
        push_str(out, "\n");
        if let Some(diff) = &git.diff {
            push_str(out, "- **Uncommitted Changes**: ");
            push_str(out, diff.as_str());
            push_str(out, "\n");
        }
        push_str(out, "\n");
    }
    assert(out@ =~= old(out)@ + git_section(*git));
}

/// Get the markdown fence language identifier for a `Language`.
fn language_fence(lang: &Language) -> (res: &str)
    ensures
        res@ == fence(*lang),
{
    match lang {
        Language::Rust => "rust",
        Language::Python => "python",
        Language::TypeScript => "typescript",
        Language::Go => "go",
        Language::C => "c",
        Language::Generic(name) => name.as_str(),
    }
}

/// Render a single file section into the buffer.
#[verifier::spinoff_prover]
#[verifier::rlimit(40)]
fn render_file(buf: &mut Vec<char>, file: &ScheduledFile)
    ensures
        final(buf)@ == old(buf)@ + file_section(*file),
{
    push_str(buf, "### File: ");
    push_str(buf, file.parsed.path.as_str());
    push_str(buf, "\n\n");
    push_str(buf, "*Strategy: ");
    push_str(buf, file.strategy.as_str());
    push_str(buf, " | Tokens: ");
    push_decimal(buf, file.rendered_tokens);
    push_str(buf, " (Saved: ");
    push_decimal(buf, file.saved_tokens);
    push_str(buf, ")*\n\n");
    let ghost mid = buf@;
    // Get the content for the assigned strategy
    if let Some(strategy_data) = file.parsed.strategies_data.get(&file.strategy) {
        let lang = language_fence(&file.parsed.language);
        push_str(buf, "```");
        push_str(buf, lang);
        push_str(buf, "\n");
        let content = chars_of(strategy_data.content.as_str());
        let n = content.len();
        let ends_with_newline = n > 0 && content[n - 1] == '\n';
        push_str(buf, strategy_data.content.as_str());
        if !ends_with_newline {
            push_str(buf, "\n");
        }
        push_str(buf, "```\n\n");
    }
    assert(buf@ =~= old(buf)@ + file_section(*file));
}

/// Render the llms.txt markdown from scheduled files and ingestion data.
///
/// The document holds a header, the directory tree annotated with strategies,
/// the git context and a section per scheduled file; the anti-bloat rules then
/// compress consecutive blank lines and trim trailing whitespace.
pub fn render(
    scheduled: &ScheduleResult,
    ingestion: &IngestionResult,
    project_name: &str,
    description: &str,
) -> (res: String)
    ensures
        res@ == anti_bloat(render_buffer(*scheduled, *ingestion, project_name@, description@)),
        res@.len() > 0,
        anti_bloat(res@) == res@,
        no_blank_runs(res@),
        no_trailing_space(res@),
        ends_with_one_newline(res@),
{
    let mut buf: Vec<char> = Vec::new();
    push_header(&mut buf, &scheduled.strategy_counts, project_name, description);

    // Directory tree
    if !ingestion.directory_tree.as_str().is_empty() {
        push_str(&mut buf, "### Directory Tree\n\n");
        let mut tree = annotate_directory_tree(ingestion.directory_tree.as_str(), &scheduled.files);
        buf.append(&mut tree);
        push_str(&mut buf, "\n");
    }

    // Git context
    push_git_section(&mut buf, &ingestion.git_context);

    // Source files
    push_str(&mut buf, "---\n\n");
    push_str(&mut buf, "## Source Files\n\n");
    let ghost before_files = buf@;
    let mut i: usize = 0;
    while i < scheduled.files.len()
        invariant
            i <= scheduled.files@.len(),
            buf@ == before_files + file_sections(scheduled.files@.take(i as int)),
        decreases scheduled.files.len() - i,
    {
        render_file(&mut buf, &scheduled.files[i]);
        proof {
            assert(scheduled.files@.take(i + 1).drop_last() =~= scheduled.files@.take(i as int));
        }
        i = i + 1;
        assert(buf@ =~= before_files + file_sections(scheduled.files@.take(i as int)));
    }
    assert(scheduled.files@.take(i as int) =~= scheduled.files@);
    assert(buf@ =~= render_buffer(*scheduled, *ingestion, project_name@, description@));

    // Apply anti-bloat rules
    let out = apply_anti_bloat(&buf);
    proof {
        lemma_anti_bloat_clean(buf@);
        reveal_strlit("# Repository: ");
        assert(buf@.len() >= "# Repository: "@.len());
        lemma_anti_bloat_nonempty(buf@);
        lemma_anti_bloat_idempotent(buf@);
    }
    string_from(&out)
}

} // verus!
