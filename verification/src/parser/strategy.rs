//! Strategy engine: byte-range slicing for the NoTests and Summary modes.
//!
//! Given a source string and removal ranges, produces the transformed output
//! of each strategy variant by slicing the source at byte offsets.

use vstd::prelude::*;
use vstd::string::StringExecFns;
use vstd::string::StringSliceAdditionalSpecFns;
use vstd::utf8::*;
use crate::config::OutputStrategy;
use crate::parser::{StrategyData, StrategyTable};
use crate::tokens::{cl100k_token_count, compute_token_count};
use crate::text::{is_subseq, lemma_subseq_concat, lemma_subseq_refl};

verus! {

broadcast use vstd::utf8::group_utf8_lib;

/// Reason a byte range is marked for removal.
#[derive(Debug, Clone, Copy, PartialEq, Eq, Structural)]
pub enum RemovalReason {
    /// A `#[cfg(test)]` module (Rust) or equivalent test module.
    TestModule,
    /// A test function/method (e.g., `#[test]`, `def test_*`, `func Test*`).
    TestFunction,
    /// Implementation body to be replaced with a marker (Summary mode).
    Implementation,
}

/// A byte range in source to be removed or replaced.
#[derive(Debug, Clone, Copy)]
pub struct RemovalRange {
    /// Start byte offset (inclusive).
    pub start: usize,
    /// End byte offset (exclusive).
    pub end: usize,
    /// Why this range is being removed.
    pub reason: RemovalReason,
}

/// Which removal ranges a splice pass acts on.
pub enum SpliceMode {
    /// Ranges of test modules and test functions (NoTests mode).
    Tests,
    /// Every range: test code and implementation bodies (Summary mode).
    Summary,
}

/// Whether a pass in the given mode acts on a range with the given reason.
pub open spec fn selects(mode: SpliceMode, reason: RemovalReason) -> bool {
    match mode {
        SpliceMode::Tests => reason == RemovalReason::TestModule || reason
            == RemovalReason::TestFunction,
        SpliceMode::Summary => true,
    }
}

/// The marker text that replaces a removed range with the given reason.
pub open spec fn marker(reason: RemovalReason) -> Seq<char> {
    match reason {
        RemovalReason::Implementation => "// ✂️ implementations omitted"@,
        _ => "// ✂️ test module omitted\n"@,
    }
}

/// The characters of the byte range `[start, end)` of a UTF-8 byte sequence.
pub open spec fn slice_chars(bytes: Seq<u8>, start: int, end: int) -> Seq<char> {
    decode_utf8(bytes.subrange(start, end))
}

/// The output built so far and the end offset of the removed text, after a
/// left-to-right pass over `ranges`: a selected range that starts before the end
/// of the removed text is absorbed into it (extending it if it reaches further);
/// any other selected range keeps the text up to its start, then, when `marked`,
/// writes the marker of its reason.
pub open spec fn splice_state_marked(
    bytes: Seq<u8>,
    ranges: Seq<RemovalRange>,
    mode: SpliceMode,
    marked: bool,
) -> (Seq<char>, int)
    decreases ranges.len(),
{
    if ranges.len() == 0 {
        (Seq::empty(), 0)
    } else {
        let prev = splice_state_marked(bytes, ranges.drop_last(), mode, marked);
        let r = ranges.last();
        if selects(mode, r.reason) {
            if r.start < prev.1 {
                (prev.0, if r.end > prev.1 { r.end as int } else { prev.1 })
            } else {
                let kept = if r.start > prev.1 {
                    slice_chars(bytes, prev.1, r.start as int)
                } else {
                    Seq::empty()
                };
                (prev.0 + kept + if marked { marker(r.reason) } else { Seq::empty() }, r.end as int)
            }
        } else {
            prev
        }
    }
}

/// The output built so far and the end offset of the removed text, after a
/// left-to-right pass over `ranges`.
pub open spec fn splice_state(
    bytes: Seq<u8>,
    ranges: Seq<RemovalRange>,
    mode: SpliceMode,
) -> (Seq<char>, int) {
    splice_state_marked(bytes, ranges, mode, true)
}

/// Every slice taken by a pass over `ranges` lies on character boundaries.
pub open spec fn splice_slices_ok(bytes: Seq<u8>, ranges: Seq<RemovalRange>, mode: SpliceMode) -> bool
    decreases ranges.len(),
{
    if ranges.len() == 0 {
        true
    } else {
        let prev = splice_state(bytes, ranges.drop_last(), mode);
        let r = ranges.last();
        &&& splice_slices_ok(bytes, ranges.drop_last(), mode)
        &&& (selects(mode, r.reason) && r.start > prev.1) ==> (is_char_boundary(bytes, prev.1)
            && is_char_boundary(bytes, r.start as int))
    }
}

/// The source with each selected range replaced by its marker (when `marked`);
/// text between removed ranges is kept, and text inside one never reappears.
pub open spec fn splice_marked(bytes: Seq<u8>, ranges: Seq<RemovalRange>, mode: SpliceMode, marked: bool) -> Seq<char> {
    let st = splice_state_marked(bytes, ranges, mode, marked);
    if st.1 < bytes.len() {
        st.0 + slice_chars(bytes, st.1, bytes.len() as int)
    } else {
        st.0
    }
}

/// The source with each selected range replaced by the marker of its reason.
pub open spec fn splice(bytes: Seq<u8>, ranges: Seq<RemovalRange>, mode: SpliceMode) -> Seq<char> {
    splice_marked(bytes, ranges, mode, true)
}

/// What a pass keeps of the source: its output with the markers taken out.
pub open spec fn kept_text(bytes: Seq<u8>, ranges: Seq<RemovalRange>, mode: SpliceMode) -> Seq<char> {
    splice_marked(bytes, ranges, mode, false)
}

/// The inputs on which a splice pass takes no slice off a character boundary.
pub open spec fn splice_ok(bytes: Seq<u8>, ranges: Seq<RemovalRange>, mode: SpliceMode) -> bool {
    let st = splice_state(bytes, ranges, mode);
    &&& splice_slices_ok(bytes, ranges, mode)
    &&& st.1 < bytes.len() ==> is_char_boundary(bytes, st.1)
}

proof fn lemma_boundary_in_suffix(bytes: Seq<u8>, a: int, b: int)
    requires
        valid_utf8(bytes),
        0 <= a <= b <= bytes.len(),
        is_char_boundary(bytes, a),
        is_char_boundary(bytes, b),
    ensures
        valid_utf8(bytes.subrange(a, bytes.len() as int)),
        is_char_boundary(bytes.subrange(a, bytes.len() as int), b - a),
{
    let tail = bytes.subrange(a, bytes.len() as int);
    assert(valid_utf8(tail));
    if b < bytes.len() {
        assert(tail[b - a] == bytes[b]);
        assert(is_char_boundary(bytes, b) <==> !is_continuation_byte(bytes[b]));
        assert(is_char_boundary(tail, b - a) <==> !is_continuation_byte(tail[b - a]));
    } else {
        assert(is_char_boundary(tail, tail.len() as int));
    }
}

/// The substring of `s` between the byte offsets `start` and `end`.
pub fn byte_slice(s: &str, start: usize, end: usize) -> (res: &str)
    requires
        start <= end,
        is_char_boundary(s.spec_bytes(), start as int),
        is_char_boundary(s.spec_bytes(), end as int),
    ensures
        res.spec_bytes() == s.spec_bytes().subrange(start as int, end as int),
        res@ == slice_chars(s.spec_bytes(), start as int, end as int),
{
    let ghost bytes = s.spec_bytes();
    proof {
        assert(valid_utf8(bytes));
        assert(end <= bytes.len()) by {
            if end > bytes.len() {
                assert(!is_char_boundary(bytes, end as int));
            }
        }
        lemma_boundary_in_suffix(bytes, start as int, end as int);
    }
    let (_, tail) = s.split_at(start);
    let (piece, _) = tail.split_at(end - start);
    proof {
        assert(piece.spec_bytes() =~= bytes.subrange(start as int, end as int));
        assert(decode_utf8(encode_utf8(piece@)) == piece@);
    }
    piece
}

/// The byte length of a string slice, as the length of its UTF-8 encoding.
pub fn byte_len(s: &str) -> (res: usize)
    ensures
        res == s.spec_bytes().len(),
{
    s.as_bytes().len()
}

/// Shared pass of `apply_no_tests` and `apply_summary`.
fn splice_ranges(source: &str, ranges: &[RemovalRange], mode: SpliceMode) -> (res: String)
    requires
        splice_ok(source.spec_bytes(), ranges@, mode),
    ensures
        res@ == splice(source.spec_bytes(), ranges@, mode),
{
    let ghost bytes = source.spec_bytes();
    let len = byte_len(source);
    let mut result = String::new();
    let mut last_end: usize = 0;
    let mut i: usize = 0;
    while i < ranges.len()
        invariant
            i <= ranges@.len(),
            len == bytes.len(),
            bytes == source.spec_bytes(),
            splice_ok(bytes, ranges@, mode),
            splice_slices_ok(bytes, ranges@.take(i as int), mode),
            result@ == splice_state(bytes, ranges@.take(i as int), mode).0,
            last_end == splice_state(bytes, ranges@.take(i as int), mode).1,
        decreases ranges.len() - i,
    {
        proof {
            assert(ranges@.take(i + 1).drop_last() =~= ranges@.take(i as int));
            lemma_slices_ok_prefix(bytes, ranges@, mode, i + 1);
        }
        let range = ranges[i];
        let chosen = match mode {
            SpliceMode::Tests => range.reason == RemovalReason::TestModule || range.reason
                == RemovalReason::TestFunction,
            SpliceMode::Summary => true,
        };
        if chosen {
            if range.start < last_end {
                // Nested in (or overlapping) the text already removed: absorb it.
                if range.end > last_end {
                    last_end = range.end;
                }
            } else {
                if range.start > last_end {
                    let piece = byte_slice(source, last_end, range.start);
                    result.append(piece);
                }
                match range.reason {
                    RemovalReason::Implementation => result.append("// ✂️ implementations omitted"),
                    _ => result.append("// ✂️ test module omitted\n"),
                }
                last_end = range.end;
            }
        }
        i = i + 1;
    }
    proof {
        assert(ranges@.take(ranges@.len() as int) =~= ranges@);
    }
    if last_end < len {
        let piece = byte_slice(source, last_end, len);
        result.append(piece);
    }
    result
}

proof fn lemma_slices_ok_prefix(bytes: Seq<u8>, ranges: Seq<RemovalRange>, mode: SpliceMode, n: int)
    requires
        0 <= n <= ranges.len(),
        splice_slices_ok(bytes, ranges, mode),
    ensures
        splice_slices_ok(bytes, ranges.take(n), mode),
    decreases ranges.len() - n,
{
    if n < ranges.len() {
        lemma_slices_ok_prefix(bytes, ranges, mode, n + 1);
        assert(ranges.take(n + 1).drop_last() =~= ranges.take(n));
    } else {
        assert(ranges.take(n) =~= ranges);
    }
}


proof fn lemma_unselected_state(bytes: Seq<u8>, ranges: Seq<RemovalRange>, mode: SpliceMode)
    requires
        forall|i: int| 0 <= i < ranges.len() ==> !selects(mode, #[trigger] ranges[i].reason),
    ensures
        splice_state(bytes, ranges, mode) == (Seq::<char>::empty(), 0int),
        splice_slices_ok(bytes, ranges, mode),
    decreases ranges.len(),
{
    if ranges.len() > 0 {
        lemma_unselected_state(bytes, ranges.drop_last(), mode);
        assert(!selects(mode, ranges[ranges.len() - 1].reason));
    }
}

proof fn lemma_encode_empty(chars: Seq<char>)
    requires
        encode_utf8(chars).len() == 0,
    ensures
        chars.len() == 0,
{
    if chars.len() > 0 {
        assert(encode_utf8(chars) == encode_scalar(chars[0] as u32) + encode_utf8(chars.drop_first()));
    }
}

/// With no selected range, a splice pass gives back the source unchanged.
pub proof fn lemma_unselected_splice(source: &str, ranges: Seq<RemovalRange>, mode: SpliceMode)
    requires
        forall|i: int| 0 <= i < ranges.len() ==> !selects(mode, #[trigger] ranges[i].reason),
    ensures
        splice(source.spec_bytes(), ranges, mode) == source@,
        splice_ok(source.spec_bytes(), ranges, mode),
{
    let bytes = source.spec_bytes();
    lemma_unselected_state(bytes, ranges, mode);
    if bytes.len() > 0 {
        assert(bytes.subrange(0, bytes.len() as int) =~= bytes);
        assert(decode_utf8(encode_utf8(source@)) == source@);
        assert(is_char_boundary(bytes, 0));
    } else {
        lemma_encode_empty(source@);
        assert(source@ =~= Seq::<char>::empty());
    }
}

/// Whether some range of the list is selected by the mode.
fn any_selected(ranges: &[RemovalRange], mode: SpliceMode) -> (res: bool)
    ensures
        res == exists|i: int| 0 <= i < ranges@.len() && selects(mode, #[trigger] ranges@[i].reason),
{
    let mut i: usize = 0;
    while i < ranges.len()
        invariant
            i <= ranges@.len(),
            forall|j: int| 0 <= j < i ==> !selects(mode, #[trigger] ranges@[j].reason),
        decreases ranges.len() - i,
    {
        let chosen = match mode {
            SpliceMode::Tests => ranges[i].reason == RemovalReason::TestModule || ranges[i].reason
                == RemovalReason::TestFunction,
            SpliceMode::Summary => true,
        };
        if chosen {
            assert(selects(mode, ranges@[i as int].reason));
            return true;
        }
        i = i + 1;
    }
    false
}

/// Apply the NoTests strategy: replace each test range by a
/// `// ✂️ test module omitted` marker line and keep the rest of the source; a test
/// range nested in one already removed is absorbed by it.
pub fn apply_no_tests(source: &str, ranges: &[RemovalRange]) -> (res: String)
    requires
        splice_ok(source.spec_bytes(), ranges@, SpliceMode::Tests),
    ensures
        res@ == splice(source.spec_bytes(), ranges@, SpliceMode::Tests),
        (forall|i: int| 0 <= i < ranges@.len() ==> !selects(SpliceMode::Tests, #[trigger] ranges@[i].reason))
            ==> res@ == source@,
{
    if !any_selected(ranges, SpliceMode::Tests) {
        proof {
            lemma_unselected_splice(source, ranges@, SpliceMode::Tests);
        }
        return String::from_str(source);
    }
    splice_ranges(source, ranges, SpliceMode::Tests)
}

/// Apply the Summary strategy: replace each implementation body by a
/// `// ✂️ implementations omitted` marker and each test range by a
/// `// ✂️ test module omitted` marker line, keeping the rest of the source. A
/// range nested in one already replaced is absorbed by it, so no text from inside
/// a replaced range reappears.
pub fn apply_summary(source: &str, ranges: &[RemovalRange]) -> (res: String)
    requires
        splice_ok(source.spec_bytes(), ranges@, SpliceMode::Summary),
    ensures
        res@ == splice(source.spec_bytes(), ranges@, SpliceMode::Summary),
        ranges@.len() == 0 ==> res@ == source@,
{
    if ranges.len() == 0 {
        proof {
            lemma_unselected_splice(source, ranges@, SpliceMode::Summary);
        }
        return String::from_str(source);
    }
    splice_ranges(source, ranges, SpliceMode::Summary)
}

/// The range's ends are character boundaries of `bytes`.
pub open spec fn range_fits(bytes: Seq<u8>, r: RemovalRange) -> bool {
    is_char_boundary(bytes, r.start as int) && is_char_boundary(bytes, r.end as int)
}

/// Every range's ends are character boundaries of `bytes`.
pub open spec fn ranges_fit(bytes: Seq<u8>, ranges: Seq<RemovalRange>) -> bool {
    forall|k: int| 0 <= k < ranges.len() ==> #[trigger] range_fits(bytes, ranges[k])
}

/// Two lists of fitting ranges make one.
pub proof fn lemma_ranges_fit_concat(bytes: Seq<u8>, a: Seq<RemovalRange>, b: Seq<RemovalRange>)
    requires
        ranges_fit(bytes, a),
        ranges_fit(bytes, b),
    ensures
        ranges_fit(bytes, a + b),
{
    assert forall|k: int| 0 <= k < (a + b).len() implies #[trigger] range_fits(bytes, (a + b)[k]) by {
        if k < a.len() {
            assert((a + b)[k] == a[k]);
        } else {
            assert((a + b)[k] == b[k - a.len()]);
        }
    }
}

proof fn lemma_fitting_state(bytes: Seq<u8>, ranges: Seq<RemovalRange>, mode: SpliceMode)
    requires
        valid_utf8(bytes),
        ranges_fit(bytes, ranges),
    ensures
        is_char_boundary(bytes, splice_state(bytes, ranges, mode).1),
        splice_slices_ok(bytes, ranges, mode),
    decreases ranges.len(),
{
    if ranges.len() > 0 {
        let prefix = ranges.drop_last();
        assert forall|k: int| 0 <= k < prefix.len() implies #[trigger] range_fits(bytes, prefix[k]) by {
            assert(prefix[k] == ranges[k]);
        }
        lemma_fitting_state(bytes, prefix, mode);
        assert(range_fits(bytes, ranges[ranges.len() - 1]));
    }
}

/// Ranges whose ends are character boundaries can be cut out by both removal passes.
pub proof fn lemma_fitting_ranges_ok(source: &str, ranges: Seq<RemovalRange>)
    requires
        ranges_fit(source.spec_bytes(), ranges),
    ensures
        strategies_ok(source, ranges),
{
    let bytes = source.spec_bytes();
    assert(valid_utf8(bytes));
    lemma_fitting_state(bytes, ranges, SpliceMode::Tests);
    lemma_sort_fit(bytes, ranges);
    lemma_fitting_state(bytes, sort_by_start(ranges), SpliceMode::Summary);
}

/// Every selected range of a pass starts no later than it ends.
pub open spec fn forward_selection(ranges: Seq<RemovalRange>, mode: SpliceMode) -> bool {
    forall|i: int|
        0 <= i < ranges.len() && selects(mode, #[trigger] ranges[i].reason) ==> ranges[i].start
            <= ranges[i].end
}

/// Where a pass stands after a list of ranges does not depend on whether it
/// writes markers.
proof fn lemma_state_end_any_mark(bytes: Seq<u8>, ranges: Seq<RemovalRange>, mode: SpliceMode)
    ensures
        splice_state_marked(bytes, ranges, mode, true).1 == splice_state_marked(bytes, ranges, mode, false).1,
    decreases ranges.len(),
{
    if ranges.len() > 0 {
        lemma_state_end_any_mark(bytes, ranges.drop_last(), mode);
    }
}

/// The end of the last slice that a pass keeps: the source is covered up to it.
pub open spec fn covered(bytes: Seq<u8>, ranges: Seq<RemovalRange>, mode: SpliceMode) -> int
    decreases ranges.len(),
{
    if ranges.len() == 0 {
        0
    } else {
        let prev = splice_state_marked(bytes, ranges.drop_last(), mode, false);
        let r = ranges.last();
        if selects(mode, r.reason) && r.start > prev.1 {
            r.start as int
        } else {
            covered(bytes, ranges.drop_last(), mode)
        }
    }
}

/// The text of `bytes[a..c]` is that of `bytes[a..b]` followed by that of `bytes[b..c]`.
proof fn lemma_slice_concat(bytes: Seq<u8>, a: int, b: int, c: int)
    requires
        valid_utf8(bytes),
        0 <= a <= b <= c <= bytes.len(),
        is_char_boundary(bytes, a),
        is_char_boundary(bytes, b),
        is_char_boundary(bytes, c),
    ensures
        slice_chars(bytes, a, c) == slice_chars(bytes, a, b) + slice_chars(bytes, b, c),
{
    lemma_boundary_in_suffix(bytes, a, b);
    lemma_boundary_in_suffix(bytes, a, c);
    let t = bytes.subrange(a, bytes.len() as int);
    let u = t.subrange(0, c - a);
    assert(valid_utf8(u));
    assert(is_char_boundary(u, b - a)) by {
        if b - a < u.len() {
            assert(u[b - a] == t[b - a]);
            assert(is_char_boundary(t, b - a) <==> !is_continuation_byte(t[b - a]));
            assert(is_char_boundary(u, b - a) <==> !is_continuation_byte(u[b - a]));
        } else {
            assert(is_char_boundary(u, u.len() as int));
        }
    }
    assert(decode_utf8(u) =~= decode_utf8(u.subrange(0, b - a)) + decode_utf8(
        u.subrange(b - a, u.len() as int),
    ));
    assert(u.subrange(0, b - a) =~= bytes.subrange(a, b));
    assert(u.subrange(b - a, u.len() as int) =~= bytes.subrange(b, c));
    assert(u =~= bytes.subrange(a, c));
}

/// What a pass has kept so far is a subsequence of the source up to where it
/// has covered it, and it has covered no further than the removed text ends.
proof fn lemma_kept_prefix(bytes: Seq<u8>, ranges: Seq<RemovalRange>, mode: SpliceMode)
    requires
        valid_utf8(bytes),
        splice_slices_ok(bytes, ranges, mode),
        forward_selection(ranges, mode),
    ensures
        ({
            let st = splice_state_marked(bytes, ranges, mode, false);
            let c = covered(bytes, ranges, mode);
            &&& 0 <= c <= bytes.len()
            &&& is_char_boundary(bytes, c)
            &&& c <= st.1
            &&& is_subseq(st.0, slice_chars(bytes, 0, c))
        }),
    decreases ranges.len(),
{
    let empty = Seq::<char>::empty();
    if ranges.len() == 0 {
        assert(bytes.subrange(0, 0) =~= Seq::<u8>::empty());
        assert(decode_utf8(Seq::<u8>::empty()) =~= Seq::<char>::empty());
        lemma_subseq_refl(Seq::<char>::empty());
    } else {
        let prefix = ranges.drop_last();
        assert forall|i: int| 0 <= i < prefix.len() && selects(mode, #[trigger] prefix[i].reason) implies prefix[i].start
            <= prefix[i].end by {
            assert(prefix[i] == ranges[i]);
        }
        lemma_kept_prefix(bytes, prefix, mode);
        lemma_state_end_any_mark(bytes, prefix, mode);
        let prev = splice_state_marked(bytes, prefix, mode, false);
        let c0 = covered(bytes, prefix, mode);
        let k = ranges.len() - 1;
        let r = ranges[k];
        if selects(mode, r.reason) {
            assert(r.start <= r.end);
            if r.start > prev.1 {
                let kept = slice_chars(bytes, prev.1, r.start as int);
                assert(is_char_boundary(bytes, prev.1) && is_char_boundary(bytes, r.start as int));
                assert(r.start <= bytes.len()) by {
                    if r.start > bytes.len() {
                        assert(!is_char_boundary(bytes, r.start as int));
                    }
                }
                lemma_slice_concat(bytes, 0, c0, prev.1);
                lemma_slice_concat(bytes, 0, prev.1, r.start as int);
                lemma_subseq_concat(prev.0, slice_chars(bytes, 0, c0), empty, slice_chars(bytes, c0, prev.1));
                assert(prev.0 + empty =~= prev.0);
                lemma_subseq_refl(kept);
                lemma_subseq_concat(prev.0, slice_chars(bytes, 0, prev.1), kept, kept);
                assert(prev.0 + kept + empty =~= prev.0 + kept);
            } else if r.start == prev.1 {
                assert(prev.0 + empty + empty =~= prev.0);
            }
        }
    }
}

/// Law: with its markers taken out, what a pass makes of the source is a
/// subsequence of the source, when each selected range starts no later than it
/// ends.
pub proof fn lemma_kept_text_subsequence(source: &str, ranges: Seq<RemovalRange>, mode: SpliceMode)
    requires
        splice_ok(source.spec_bytes(), ranges, mode),
        forward_selection(ranges, mode),
    ensures
        is_subseq(kept_text(source.spec_bytes(), ranges, mode), source@),
{
    let bytes = source.spec_bytes();
    let empty = Seq::<char>::empty();
    assert(valid_utf8(bytes));
    lemma_kept_prefix(bytes, ranges, mode);
    lemma_state_end_any_mark(bytes, ranges, mode);
    let st = splice_state_marked(bytes, ranges, mode, false);
    let c = covered(bytes, ranges, mode);
    let n = bytes.len() as int;
    assert(bytes.subrange(0, n) =~= bytes);
    assert(decode_utf8(bytes) == source@);
    assert(is_char_boundary(bytes, n));
    if st.1 < n {
        assert(is_char_boundary(bytes, st.1));
        let tail = slice_chars(bytes, st.1, n);
        lemma_slice_concat(bytes, 0, c, st.1);
        lemma_slice_concat(bytes, 0, st.1, n);
        lemma_subseq_concat(st.0, slice_chars(bytes, 0, c), empty, slice_chars(bytes, c, st.1));
        assert(st.0 + empty =~= st.0);
        lemma_subseq_refl(tail);
        lemma_subseq_concat(st.0, slice_chars(bytes, 0, st.1), tail, tail);
    } else {
        lemma_slice_concat(bytes, 0, c, n);
        lemma_subseq_concat(st.0, slice_chars(bytes, 0, c), empty, slice_chars(bytes, c, n));
        assert(st.0 + empty =~= st.0);
    }
}

/// The selected ranges of a pass are ordered: each starts no later than it
/// ends, and none starts before an earlier selected one.
pub open spec fn ordered_selection(ranges: Seq<RemovalRange>, mode: SpliceMode) -> bool {
    &&& forward_selection(ranges, mode)
    &&& forall|i: int, j: int|
        0 <= i < j < ranges.len() && selects(mode, #[trigger] ranges[i].reason) && selects(
            mode,
            #[trigger] ranges[j].reason,
        ) ==> ranges[i].start <= ranges[j].start
}

/// The byte spans that a pass keeps so far, and the end offset of the removed
/// text (the same course as [`splice_state_marked`], over offsets only).
pub open spec fn span_state(ranges: Seq<RemovalRange>, mode: SpliceMode) -> (Seq<(int, int)>, int)
    decreases ranges.len(),
{
    if ranges.len() == 0 {
        (Seq::empty(), 0)
    } else {
        let prev = span_state(ranges.drop_last(), mode);
        let r = ranges.last();
        if selects(mode, r.reason) {
            if r.start < prev.1 {
                (prev.0, if r.end > prev.1 { r.end as int } else { prev.1 })
            } else if r.start > prev.1 {
                (prev.0.push((prev.1, r.start as int)), r.end as int)
            } else {
                (prev.0, r.end as int)
            }
        } else {
            prev
        }
    }
}

/// The byte spans of a source of `n` bytes that a pass keeps, in order.
pub open spec fn kept_spans(ranges: Seq<RemovalRange>, mode: SpliceMode, n: int) -> Seq<(int, int)> {
    let st = span_state(ranges, mode);
    if st.1 < n {
        st.0.push((st.1, n))
    } else {
        st.0
    }
}

/// The text of a list of byte spans, in order.
pub open spec fn spans_text(bytes: Seq<u8>, spans: Seq<(int, int)>) -> Seq<char>
    decreases spans.len(),
{
    if spans.len() == 0 {
        Seq::empty()
    } else {
        spans_text(bytes, spans.drop_last()) + slice_chars(bytes, spans.last().0, spans.last().1)
    }
}

proof fn lemma_state_spans(bytes: Seq<u8>, ranges: Seq<RemovalRange>, mode: SpliceMode)
    ensures
        splice_state_marked(bytes, ranges, mode, false) == (
            spans_text(bytes, span_state(ranges, mode).0),
            span_state(ranges, mode).1,
        ),
    decreases ranges.len(),
{
    if ranges.len() > 0 {
        lemma_state_spans(bytes, ranges.drop_last(), mode);
        let prev = span_state(ranges.drop_last(), mode);
        let r = ranges.last();
        let t = spans_text(bytes, prev.0);
        if selects(mode, r.reason) && r.start >= prev.1 {
            if r.start > prev.1 {
                let sp = prev.0.push((prev.1, r.start as int));
                assert(sp.drop_last() =~= prev.0);
                assert(spans_text(bytes, sp) == t + slice_chars(bytes, prev.1, r.start as int));
                assert(t + slice_chars(bytes, prev.1, r.start as int) + Seq::<char>::empty() =~= t
                    + slice_chars(bytes, prev.1, r.start as int));
            } else {
                assert(t + Seq::<char>::empty() + Seq::<char>::empty() =~= t);
            }
        }
    }
}

/// The spans kept from the first `m` ranges stay clear of every selected range,
/// and every selected range among the first `m` ends where the removed text ends
/// or before.
proof fn lemma_spans_clear(ranges: Seq<RemovalRange>, mode: SpliceMode, m: int)
    requires
        ordered_selection(ranges, mode),
        0 <= m <= ranges.len(),
    ensures
        forall|i: int|
            0 <= i < m && selects(mode, #[trigger] ranges[i].reason) ==> ranges[i].end
                <= span_state(ranges.take(m), mode).1,
        forall|k: int, i: int|
            0 <= k < span_state(ranges.take(m), mode).0.len() && 0 <= i < ranges.len() && selects(
                mode,
                #[trigger] ranges[i].reason,
            ) ==> #[trigger] span_state(ranges.take(m), mode).0[k].1 <= ranges[i].start || ranges[i].end
                <= span_state(ranges.take(m), mode).0[k].0,
    decreases m,
{
    if m > 0 {
        lemma_spans_clear(ranges, mode, m - 1);
        let p = ranges.take(m);
        assert(p.drop_last() =~= ranges.take(m - 1));
        assert(p.last() == ranges[m - 1]);
        let prev = span_state(ranges.take(m - 1), mode);
        let r = ranges[m - 1];
        if selects(mode, r.reason) {
            assert(r.start <= r.end);
            if r.start > prev.1 {
                let sp = prev.0.push((prev.1, r.start as int));
                assert forall|k: int, i: int|
                    0 <= k < sp.len() && 0 <= i < ranges.len() && selects(mode, #[trigger] ranges[i].reason)
                        implies #[trigger] sp[k].1 <= ranges[i].start || ranges[i].end <= sp[k].0 by {
                    if k < prev.0.len() {
                        assert(sp[k] == prev.0[k]);
                    } else if i < m - 1 {
                        assert(ranges[i].end <= prev.1);
                    } else if i > m - 1 {
                        assert(ranges[m - 1].start <= ranges[i].start);
                    }
                }
            }
        }
    }
}

/// Law: what a pass keeps of the source (its output without markers) is the text
/// of its kept spans, and when the selected ranges are ordered by start, no kept
/// span overlaps a selected range: no text from inside a removed range reappears.
pub proof fn lemma_removed_text_never_kept(bytes: Seq<u8>, ranges: Seq<RemovalRange>, mode: SpliceMode)
    requires
        ordered_selection(ranges, mode),
    ensures
        kept_text(bytes, ranges, mode) == spans_text(bytes, kept_spans(ranges, mode, bytes.len() as int)),
        forall|k: int, i: int|
            0 <= k < kept_spans(ranges, mode, bytes.len() as int).len() && 0 <= i < ranges.len()
                && selects(mode, #[trigger] ranges[i].reason) ==> #[trigger] kept_spans(
                ranges,
                mode,
                bytes.len() as int,
            )[k].1 <= ranges[i].start || ranges[i].end <= kept_spans(ranges, mode, bytes.len() as int)[k].0,
{
    lemma_state_spans(bytes, ranges, mode);
    lemma_spans_clear(ranges, mode, ranges.len() as int);
    assert(ranges.take(ranges.len() as int) =~= ranges);
    let st = span_state(ranges, mode);
    let n = bytes.len() as int;
    let ks = kept_spans(ranges, mode, n);
    if st.1 < n {
        assert(ks.drop_last() =~= st.0);
        assert(spans_text(bytes, ks) == spans_text(bytes, st.0) + slice_chars(bytes, st.1, n));
        assert forall|k: int, i: int|
            0 <= k < ks.len() && 0 <= i < ranges.len() && selects(mode, #[trigger] ranges[i].reason)
                implies #[trigger] ks[k].1 <= ranges[i].start || ranges[i].end <= ks[k].0 by {
            if k < st.0.len() {
                assert(ks[k] == st.0[k]);
            }
        }
    }
}

/// `sorted` with `r` inserted after every range that starts no later than it.
pub open spec fn insert_by_start(sorted: Seq<RemovalRange>, r: RemovalRange) -> Seq<RemovalRange>
    decreases sorted.len(),
{
    if sorted.len() == 0 {
        seq![r]
    } else if sorted.last().start <= r.start {
        sorted.push(r)
    } else {
        insert_by_start(sorted.drop_last(), r).push(sorted.last())
    }
}

/// The ranges in order of their start; ranges with equal starts keep their order.
pub open spec fn sort_by_start(ranges: Seq<RemovalRange>) -> Seq<RemovalRange>
    decreases ranges.len(),
{
    if ranges.len() == 0 {
        Seq::empty()
    } else {
        insert_by_start(sort_by_start(ranges.drop_last()), ranges.last())
    }
}

/// The ranges are in order of their start.
pub open spec fn sorted_by_start_spec(s: Seq<RemovalRange>) -> bool {
    forall|i: int, j: int| 0 <= i < j < s.len() ==> #[trigger] s[i].start <= #[trigger] s[j].start
}

/// Every range of `a` occurs in `b`.
pub open spec fn all_in(a: Seq<RemovalRange>, b: Seq<RemovalRange>) -> bool {
    forall|i: int| 0 <= i < a.len() ==> #[trigger] b.contains(a[i])
}

proof fn lemma_insert_props(s: Seq<RemovalRange>, r: RemovalRange)
    requires
        sorted_by_start_spec(s),
    ensures
        sorted_by_start_spec(insert_by_start(s, r)),
        insert_by_start(s, r).contains(r),
        all_in(s, insert_by_start(s, r)),
        all_in(insert_by_start(s, r), s.push(r)),
    decreases s.len(),
{
    let ins = insert_by_start(s, r);
    if s.len() == 0 {
        assert(ins[0] == r);
        assert forall|i: int| 0 <= i < ins.len() implies #[trigger] s.push(r).contains(ins[i]) by {
            assert(s.push(r)[0] == r);
        }
    } else if s.last().start <= r.start {
        assert(ins[s.len() as int] == r);
        assert forall|i: int| 0 <= i < s.len() implies #[trigger] ins.contains(s[i]) by {
            assert(ins[i] == s[i]);
        }
        assert forall|i: int| 0 <= i < ins.len() implies #[trigger] s.push(r).contains(ins[i]) by {
            assert(s.push(r)[i] == ins[i]);
        }
    } else {
        let d = s.drop_last();
        let l = s.last();
        assert forall|i: int, j: int| 0 <= i < j < d.len() implies #[trigger] d[i].start <= #[trigger] d[j].start by {
            assert(d[i] == s[i] && d[j] == s[j]);
        }
        lemma_insert_props(d, r);
        let di = insert_by_start(d, r);
        assert(ins == di.push(l));
        assert forall|i: int| 0 <= i < di.len() implies #[trigger] di[i].start <= l.start by {
            assert(d.push(r).contains(di[i]));
            let j = choose|j: int| 0 <= j < d.push(r).len() && d.push(r)[j] == di[i];
            if j < d.len() {
                assert(d[j] == s[j]);
                assert(s[j].start <= s[s.len() - 1].start);
            }
        }
        assert forall|i: int, j: int| 0 <= i < j < ins.len() implies #[trigger] ins[i].start <= #[trigger] ins[j].start by {
            if j < di.len() {
                assert(ins[i] == di[i] && ins[j] == di[j]);
            } else {
                assert(ins[i] == di[i]);
            }
        }
        let k = choose|k: int| 0 <= k < di.len() && di[k] == r;
        assert(ins[k] == r);
        assert forall|i: int| 0 <= i < s.len() implies #[trigger] ins.contains(s[i]) by {
            if i < d.len() {
                assert(d[i] == s[i]);
                assert(di.contains(d[i]));
                let k2 = choose|k2: int| 0 <= k2 < di.len() && di[k2] == d[i];
                assert(ins[k2] == s[i]);
            } else {
                assert(ins[ins.len() - 1] == l);
            }
        }
        assert forall|i: int| 0 <= i < ins.len() implies #[trigger] s.push(r).contains(ins[i]) by {
            if i < di.len() {
                assert(ins[i] == di[i]);
                assert(d.push(r).contains(di[i]));
                let j = choose|j: int| 0 <= j < d.push(r).len() && d.push(r)[j] == di[i];
                if j < d.len() {
                    assert(s.push(r)[j] == d[j]);
                } else {
                    assert(s.push(r)[s.len() as int] == r);
                }
            } else {
                assert(s.push(r)[s.len() - 1] == l);
            }
        }
    }
}

/// Sorting by start gives the same ranges, in order of their start.
proof fn lemma_sort_props(ranges: Seq<RemovalRange>)
    ensures
        sorted_by_start_spec(sort_by_start(ranges)),
        all_in(ranges, sort_by_start(ranges)),
        all_in(sort_by_start(ranges), ranges),
    decreases ranges.len(),
{
    if ranges.len() > 0 {
        let d = ranges.drop_last();
        let r = ranges.last();
        lemma_sort_props(d);
        let sd = sort_by_start(d);
        lemma_insert_props(sd, r);
        let ss = sort_by_start(ranges);
        assert forall|i: int| 0 <= i < ranges.len() implies #[trigger] ss.contains(ranges[i]) by {
            if i < d.len() {
                assert(d[i] == ranges[i]);
                assert(sd.contains(d[i]));
                let k = choose|k: int| 0 <= k < sd.len() && sd[k] == d[i];
                assert(all_in(sd, ss));
                assert(ss.contains(sd[k]));
            }
        }
        assert forall|i: int| 0 <= i < ss.len() implies #[trigger] ranges.contains(ss[i]) by {
            assert(sd.push(r).contains(ss[i]));
            let j = choose|j: int| 0 <= j < sd.push(r).len() && sd.push(r)[j] == ss[i];
            if j < sd.len() {
                assert(d.contains(sd[j]));
                let k = choose|k: int| 0 <= k < d.len() && d[k] == sd[j];
                assert(ranges[k] == d[k]);
            } else {
                assert(ranges[ranges.len() - 1] == r);
            }
        }
    }
}

/// Law: in the Summary variant, when every range starts no later than it ends,
/// no kept span of the source overlaps any removal range: no text from inside a
/// removed test range or implementation body reappears.
pub proof fn lemma_summary_removes_ranges(bytes: Seq<u8>, ranges: Seq<RemovalRange>)
    requires
        forall|i: int| 0 <= i < ranges.len() ==> (#[trigger] ranges[i]).start <= ranges[i].end,
    ensures
        kept_text(bytes, sort_by_start(ranges), SpliceMode::Summary) == spans_text(
            bytes,
            kept_spans(sort_by_start(ranges), SpliceMode::Summary, bytes.len() as int),
        ),
        forall|k: int, i: int|
            0 <= k < kept_spans(sort_by_start(ranges), SpliceMode::Summary, bytes.len() as int).len()
                && 0 <= i < ranges.len() ==> #[trigger] kept_spans(
                sort_by_start(ranges),
                SpliceMode::Summary,
                bytes.len() as int,
            )[k].1 <= (#[trigger] ranges[i]).start || ranges[i].end <= kept_spans(
                sort_by_start(ranges),
                SpliceMode::Summary,
                bytes.len() as int,
            )[k].0,
{
    lemma_sort_props(ranges);
    let ss = sort_by_start(ranges);
    assert forall|i: int| 0 <= i < ss.len() && selects(SpliceMode::Summary, #[trigger] ss[i].reason) implies ss[i].start
        <= ss[i].end by {
        assert(ranges.contains(ss[i]));
    }
    assert forall|i: int, j: int|
        0 <= i < j < ss.len() && selects(SpliceMode::Summary, #[trigger] ss[i].reason) && selects(
            SpliceMode::Summary,
            #[trigger] ss[j].reason,
        ) implies ss[i].start <= ss[j].start by {
        assert(ss[i].start <= ss[j].start);
    }
    lemma_removed_text_never_kept(bytes, ss, SpliceMode::Summary);
    let ks = kept_spans(ss, SpliceMode::Summary, bytes.len() as int);
    assert forall|k: int, i: int| 0 <= k < ks.len() && 0 <= i < ranges.len() implies #[trigger] ks[k].1
        <= (#[trigger] ranges[i]).start || ranges[i].end <= ks[k].0 by {
        assert(ss.contains(ranges[i]));
        let j = choose|j: int| 0 <= j < ss.len() && ss[j] == ranges[i];
        assert(selects(SpliceMode::Summary, ss[j].reason));
    }
}

/// Law: when every range starts no later than it ends, the Summary variant
/// keeps no text of any one of them: no kept span of the source overlaps it.
pub proof fn lemma_summary_drops_range(bytes: Seq<u8>, ranges: Seq<RemovalRange>, r: RemovalRange)
    requires
        forall|i: int| 0 <= i < ranges.len() ==> (#[trigger] ranges[i]).start <= ranges[i].end,
        ranges.contains(r),
    ensures
        forall|k: int|
            0 <= k < kept_spans(sort_by_start(ranges), SpliceMode::Summary, bytes.len() as int).len()
                ==> #[trigger] kept_spans(sort_by_start(ranges), SpliceMode::Summary, bytes.len() as int)[k].1
                <= r.start || r.end <= kept_spans(
                sort_by_start(ranges),
                SpliceMode::Summary,
                bytes.len() as int,
            )[k].0,
{
    lemma_summary_removes_ranges(bytes, ranges);
    let i = choose|i: int| 0 <= i < ranges.len() && ranges[i] == r;
    let ks = kept_spans(sort_by_start(ranges), SpliceMode::Summary, bytes.len() as int);
    assert forall|k: int| 0 <= k < ks.len() implies #[trigger] ks[k].1 <= r.start || r.end <= ks[k].0 by {
        assert(ks[k].1 <= ranges[i].start || ranges[i].end <= ks[k].0);
    }
}

/// Law: when the test ranges are in order of their start, the NoTests variant
/// keeps no text of any one of them: no kept span of the source overlaps it.
pub proof fn lemma_no_tests_drops_range(bytes: Seq<u8>, ranges: Seq<RemovalRange>, r: RemovalRange)
    requires
        ordered_selection(ranges, SpliceMode::Tests),
        ranges.contains(r),
        selects(SpliceMode::Tests, r.reason),
    ensures
        forall|k: int|
            0 <= k < kept_spans(ranges, SpliceMode::Tests, bytes.len() as int).len()
                ==> #[trigger] kept_spans(ranges, SpliceMode::Tests, bytes.len() as int)[k].1 <= r.start
                || r.end <= kept_spans(ranges, SpliceMode::Tests, bytes.len() as int)[k].0,
{
    lemma_removed_text_never_kept(bytes, ranges, SpliceMode::Tests);
    let i = choose|i: int| 0 <= i < ranges.len() && ranges[i] == r;
    let ks = kept_spans(ranges, SpliceMode::Tests, bytes.len() as int);
    assert forall|k: int| 0 <= k < ks.len() implies #[trigger] ks[k].1 <= r.start || r.end <= ks[k].0 by {
        assert(ks[k].1 <= ranges[i].start || ranges[i].end <= ks[k].0);
    }
}

/// Insert a range into a list after every range that starts no later than it.
fn insert_sorted(v: &mut Vec<RemovalRange>, r: RemovalRange)
    ensures
        final(v)@ == insert_by_start(old(v)@, r),
{
    let ghost orig = v@;
    let mut k = v.len();
    proof {
        assert(orig.take(k as int) =~= orig);
        assert(orig.skip(k as int) =~= Seq::<RemovalRange>::empty());
        assert(insert_by_start(orig, r) =~= insert_by_start(orig.take(k as int), r) + orig.skip(k as int));
    }
    while k > 0 && v[k - 1].start > r.start
        invariant
            k <= orig.len(),
            v@ == orig,
            insert_by_start(orig, r) == insert_by_start(orig.take(k as int), r) + orig.skip(k as int),
        decreases k,
    {
        proof {
            let t = orig.take(k as int);
            assert(t.drop_last() =~= orig.take(k - 1));
            assert(t.last() == orig[k - 1]);
            assert(orig.skip(k - 1) =~= seq![orig[k - 1]] + orig.skip(k as int));
            assert(insert_by_start(t, r) == insert_by_start(orig.take(k - 1), r).push(orig[k - 1]));
            assert(insert_by_start(orig.take(k - 1), r).push(orig[k - 1]) + orig.skip(k as int)
                =~= insert_by_start(orig.take(k - 1), r) + orig.skip(k - 1));
        }
        k = k - 1;
    }
    proof {
        let t = orig.take(k as int);
        if k > 0 {
            assert(t.last() == orig[k - 1]);
            assert(insert_by_start(t, r) == t.push(r));
        } else {
            assert(t =~= Seq::<RemovalRange>::empty());
        }
        assert(insert_by_start(t, r) + orig.skip(k as int) =~= orig.insert(k as int, r));
    }
    v.insert(k, r);
}

/// The ranges sorted by start (see [`sort_by_start`]).
fn sorted_by_start(ranges: &[RemovalRange]) -> (res: Vec<RemovalRange>)
    ensures
        res@ == sort_by_start(ranges@),
{
    let mut out: Vec<RemovalRange> = Vec::new();
    let mut i: usize = 0;
    while i < ranges.len()
        invariant
            i <= ranges@.len(),
            out@ == sort_by_start(ranges@.take(i as int)),
        decreases ranges.len() - i,
    {
        proof {
            assert(ranges@.take(i + 1).drop_last() =~= ranges@.take(i as int));
        }
        insert_sorted(&mut out, ranges[i]);
        i = i + 1;
    }
    assert(ranges@.take(i as int) =~= ranges@);
    out
}

proof fn lemma_insert_fit(bytes: Seq<u8>, sorted: Seq<RemovalRange>, r: RemovalRange)
    requires
        ranges_fit(bytes, sorted),
        range_fits(bytes, r),
    ensures
        ranges_fit(bytes, insert_by_start(sorted, r)),
    decreases sorted.len(),
{
    if sorted.len() > 0 && sorted.last().start > r.start {
        let d = sorted.drop_last();
        assert forall|k: int| 0 <= k < d.len() implies #[trigger] range_fits(bytes, d[k]) by {
            assert(d[k] == sorted[k]);
        }
        lemma_insert_fit(bytes, d, r);
        assert(range_fits(bytes, sorted[sorted.len() - 1]));
        let res = insert_by_start(d, r).push(sorted.last());
        assert forall|k: int| 0 <= k < res.len() implies #[trigger] range_fits(bytes, res[k]) by {
            if k < res.len() - 1 {
                assert(res[k] == insert_by_start(d, r)[k]);
            }
        }
    } else if sorted.len() > 0 {
        let res = sorted.push(r);
        assert forall|k: int| 0 <= k < res.len() implies #[trigger] range_fits(bytes, res[k]) by {
            if k < sorted.len() {
                assert(res[k] == sorted[k]);
            }
        }
    }
}

/// Sorting keeps every range's ends on character boundaries.
proof fn lemma_sort_fit(bytes: Seq<u8>, ranges: Seq<RemovalRange>)
    requires
        ranges_fit(bytes, ranges),
    ensures
        ranges_fit(bytes, sort_by_start(ranges)),
    decreases ranges.len(),
{
    if ranges.len() > 0 {
        let d = ranges.drop_last();
        assert forall|k: int| 0 <= k < d.len() implies #[trigger] range_fits(bytes, d[k]) by {
            assert(d[k] == ranges[k]);
        }
        lemma_sort_fit(bytes, d);
        assert(range_fits(bytes, ranges[ranges.len() - 1]));
        lemma_insert_fit(bytes, sort_by_start(d), ranges.last());
    }
}

/// The content of a strategy variant of `source`, given all removal ranges:
/// NoTests removes the test ranges; Summary removes every range, taken in order
/// of their start.
pub open spec fn variant_content(
    source: Seq<char>,
    ranges: Seq<RemovalRange>,
    strategy: OutputStrategy,
) -> Seq<char> {
    match strategy {
        OutputStrategy::Full => source,
        OutputStrategy::NoTests => splice(encode_utf8(source), ranges, SpliceMode::Tests),
        OutputStrategy::Summary => splice(encode_utf8(source), sort_by_start(ranges), SpliceMode::Summary),
    }
}

/// The inputs on which both removal passes over `ranges` stay on character boundaries.
pub open spec fn strategies_ok(source: &str, ranges: Seq<RemovalRange>) -> bool {
    &&& splice_ok(source.spec_bytes(), ranges, SpliceMode::Tests)
    &&& splice_ok(source.spec_bytes(), sort_by_start(ranges), SpliceMode::Summary)
}

/// Build strategy data for all three output modes.
///
/// The ranges of both lists are considered together: NoTests removes the test
/// ranges among them, and Summary removes all of them (test code and
/// implementation bodies), taken in order of their start. Each variant carries
/// its token count.
pub fn build_strategies(
    source: &str,
    test_ranges: &[RemovalRange],
    summary_ranges: &[RemovalRange],
) -> (res: StrategyTable)
    requires
        strategies_ok(source, test_ranges@ + summary_ranges@),
    ensures
        forall|s: OutputStrategy| #[trigger] res.entry(s) matches Some(data) && data.content@
            == variant_content(source@, test_ranges@ + summary_ranges@, s) && data.token_count
            == cl100k_token_count(data.content@),
{
    let mut all_ranges: Vec<RemovalRange> = Vec::new();
    all_ranges.extend_from_slice(test_ranges);
    all_ranges.extend_from_slice(summary_ranges);
    let ghost all = test_ranges@ + summary_ranges@;
    assert(all_ranges@ =~= all);

    let full_content = String::from_str(source);
    let full_tokens = compute_token_count(full_content.as_str());

    let no_tests_content = apply_no_tests(source, all_ranges.as_slice());
    let no_tests_tokens = compute_token_count(no_tests_content.as_str());

    let sorted = sorted_by_start(all_ranges.as_slice());
    let summary_content = apply_summary(source, sorted.as_slice());
    let summary_tokens = compute_token_count(summary_content.as_str());

    let mut map = StrategyTable::new();
    map.insert(OutputStrategy::Full, StrategyData { content: full_content, token_count: full_tokens });
    map.insert(
        OutputStrategy::NoTests,
        StrategyData { content: no_tests_content, token_count: no_tests_tokens },
    );
    map.insert(
        OutputStrategy::Summary,
        StrategyData { content: summary_content, token_count: summary_tokens },
    );
    proof {
        assert forall|s: OutputStrategy| #[trigger] map.entry(s) matches Some(data) && data.content@
            == variant_content(source@, all, s) && data.token_count == cl100k_token_count(data.content@) by {
            match s {
                OutputStrategy::Full => {},
                OutputStrategy::NoTests => {},
                OutputStrategy::Summary => {},
            }
        }
    }
    map
}

} // verus!
