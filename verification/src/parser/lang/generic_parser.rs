//! Generic parser for languages beyond the core five.
//!
//! Works from the code structure (functions, classes, ...) that
//! `tree-sitter-language-pack` extracts, and generates Full/NoTests/Summary
//! variants without language-specific syntax rules.

use vstd::prelude::*;
use vstd::string::StringSliceAdditionalSpecFns;
use crate::error::AstDocError;
use crate::parser::strategy::{RemovalRange, RemovalReason, range_fits, ranges_fit};
use crate::parser::syntax::is_boundary;
use crate::parser::{Language, ParsedFile, assemble, misfit_error, misfit_message, parsed_as};
use crate::text::{chars_of, push_str, seq_starts_with, starts_with, string_from};

verus! {

broadcast use vstd::utf8::group_utf8_lib;

/// The kind of a structural item.
#[derive(Debug)]
pub enum StructureKind {
    /// A free-standing or associated function.
    Function,
    /// A method defined inside a class, struct, trait, or impl block.
    Method,
    /// A class definition.
    Class,
    /// A struct definition.
    Struct,
    /// An interface or protocol definition.
    Interface,
    /// An enum definition.
    Enum,
    /// A module or package declaration.
    Module,
    /// A trait definition.
    Trait,
    /// An impl block or similar implementation block.
    Impl,
    /// A namespace declaration.
    Namespace,
    /// A language-specific construct that does not fit any standard category.
    Other(String),
}

/// A top-level structural item of a source: its kind, its declared name and the
/// byte range of the whole declaration.
#[derive(Debug)]
pub struct StructureEntry {
    /// The kind of structural item.
    pub kind: StructureKind,
    /// The declared name of the item, if present.
    pub name: Option<String>,
    /// Start byte offset of the declaration (inclusive).
    pub start_byte: usize,
    /// End byte offset of the declaration (exclusive).
    pub end_byte: usize,
}

/// Test naming conventions across languages: `test_*`, `Test*`, `testX*` with an
/// uppercase fifth character, `it_*`, `should_*`, `bench_*`, `Benchmark*`.
pub open spec fn test_name(name: Seq<char>) -> bool {
    ||| starts_with(name, "test_"@)
    ||| starts_with(name, "Test"@)
    ||| starts_with(name, "test"@) && name.len() > 4 && 'A' <= name[4] <= 'Z'
    ||| starts_with(name, "it_"@)
    ||| starts_with(name, "should_"@)
    ||| starts_with(name, "bench_"@)
    ||| starts_with(name, "Benchmark"@)
}

/// Heuristic: whether a function or method name indicates a test.
pub fn is_test_name(name: &str) -> (res: bool)
    ensures
        res == test_name(name@),
{
    let n = chars_of(name);
    let s = n.as_slice();
    if seq_starts_with(s, chars_of("test_").as_slice()) || seq_starts_with(s, chars_of("Test").as_slice()) {
        return true;
    }
    if seq_starts_with(s, chars_of("test").as_slice()) && n.len() > 4 {
        let c = n[4];
        if 'A' <= c && c <= 'Z' {
            return true;
        }
    }
    seq_starts_with(s, chars_of("it_").as_slice()) || seq_starts_with(s, chars_of("should_").as_slice())
        || seq_starts_with(s, chars_of("bench_").as_slice()) || seq_starts_with(
        s,
        chars_of("Benchmark").as_slice(),
    )
}

/// An item whose declared name indicates a test.
pub open spec fn is_test_item(e: StructureEntry) -> bool {
    e.name matches Some(n) && test_name(n@)
}

/// The reason a test item is removed for: classes and structs are test modules,
/// everything else a test function.
pub open spec fn test_reason(kind: StructureKind) -> RemovalReason {
    match kind {
        StructureKind::Class => RemovalReason::TestModule,
        StructureKind::Struct => RemovalReason::TestModule,
        _ => RemovalReason::TestFunction,
    }
}

/// The test ranges of a structure: each test item's whole declaration, in order.
pub open spec fn structure_test_ranges(items: Seq<StructureEntry>) -> Seq<RemovalRange>
    decreases items.len(),
{
    if items.len() == 0 {
        Seq::empty()
    } else {
        let e = items.last();
        structure_test_ranges(items.drop_last()) + if is_test_item(e) {
            seq![RemovalRange { start: e.start_byte, end: e.end_byte, reason: test_reason(e.kind) }]
        } else {
            Seq::empty()
        }
    }
}

/// How a byte moves the parenthesis depth.
pub open spec fn paren_step(b: u8) -> int {
    if b == 40 {
        1
    } else if b == 41 {
        -1
    } else {
        0
    }
}

/// How a byte moves the angle-bracket depth.
pub open spec fn angle_step(b: u8) -> int {
    if b == 60 {
        1
    } else if b == 62 {
        -1
    } else {
        0
    }
}

/// The first `{` at position `i` or later that stands outside parentheses and
/// angle brackets, given the depths `paren` and `angle` before position `i`.
pub open spec fn brace_scan(b: Seq<u8>, i: int, paren: int, angle: int) -> Option<int>
    decreases b.len() - i,
{
    if i < 0 || i >= b.len() {
        None
    } else if b[i] == 123 && paren == 0 && angle <= 0 {
        Some(i)
    } else {
        brace_scan(b, i + 1, paren + paren_step(b[i]), angle + angle_step(b[i]))
    }
}

/// The position of the `}` that closes the braces open at position `i`, given
/// `depth` braces open before it.
pub open spec fn match_scan(b: Seq<u8>, i: int, depth: int) -> Option<int>
    decreases b.len() - i,
{
    if i < 0 || i >= b.len() {
        None
    } else if b[i] == 123 {
        match_scan(b, i + 1, depth + 1)
    } else if b[i] == 125 {
        if depth - 1 == 0 {
            Some(i)
        } else {
            match_scan(b, i + 1, depth - 1)
        }
    } else {
        match_scan(b, i + 1, depth)
    }
}

/// A brace found by `brace_scan` lies between its start and the end.
proof fn lemma_brace_scan_bounds(b: Seq<u8>, i: int, paren: int, angle: int)
    ensures
        brace_scan(b, i, paren, angle) matches Some(k) ==> 0 <= i <= k < b.len(),
    decreases b.len() - i,
{
    if !(i < 0 || i >= b.len()) && !(b[i] == 123 && paren == 0 && angle <= 0) {
        lemma_brace_scan_bounds(b, i + 1, paren + paren_step(b[i]), angle + angle_step(b[i]));
    }
}

/// A brace found by `match_scan` lies between its start and the end.
proof fn lemma_match_scan_bounds(b: Seq<u8>, i: int, depth: int)
    ensures
        match_scan(b, i, depth) matches Some(k) ==> 0 <= i <= k < b.len(),
    decreases b.len() - i,
{
    if !(i < 0 || i >= b.len()) {
        if b[i] == 123 {
            lemma_match_scan_bounds(b, i + 1, depth + 1);
        } else if b[i] == 125 {
            lemma_match_scan_bounds(b, i + 1, depth - 1);
        } else {
            lemma_match_scan_bounds(b, i + 1, depth);
        }
    }
}

/// The position of the opening `{` of a function body in `b[from..to]`, counted
/// from `from`: the first `{` outside parentheses and angle brackets.
fn find_open_brace(b: &[u8], from: usize, to: usize) -> (res: Option<usize>)
    requires
        from <= to <= b@.len(),
    ensures
        res == (match brace_scan(b@.subrange(from as int, to as int), 0, 0, 0) {
            Some(k) => Some(k as usize),
            None => None::<usize>,
        }),
        res matches Some(k) ==> from + k < to,
{
    let ghost item = b@.subrange(from as int, to as int);
    let mut paren: i128 = 0;
    let mut angle: i128 = 0;
    let mut i: usize = from;
    while i < to
        invariant
            from <= i <= to <= b@.len(),
            item == b@.subrange(from as int, to as int),
            -(i - from) <= paren <= i - from,
            -(i - from) <= angle <= i - from,
            brace_scan(item, i - from, paren as int, angle as int) == brace_scan(item, 0, 0, 0),
        decreases to - i,
    {
        let c = b[i];
        assert(item[i - from] == c);
        if c == 123 && paren == 0 && angle <= 0 {
            return Some(i - from);
        }
        if c == 40 {
            paren = paren + 1;
        } else if c == 41 {
            paren = paren - 1;
        } else if c == 60 {
            angle = angle + 1;
        } else if c == 62 {
            angle = angle - 1;
        }
        i = i + 1;
    }
    None
}

/// The position of the `}` in `b[from..to]`, counted from `from`, that closes the
/// brace opened at offset `open`.
fn find_close_brace(b: &[u8], from: usize, to: usize, open: usize) -> (res: Option<usize>)
    requires
        from <= to <= b@.len(),
    ensures
        res == (match match_scan(b@.subrange(from as int, to as int), open as int, 0) {
            Some(k) => Some(k as usize),
            None => None::<usize>,
        }),
        res matches Some(k) ==> open <= k && from + k < to,
{
    let ghost item = b@.subrange(from as int, to as int);
    if open >= to - from {
        return None;
    }
    let mut depth: i128 = 0;
    let mut i: usize = from + open;
    while i < to
        invariant
            from + open <= i <= to <= b@.len(),
            item == b@.subrange(from as int, to as int),
            -(i - from - open) <= depth <= i - from - open,
            match_scan(item, i - from, depth as int) == match_scan(item, open as int, 0),
        decreases to - i,
    {
        let c = b[i];
        assert(item[i - from] == c);
        if c == 123 {
            depth = depth + 1;
        } else if c == 125 {
            depth = depth - 1;
            if depth == 0 {
                return Some(i - from);
            }
        }
        i = i + 1;
    }
    None
}

/// Find the matching closing `}` for an opening `{` at byte offset `open_pos`.
pub fn find_matching_brace(text: &str, open_pos: usize) -> (res: Option<usize>)
    ensures
        res == (match match_scan(text.spec_bytes(), open_pos as int, 0) {
            Some(k) => Some(k as usize),
            None => None::<usize>,
        }),
{
    let b = text.as_bytes();
    assert(b@.subrange(0, b@.len() as int) =~= b@);
    find_close_brace(b, 0, b.len(), open_pos)
}

/// The body of a function declared over `bytes[start..end]`: from its first `{`
/// outside parentheses and angle brackets to the matching `}`, inclusive.
pub open spec fn body_range(bytes: Seq<u8>, start: int, end: int) -> Option<RemovalRange> {
    if end > bytes.len() || start >= end {
        None
    } else {
        let item = bytes.subrange(start, end);
        match brace_scan(item, 0, 0, 0) {
            None => None,
            Some(open) => match match_scan(item, open, 0) {
                None => None,
                Some(close) => if close <= open {
                    None
                } else {
                    Some(
                        RemovalRange {
                            start: (start + open) as usize,
                            end: (start + close + 1) as usize,
                            reason: RemovalReason::Implementation,
                        },
                    )
                },
            },
        }
    }
}

/// The summary ranges of a structure: the bodies of its non-test functions and
/// methods, in order.
pub open spec fn structure_summary_ranges(items: Seq<StructureEntry>, bytes: Seq<u8>) -> Seq<RemovalRange>
    decreases items.len(),
{
    if items.len() == 0 {
        Seq::empty()
    } else {
        let e = items.last();
        let body = if !is_test_item(e) && (e.kind is Function || e.kind is Method) {
            match body_range(bytes, e.start_byte as int, e.end_byte as int) {
                Some(r) => seq![r],
                None => Seq::empty(),
            }
        } else {
            Seq::empty()
        };
        structure_summary_ranges(items.drop_last(), bytes) + body
    }
}

/// The removal ranges of a source with the given structure: its test ranges,
/// then its summary ranges.
pub open spec fn structure_ranges(items: Seq<StructureEntry>, bytes: Seq<u8>) -> Seq<RemovalRange> {
    structure_test_ranges(items) + structure_summary_ranges(items, bytes)
}

/// The implementation body range within a structure item's span.
fn extract_body_range(source: &str, start: usize, end: usize) -> (res: Option<RemovalRange>)
    ensures
        res == body_range(source.spec_bytes(), start as int, end as int),
{
    let b = source.as_bytes();
    if end > b.len() || start >= end {
        return None;
    }
    let ghost item = b@.subrange(start as int, end as int);
    proof {
        lemma_brace_scan_bounds(item, 0, 0, 0);
        if let Some(o) = brace_scan(item, 0, 0, 0) {
            lemma_match_scan_bounds(item, o, 0);
        }
    }
    let open = match find_open_brace(b, start, end) {
        Some(k) => k,
        None => return None,
    };
    let close = match find_close_brace(b, start, end, open) {
        Some(k) => k,
        None => return None,
    };
    if close <= open {
        return None;
    }
    Some(RemovalRange { start: start + open, end: start + close + 1, reason: RemovalReason::Implementation })
}

/// Whether a structure item's declared name indicates a test.
fn is_test_structure_item(item: &StructureEntry) -> (res: bool)
    ensures
        res == is_test_item(*item),
{
    match &item.name {
        Some(name) => is_test_name(name.as_str()),
        None => false,
    }
}

/// Collect the test ranges of a structure.
fn collect_test_ranges_from_structure(items: &[StructureEntry]) -> (res: Vec<RemovalRange>)
    ensures
        res@ == structure_test_ranges(items@),
{
    let mut ranges: Vec<RemovalRange> = Vec::new();
    let mut i: usize = 0;
    while i < items.len()
        invariant
            i <= items@.len(),
            ranges@ == structure_test_ranges(items@.take(i as int)),
        decreases items.len() - i,
    {
        let item = &items[i];
        proof {
            assert(items@.take(i + 1).drop_last() =~= items@.take(i as int));
        }
        if is_test_structure_item(item) {
            let reason = match item.kind {
                StructureKind::Class => RemovalReason::TestModule,
                StructureKind::Struct => RemovalReason::TestModule,
                _ => RemovalReason::TestFunction,
            };
            ranges.push(RemovalRange { start: item.start_byte, end: item.end_byte, reason });
        } else {
            assert(ranges@ + Seq::<RemovalRange>::empty() =~= ranges@);
        }
        i = i + 1;
    }
    assert(items@.take(items@.len() as int) =~= items@);
    ranges
}

/// Collect the summary ranges of a structure.
fn collect_summary_ranges_from_structure(items: &[StructureEntry], source: &str) -> (res: Vec<RemovalRange>)
    ensures
        res@ == structure_summary_ranges(items@, source.spec_bytes()),
{
    let ghost bytes = source.spec_bytes();
    let mut ranges: Vec<RemovalRange> = Vec::new();
    let mut i: usize = 0;
    while i < items.len()
        invariant
            i <= items@.len(),
            bytes == source.spec_bytes(),
            ranges@ == structure_summary_ranges(items@.take(i as int), bytes),
        decreases items.len() - i,
    {
        let item = &items[i];
        proof {
            assert(items@.take(i + 1).drop_last() =~= items@.take(i as int));
        }
        let function_like = match item.kind {
            StructureKind::Function => true,
            StructureKind::Method => true,
            _ => false,
        };
        let mut pushed = false;
        if !is_test_structure_item(item) && function_like {
            if let Some(range) = extract_body_range(source, item.start_byte, item.end_byte) {
                ranges.push(range);
                pushed = true;
            }
        }
        if !pushed {
            assert(ranges@ + Seq::<RemovalRange>::empty() =~= ranges@);
        }
        i = i + 1;
    }
    assert(items@.take(items@.len() as int) =~= items@);
    ranges
}

/// Whether every range's ends are character boundaries of the source.
fn ranges_fit_source(source: &str, ranges: &[RemovalRange]) -> (res: bool)
    ensures
        res == ranges_fit(source.spec_bytes(), ranges@),
{
    let b = source.as_bytes();
    assert(vstd::utf8::valid_utf8(b@));
    let mut i: usize = 0;
    while i < ranges.len()
        invariant
            i <= ranges@.len(),
            b@ == source.spec_bytes(),
            vstd::utf8::valid_utf8(b@),
            forall|k: int| 0 <= k < i ==> #[trigger] range_fits(source.spec_bytes(), ranges@[k]),
        decreases ranges.len() - i,
    {
        if !is_boundary(b, ranges[i].start) || !is_boundary(b, ranges[i].end) {
            assert(!range_fits(source.spec_bytes(), ranges@[i as int]));
            return false;
        }
        i = i + 1;
    }
    true
}

/// Generic parser for languages beyond the core five, by their
/// `tree-sitter-language-pack` name.
#[derive(Debug)]
pub struct GenericParser {
    /// The language name as `tree-sitter-language-pack` recognizes it.
    pub language_name: String,
}

impl GenericParser {
    /// Create a new generic parser for the given language name.
    pub fn new(language_name: &str) -> (res: Self)
        ensures
            res.language_name@ == language_name@,
    {
        GenericParser { language_name: String::from_str(language_name) }
    }

    /// The parsed file of a source at `path` with the given top-level structure.
    ///
    /// Fails when a range to cut does not start and end on character boundaries.
    pub fn parse_structure(&self, source: &str, path: &str, structure: &[StructureEntry]) -> (res: Result<ParsedFile, AstDocError>)
        ensures
            ranges_fit(source.spec_bytes(), structure_ranges(structure@, source.spec_bytes()))
                ==> (res matches Ok(p) && parsed_as(
                p,
                path@,
                Language::Generic(self.language_name),
                source@,
                structure_ranges(structure@, source.spec_bytes()),
            )),
            !ranges_fit(source.spec_bytes(), structure_ranges(structure@, source.spec_bytes()))
                ==> (res matches Err(AstDocError::Parse { path: p, message }) && p@ == path@
                && message@ == misfit_message()),
    {
        let test_ranges = collect_test_ranges_from_structure(structure);
        let summary_ranges = collect_summary_ranges_from_structure(structure, source);
        let mut all = test_ranges.clone();
        let mut more = summary_ranges.clone();
        all.append(&mut more);
        if !ranges_fit_source(source, all.as_slice()) {
            return Err(misfit_error(path));
        }
        let language = Language::Generic(self.language_name.clone());
        Ok(assemble(source, path, language, test_ranges.as_slice(), summary_ranges.as_slice()))
    }

    /// The error reported when the language pack fails to process a source,
    /// given the text of its error.
    pub fn process_error(&self, path: &str, error: &str) -> (res: AstDocError)
        ensures
            res matches AstDocError::Parse { path: p, message } && p@ == path@ && message@
                == "Failed to process "@ + self.language_name@ + " source: "@ + error@,
    {
        let mut msg: Vec<char> = Vec::new();
        push_str(&mut msg, "Failed to process ");
        push_str(&mut msg, self.language_name.as_str());
        push_str(&mut msg, " source: ");
        push_str(&mut msg, error);
        AstDocError::Parse { path: String::from_str(path), message: string_from(&msg) }
    }
}

} // verus!
