//! Rust parser using tree-sitter.
//!
//! Detects test modules (`#[cfg(test)]`, or named `tests`) and test functions
//! (`#[test]`, `#[tokio::test]`) for NoTests mode.
//! Keeps function/struct/trait/enum/impl signatures for Summary mode.

use vstd::prelude::*;
use vstd::string::StringSliceAdditionalSpecFns;
use crate::error::AstDocError;
use crate::parser::strategy::{
    SpliceMode, kept_spans, lemma_no_tests_drops_range, ordered_selection,
    RemovalRange, RemovalReason, byte_slice, lemma_ranges_fit_concat, ranges_fit,
    slice_chars,
};
use crate::parser::syntax::{
    SyntaxFailure, SyntaxNode, Visit, above, first_child, find_child, fits_source, kind_is,
    lemma_walk_reaches,
    lemma_node_range_fits, lemma_walk_fits, node_chars, node_range,
    node_text, node_fits, nodes_fit, range_of, visit_fits, walk_ranges, walk_tree,
};
use crate::parser::{
    Language, LanguageParser, ParsedFile, assemble, lemma_outcome_claim, misfit_error, parse_claim,
    parse_outcome, syntax_error,
};
use crate::text::{all_space, chars_of, contains, is_all_space, seq_contains, seq_equal};

verus! {

/// The syntax tree, in pre-order, that tree-sitter parses from a text with the
/// `tree-sitter-rust` grammar.
pub uninterp spec fn rust_syntax(source: Seq<char>) -> Seq<SyntaxNode>;

/// Parse `source` with tree-sitter and the `tree-sitter-rust` grammar.
///
/// Trusted: calls `Parser::set_language` with `tree_sitter_rust::LANGUAGE` and
/// `Parser::parse`, then lists the nodes of the tree in descendant order (which is
/// pre-order) with `TreeCursor::goto_descendant`, each with its kind, byte range and
/// depth. The grammar's ABI version is one that tree-sitter accepts, and with a
/// language set `Parser::parse` always gives a tree (no timeout or cancellation
/// is set), so the call succeeds; the tree is a function of the text.
#[verifier::external_body]
fn rust_syntax_tree(source: &str) -> (res: Result<Vec<SyntaxNode>, SyntaxFailure>)
    ensures
        res is Ok,
        res matches Ok(nodes) ==> nodes@ == rust_syntax(source@),
{
    let mut parser = tree_sitter::Parser::new();
    parser.set_language(&tree_sitter_rust::LANGUAGE.into()).map_err(|e| SyntaxFailure::Grammar(e.to_string()))?;
    let tree = parser.parse(source, None).ok_or(SyntaxFailure::NoTree)?;
    let mut cursor = tree.walk();
    let mut nodes = Vec::new();
    for i in 0..tree.root_node().descendant_count() {
        cursor.goto_descendant(i);
        let n = cursor.node();
        nodes.push(SyntaxNode { kind: n.kind().to_string(), start_byte: n.start_byte(), end_byte: n.end_byte(), depth: cursor.depth() as usize });
    }
    Ok(nodes)
}

/// Whether an attribute's text matches `needle`: equal to it when `exact`, else
/// containing it.
pub open spec fn attr_matches(text: Seq<char>, needle: Seq<char>, exact: bool) -> bool {
    if exact {
        text == needle
    } else {
        contains(text, needle)
    }
}

/// A comment node of the grammar.
pub open spec fn is_comment_kind(kind: Seq<char>) -> bool {
    kind == "line_comment"@ || kind == "block_comment"@
}

/// Whether one of the attributes of node `i` that precede it, at position `k` or
/// before, matches `needle`: the siblings right before the node are scanned back
/// over attribute items and comments, and the scan stops at any other sibling.
pub open spec fn sibling_attribute(
    t: Seq<SyntaxNode>,
    bytes: Seq<u8>,
    i: int,
    needle: Seq<char>,
    exact: bool,
    k: int,
) -> bool
    decreases k + 1,
{
    if k < 0 || k >= i || i >= t.len() || t[k].depth < t[i].depth {
        false
    } else if t[k].depth == t[i].depth {
        if t[k].kind@ == "attribute_item"@ {
            if attr_matches(node_text(t, bytes, k), needle, exact) {
                true
            } else {
                sibling_attribute(t, bytes, i, needle, exact, k - 1)
            }
        } else if is_comment_kind(t[k].kind@) {
            sibling_attribute(t, bytes, i, needle, exact, k - 1)
        } else {
            false
        }
    } else {
        sibling_attribute(t, bytes, i, needle, exact, k - 1)
    }
}

/// Whether a child of node `i`, at position `j` or later, is an `attribute_item`
/// whose text contains `needle`.
pub open spec fn child_attribute(t: Seq<SyntaxNode>, bytes: Seq<u8>, i: int, needle: Seq<char>, j: int) -> bool
    decreases t.len() - j,
{
    if j <= i || j >= t.len() || t[j].depth <= t[i].depth {
        false
    } else if t[j].depth == t[i].depth + 1 && t[j].kind@ == "attribute_item"@ && contains(
        node_text(t, bytes, j),
        needle,
    ) {
        true
    } else {
        child_attribute(t, bytes, i, needle, j + 1)
    }
}

/// Node `i` carries an attribute containing `needle`, among its children or
/// among its own attributes before it.
pub open spec fn has_attribute(t: Seq<SyntaxNode>, bytes: Seq<u8>, i: int, needle: Seq<char>) -> bool {
    child_attribute(t, bytes, i, needle, i + 1) || sibling_attribute(t, bytes, i, needle, false, i - 1)
}

/// A node whose name (its first `identifier` child) is `tests`.
pub open spec fn named_tests(t: Seq<SyntaxNode>, bytes: Seq<u8>, i: int) -> bool {
    match first_child(t, i, "identifier"@, "identifier"@) {
        Some(c) => node_text(t, bytes, c) == "tests"@,
        None => false,
    }
}

/// A module annotated with `#[cfg(test)]`, or named `tests`.
pub open spec fn is_test_module(t: Seq<SyntaxNode>, bytes: Seq<u8>, i: int) -> bool {
    has_attribute(t, bytes, i, "cfg(test)"@) || named_tests(t, bytes, i)
}

/// A function whose own attributes before it include one that reads exactly
/// `#[test]`, or a `#[tokio::test...]` attribute.
pub open spec fn is_test_function(t: Seq<SyntaxNode>, bytes: Seq<u8>, i: int) -> bool {
    sibling_attribute(t, bytes, i, "#[test]"@, true, i - 1) || sibling_attribute(
        t,
        bytes,
        i,
        "#[tokio::test"@,
        false,
        i - 1,
    )
}

/// Where the removal of node `i` starts: at the nearest sibling before it, at
/// position `k` or before, that is an `attribute_item` ending before the node
/// with only whitespace in between; else at the node itself.
pub open spec fn attr_start_from(t: Seq<SyntaxNode>, bytes: Seq<u8>, i: int, k: int) -> usize
    decreases k + 1,
{
    if k < 0 || k >= i || i >= t.len() || t[k].depth < t[i].depth {
        t[i].start_byte
    } else if t[k].depth == t[i].depth && t[k].kind@ == "attribute_item"@ && t[k].end_byte
        <= t[i].start_byte && all_space(
        slice_chars(bytes, t[k].end_byte as int, t[i].start_byte as int),
    ) {
        t[k].start_byte
    } else {
        attr_start_from(t, bytes, i, k - 1)
    }
}

/// Where the removal of node `i` starts, its attributes included.
pub open spec fn attr_start(t: Seq<SyntaxNode>, bytes: Seq<u8>, i: int) -> usize {
    attr_start_from(t, bytes, i, i - 1)
}

/// What the test pass does at node `j`: a test module or a test function is
/// removed with its attributes; other functions are not entered.
pub open spec fn test_visit(t: Seq<SyntaxNode>, bytes: Seq<u8>, j: int) -> Visit {
    if t[j].kind@ == "mod_item"@ {
        if is_test_module(t, bytes, j) {
            Visit::Emit(
                RemovalRange {
                    start: attr_start(t, bytes, j),
                    end: t[j].end_byte,
                    reason: RemovalReason::TestModule,
                },
            )
        } else {
            Visit::Enter
        }
    } else if t[j].kind@ == "function_item"@ {
        if is_test_function(t, bytes, j) {
            Visit::Emit(
                RemovalRange {
                    start: attr_start(t, bytes, j),
                    end: t[j].end_byte,
                    reason: RemovalReason::TestFunction,
                },
            )
        } else {
            Visit::Prune
        }
    } else {
        Visit::Enter
    }
}

/// What the summary pass does at node `j`: a non-test function's `block` is
/// replaced; an impl's `declaration_list` is replaced and the impl entered; test
/// functions and test modules are skipped.
pub open spec fn summary_visit(t: Seq<SyntaxNode>, bytes: Seq<u8>, j: int) -> Visit {
    if t[j].kind@ == "function_item"@ {
        if is_test_function(t, bytes, j) {
            Visit::Prune
        } else {
            match first_child(t, j, "block"@, "block"@) {
                Some(b) => Visit::Emit(node_range(t, b, RemovalReason::Implementation)),
                None => Visit::Prune,
            }
        }
    } else if t[j].kind@ == "impl_item"@ {
        match first_child(t, j, "declaration_list"@, "declaration_list"@) {
            Some(d) => Visit::EmitEnter(node_range(t, d, RemovalReason::Implementation)),
            None => Visit::Enter,
        }
    } else if t[j].kind@ == "mod_item"@ {
        if is_test_module(t, bytes, j) {
            Visit::Prune
        } else {
            Visit::Enter
        }
    } else {
        Visit::Enter
    }
}

/// The visit of the test pass (`tests`) or of the summary pass at node `j`.
pub open spec fn rust_visit(t: Seq<SyntaxNode>, bytes: Seq<u8>, tests: bool, j: int) -> Visit {
    if tests {
        test_visit(t, bytes, j)
    } else {
        summary_visit(t, bytes, j)
    }
}

/// The ranges of one pass over the tree.
pub open spec fn rust_pass(t: Seq<SyntaxNode>, bytes: Seq<u8>, tests: bool) -> Seq<RemovalRange> {
    walk_tree(t, Seq::new(t.len(), |j: int| rust_visit(t, bytes, tests, j)))
}

/// The removal ranges of a Rust source: those of the test pass, then those of the
/// summary pass.
pub open spec fn rust_ranges(t: Seq<SyntaxNode>, bytes: Seq<u8>) -> Seq<RemovalRange> {
    rust_pass(t, bytes, true) + rust_pass(t, bytes, false)
}

proof fn lemma_own_attribute_found(
    t: Seq<SyntaxNode>,
    bytes: Seq<u8>,
    i: int,
    needle: Seq<char>,
    k: int,
    kk: int,
)
    requires
        0 <= k <= kk < i < t.len(),
        t[k].depth == t[i].depth,
        t[k].kind@ == "attribute_item"@,
        contains(node_text(t, bytes, k), needle),
        forall|m: int|
            k < m < i ==> t[m].depth > t[i].depth || (t[m].depth == t[i].depth && (t[m].kind@
                == "attribute_item"@ || is_comment_kind(t[m].kind@))),
    ensures
        sibling_attribute(t, bytes, i, needle, false, kk),
    decreases kk - k,
{
    if kk > k {
        lemma_own_attribute_found(t, bytes, i, needle, k, kk - 1);
    }
}

proof fn lemma_attr_start_at(t: Seq<SyntaxNode>, bytes: Seq<u8>, i: int, k: int, kk: int)
    requires
        0 <= k <= kk < i < t.len(),
        t[k].depth == t[i].depth,
        t[k].kind@ == "attribute_item"@,
        t[k].end_byte <= t[i].start_byte,
        all_space(slice_chars(bytes, t[k].end_byte as int, t[i].start_byte as int)),
        forall|m: int| k < m < i ==> t[m].depth > t[i].depth,
    ensures
        attr_start_from(t, bytes, i, kk) == t[k].start_byte,
    decreases kk - k,
{
    if kk > k {
        lemma_attr_start_at(t, bytes, i, k, kk - 1);
    }
}

/// Law: a module carrying a `cfg(test)` attribute among its own attributes (the
/// attribute items right before it, with only attributes and comments between),
/// whatever its name, is removed by the test pass as a whole, from its
/// attributes' start to its end, when no enclosing node is a function or a test
/// module. When that attribute is the one right before the module, separated by
/// whitespace only, the removal starts at the attribute.
pub proof fn lemma_cfg_test_module_removed(t: Seq<SyntaxNode>, bytes: Seq<u8>, i: int, k: int)
    requires
        1 <= i < t.len(),
        t[i].kind@ == "mod_item"@,
        0 <= k < i,
        t[k].depth == t[i].depth,
        t[k].kind@ == "attribute_item"@,
        contains(node_text(t, bytes, k), "cfg(test)"@),
        forall|m: int|
            k < m < i ==> t[m].depth > t[i].depth || (t[m].depth == t[i].depth && (t[m].kind@
                == "attribute_item"@ || is_comment_kind(t[m].kind@))),
        forall|m: int|
            #[trigger] above(t, m, i) ==> t[m].kind@ != "function_item"@ && (t[m].kind@ == "mod_item"@
                ==> !is_test_module(t, bytes, m)),
    ensures
        rust_ranges(t, bytes).contains(
            RemovalRange {
                start: attr_start(t, bytes, i),
                end: t[i].end_byte,
                reason: RemovalReason::TestModule,
            },
        ),
        (forall|m: int| k < m < i ==> t[m].depth > t[i].depth) && t[k].end_byte <= t[i].start_byte
            && all_space(slice_chars(bytes, t[k].end_byte as int, t[i].start_byte as int))
            ==> attr_start(t, bytes, i) == t[k].start_byte,
{
    lemma_own_attribute_found(t, bytes, i, "cfg(test)"@, k, i - 1);
    assert(is_test_module(t, bytes, i));
    let visits = Seq::new(t.len(), |j: int| rust_visit(t, bytes, true, j));
    let r = RemovalRange { start: attr_start(t, bytes, i), end: t[i].end_byte, reason: RemovalReason::TestModule };
    assert(visits[i] == Visit::Emit(r));
    assert forall|m: int| #[trigger] above(t, m, i) implies (visits[m] is Enter || visits[m] is EmitEnter) by {
        assert(visits[m] == test_visit(t, bytes, m));
    }
    lemma_walk_reaches(t, visits, i, r);
    let tp = rust_pass(t, bytes, true);
    let sp = rust_pass(t, bytes, false);
    let w = choose|w: int| 0 <= w < tp.len() && tp[w] == r;
    assert((tp + sp)[w] == r);
    if (forall|m: int| k < m < i ==> t[m].depth > t[i].depth) && t[k].end_byte <= t[i].start_byte
        && all_space(slice_chars(bytes, t[k].end_byte as int, t[i].start_byte as int)) {
        lemma_attr_start_at(t, bytes, i, k, i - 1);
    }
}

/// Law: in the NoTests variant, when the removal ranges come in order of their
/// start (as a pre-order walk of a well-formed tree gives them), no text of such
/// a `cfg(test)` module (see [`lemma_cfg_test_module_removed`]) is kept, from its
/// attributes' start to its end: no kept span of the source overlaps it.
pub proof fn lemma_no_tests_drops_cfg_test_module(t: Seq<SyntaxNode>, bytes: Seq<u8>, i: int, k: int)
    requires
        ordered_selection(rust_ranges(t, bytes), SpliceMode::Tests),
        1 <= i < t.len(),
        t[i].kind@ == "mod_item"@,
        0 <= k < i,
        t[k].depth == t[i].depth,
        t[k].kind@ == "attribute_item"@,
        contains(node_text(t, bytes, k), "cfg(test)"@),
        forall|m: int|
            k < m < i ==> t[m].depth > t[i].depth || (t[m].depth == t[i].depth && (t[m].kind@
                == "attribute_item"@ || is_comment_kind(t[m].kind@))),
        forall|m: int|
            #[trigger] above(t, m, i) ==> t[m].kind@ != "function_item"@ && (t[m].kind@ == "mod_item"@
                ==> !is_test_module(t, bytes, m)),
    ensures
        forall|s: int|
            0 <= s < kept_spans(rust_ranges(t, bytes), SpliceMode::Tests, bytes.len() as int).len()
                ==> #[trigger] kept_spans(rust_ranges(t, bytes), SpliceMode::Tests, bytes.len() as int)[s].1
                <= attr_start(t, bytes, i) || t[i].end_byte <= kept_spans(
                rust_ranges(t, bytes),
                SpliceMode::Tests,
                bytes.len() as int,
            )[s].0,
{
    lemma_cfg_test_module_removed(t, bytes, i, k);
    lemma_no_tests_drops_range(
        bytes,
        rust_ranges(t, bytes),
        RemovalRange { start: attr_start(t, bytes, i), end: t[i].end_byte, reason: RemovalReason::TestModule },
    );
}

/// Whether one of the attributes of node `i` that precede it matches `needle` (see
/// [`sibling_attribute`]).
fn find_sibling_attribute(nodes: &[SyntaxNode], source: &str, i: usize, needle: &str, exact: bool) -> (res: bool)
    requires
        i < nodes@.len(),
        nodes_fit(nodes@, source.spec_bytes()),
    ensures
        res == sibling_attribute(nodes@, source.spec_bytes(), i as int, needle@, exact, i - 1),
{
    let ghost bytes = source.spec_bytes();
    let needle_chars = chars_of(needle);
    let d = nodes[i].depth;
    let mut k: usize = i;
    while k > 0
        invariant
            k <= i < nodes@.len(),
            d == nodes@[i as int].depth,
            bytes == source.spec_bytes(),
            needle_chars@ == needle@,
            nodes_fit(nodes@, bytes),
            sibling_attribute(nodes@, bytes, i as int, needle@, exact, k - 1) == sibling_attribute(
                nodes@,
                bytes,
                i as int,
                needle@,
                exact,
                i - 1,
            ),
        decreases k,
    {
        let s = k - 1;
        if nodes[s].depth < d {
            return false;
        }
        if nodes[s].depth == d {
            if kind_is(nodes, s, "attribute_item") {
                let text = node_chars(nodes, source, s);
                let matched = if exact {
                    seq_equal(text.as_slice(), needle_chars.as_slice())
                } else {
                    seq_contains(text.as_slice(), needle_chars.as_slice())
                };
                if matched {
                    return true;
                }
            } else if !kind_is(nodes, s, "line_comment") && !kind_is(nodes, s, "block_comment") {
                return false;
            }
        }
        k = s;
    }
    false
}

/// Whether a child of node `i` is an `attribute_item` whose text contains `needle`.
fn find_child_attribute(nodes: &[SyntaxNode], source: &str, i: usize, needle: &str) -> (res: bool)
    requires
        i < nodes@.len(),
        nodes_fit(nodes@, source.spec_bytes()),
    ensures
        res == child_attribute(nodes@, source.spec_bytes(), i as int, needle@, i + 1),
{
    let ghost bytes = source.spec_bytes();
    let needle_chars = chars_of(needle);
    let d = nodes[i].depth;
    let mut j: usize = i + 1;
    while j < nodes.len()
        invariant
            i < j <= nodes@.len(),
            d == nodes@[i as int].depth,
            bytes == source.spec_bytes(),
            needle_chars@ == needle@,
            nodes_fit(nodes@, bytes),
            child_attribute(nodes@, bytes, i as int, needle@, j as int) == child_attribute(
                nodes@,
                bytes,
                i as int,
                needle@,
                i + 1,
            ),
        decreases nodes.len() - j,
    {
        if nodes[j].depth <= d {
            return false;
        }
        if nodes[j].depth - 1 == d && kind_is(nodes, j, "attribute_item") {
            let text = node_chars(nodes, source, j);
            if seq_contains(text.as_slice(), needle_chars.as_slice()) {
                return true;
            }
        }
        j = j + 1;
    }
    false
}

/// Whether a node is named `tests`.
fn module_named_tests(nodes: &[SyntaxNode], source: &str, i: usize) -> (res: bool)
    requires
        i < nodes@.len(),
        nodes_fit(nodes@, source.spec_bytes()),
    ensures
        res == named_tests(nodes@, source.spec_bytes(), i as int),
{
    match find_child(nodes, i, "identifier", "identifier") {
        Some(c) => {
            let text = node_chars(nodes, source, c);
            let name = chars_of("tests");
            seq_equal(text.as_slice(), name.as_slice())
        },
        None => false,
    }
}

/// Whether a module is annotated with `#[cfg(test)]` or named `tests`.
fn test_module(nodes: &[SyntaxNode], source: &str, i: usize) -> (res: bool)
    requires
        i < nodes@.len(),
        nodes_fit(nodes@, source.spec_bytes()),
    ensures
        res == is_test_module(nodes@, source.spec_bytes(), i as int),
{
    find_child_attribute(nodes, source, i, "cfg(test)") || find_sibling_attribute(
        nodes,
        source,
        i,
        "cfg(test)",
        false,
    ) || module_named_tests(nodes, source, i)
}

/// Whether a function is annotated with `#[test]` or `#[tokio::test...]`.
fn test_function(nodes: &[SyntaxNode], source: &str, i: usize) -> (res: bool)
    requires
        i < nodes@.len(),
        nodes_fit(nodes@, source.spec_bytes()),
    ensures
        res == is_test_function(nodes@, source.spec_bytes(), i as int),
{
    find_sibling_attribute(nodes, source, i, "#[test]", true) || find_sibling_attribute(
        nodes,
        source,
        i,
        "#[tokio::test",
        false,
    )
}

/// The start of attributes preceding a node.
fn find_attr_start(nodes: &[SyntaxNode], source: &str, i: usize) -> (res: usize)
    requires
        i < nodes@.len(),
        nodes_fit(nodes@, source.spec_bytes()),
    ensures
        res == attr_start(nodes@, source.spec_bytes(), i as int),
{
    let ghost bytes = source.spec_bytes();
    let d = nodes[i].depth;
    let start = nodes[i].start_byte;
    let mut k: usize = i;
    while k > 0
        invariant
            k <= i < nodes@.len(),
            d == nodes@[i as int].depth,
            start == nodes@[i as int].start_byte,
            bytes == source.spec_bytes(),
            nodes_fit(nodes@, bytes),
            attr_start_from(nodes@, bytes, i as int, k - 1) == attr_start(nodes@, bytes, i as int),
        decreases k,
    {
        let s = k - 1;
        if nodes[s].depth < d {
            return start;
        }
        if nodes[s].depth == d && kind_is(nodes, s, "attribute_item") && nodes[s].end_byte <= start {
            proof {
                assert(node_fits(nodes@, bytes, s as int));
                assert(node_fits(nodes@, bytes, i as int));
            }
            let between = chars_of(byte_slice(source, nodes[s].end_byte, start));
            if is_all_space(between.as_slice()) {
                return nodes[s].start_byte;
            }
        }
        k = s;
    }
    start
}

/// The start computed by `attr_start_from` is a character boundary.
proof fn lemma_attr_start_fits(t: Seq<SyntaxNode>, bytes: Seq<u8>, i: int, k: int)
    requires
        nodes_fit(t, bytes),
        0 <= i < t.len(),
    ensures
        vstd::utf8::is_char_boundary(bytes, attr_start_from(t, bytes, i, k) as int),
    decreases k + 1,
{
    assert(node_fits(t, bytes, i));
    if !(k < 0 || k >= i || i >= t.len() || t[k].depth < t[i].depth) {
        assert(node_fits(t, bytes, k));
        lemma_attr_start_fits(t, bytes, i, k - 1);
    }
}

/// The visit of the test pass (`tests`) or of the summary pass at node `j`.
fn visit_at(nodes: &[SyntaxNode], source: &str, tests: bool, j: usize) -> (res: Visit)
    requires
        j < nodes@.len(),
        nodes_fit(nodes@, source.spec_bytes()),
    ensures
        res == rust_visit(nodes@, source.spec_bytes(), tests, j as int),
        visit_fits(source.spec_bytes(), res),
{
    let ghost t = nodes@;
    let ghost bytes = source.spec_bytes();
    proof {
        assert(node_fits(t, bytes, j as int));
    }
    if tests {
        if kind_is(nodes, j, "mod_item") {
            if test_module(nodes, source, j) {
                proof {
                    lemma_attr_start_fits(t, bytes, j as int, j - 1);
                }
                let start = find_attr_start(nodes, source, j);
                Visit::Emit(RemovalRange { start, end: nodes[j].end_byte, reason: RemovalReason::TestModule })
            } else {
                Visit::Enter
            }
        } else if kind_is(nodes, j, "function_item") {
            if test_function(nodes, source, j) {
                proof {
                    lemma_attr_start_fits(t, bytes, j as int, j - 1);
                }
                let start = find_attr_start(nodes, source, j);
                Visit::Emit(RemovalRange { start, end: nodes[j].end_byte, reason: RemovalReason::TestFunction })
            } else {
                Visit::Prune
            }
        } else {
            Visit::Enter
        }
    } else {
        if kind_is(nodes, j, "function_item") {
            if test_function(nodes, source, j) {
                Visit::Prune
            } else {
                match find_child(nodes, j, "block", "block") {
                    Some(b) => {
                        proof {
                            lemma_node_range_fits(t, bytes, b as int, RemovalReason::Implementation);
                        }
                        Visit::Emit(range_of(nodes, b, RemovalReason::Implementation))
                    },
                    None => Visit::Prune,
                }
            }
        } else if kind_is(nodes, j, "impl_item") {
            match find_child(nodes, j, "declaration_list", "declaration_list") {
                Some(d) => {
                    proof {
                        lemma_node_range_fits(t, bytes, d as int, RemovalReason::Implementation);
                    }
                    Visit::EmitEnter(range_of(nodes, d, RemovalReason::Implementation))
                },
                None => Visit::Enter,
            }
        } else if kind_is(nodes, j, "mod_item") {
            if test_module(nodes, source, j) {
                Visit::Prune
            } else {
                Visit::Enter
            }
        } else {
            Visit::Enter
        }
    }
}

/// Collect the ranges of one pass over the tree.
fn collect_ranges(nodes: &[SyntaxNode], source: &str, tests: bool) -> (res: Vec<RemovalRange>)
    requires
        nodes_fit(nodes@, source.spec_bytes()),
    ensures
        res@ == rust_pass(nodes@, source.spec_bytes(), tests),
        ranges_fit(source.spec_bytes(), res@),
{
    let ghost t = nodes@;
    let ghost bytes = source.spec_bytes();
    let mut visits: Vec<Visit> = Vec::new();
    let mut j: usize = 0;
    while j < nodes.len()
        invariant
            j <= nodes@.len(),
            visits@.len() == j,
            t == nodes@,
            bytes == source.spec_bytes(),
            nodes_fit(t, bytes),
            forall|k: int| 0 <= k < j ==> visits@[k] == rust_visit(t, bytes, tests, k),
            forall|k: int| 0 <= k < j ==> #[trigger] visit_fits(bytes, visits@[k]),
        decreases nodes.len() - j,
    {
        let v = visit_at(nodes, source, tests, j);
        visits.push(v);
        j = j + 1;
    }
    let ghost all = Seq::new(t.len(), |k: int| rust_visit(t, bytes, tests, k));
    assert(visits@ =~= all);
    proof {
        lemma_walk_fits(t, visits@, 1, bytes);
    }
    walk_ranges(nodes, visits.as_slice())
}

/// Parser for Rust source files using tree-sitter.
#[derive(Debug, Default)]
pub struct RustParser;

impl RustParser {
    /// Create a new Rust parser.
    pub fn new() -> (res: Self) {
        RustParser
    }

    /// The parsed file of a source whose syntax tree is `nodes`.
    pub fn parse_tree(&self, source: &str, path: &str, nodes: &[SyntaxNode]) -> (res: ParsedFile)
        requires
            nodes_fit(nodes@, source.spec_bytes()),
        ensures
            crate::parser::parsed_as(res, path@, Language::Rust, source@, rust_ranges(nodes@, source.spec_bytes())),
    {
        let test_ranges = collect_ranges(nodes, source, true);
        let summary_ranges = collect_ranges(nodes, source, false);
        proof {
            lemma_ranges_fit_concat(source.spec_bytes(), test_ranges@, summary_ranges@);
        }
        assemble(source, path, Language::Rust, test_ranges.as_slice(), summary_ranges.as_slice())
    }

    /// Parse a source from what the syntax-tree parser gave back for it.
    pub fn parse_syntax(
        &self,
        source: &str,
        path: &str,
        syntax: Result<Vec<SyntaxNode>, SyntaxFailure>,
    ) -> (res: Result<ParsedFile, AstDocError>)
        ensures
            parse_outcome(
                res,
                path@,
                Language::Rust,
                source@,
                syntax,
                |t: Seq<SyntaxNode>| rust_ranges(t, source.spec_bytes()),
            ),
    {
        match syntax {
            Err(failure) => Err(syntax_error(&Language::Rust, failure)),
            Ok(nodes) => {
                if fits_source(nodes.as_slice(), source) {
                    Ok(self.parse_tree(source, path, nodes.as_slice()))
                } else {
                    Err(misfit_error(path))
                }
            },
        }
    }
}

impl LanguageParser for RustParser {
    fn parse(&self, source: &str, path: &str) -> (res: Result<ParsedFile, AstDocError>)
        ensures
            parse_claim(
                res,
                path@,
                Language::Rust,
                source@,
                rust_syntax(source@),
                rust_ranges(rust_syntax(source@), source.spec_bytes()),
            ),
    {
        let syntax = rust_syntax_tree(source);
        let ghost g = syntax;
        let res = self.parse_syntax(source, path, syntax);
        proof {
            lemma_outcome_claim(
                res,
                path@,
                Language::Rust,
                source@,
                g,
                |t: Seq<SyntaxNode>| rust_ranges(t, source.spec_bytes()),
                rust_syntax(source@),
            );
        }
        res
    }
}

} // verus!
