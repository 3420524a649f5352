//! Go parser using tree-sitter.
//!
//! Detects `func Test*` and `func Benchmark*` functions, and `_test.go` files.
//! Keeps function/type signatures for Summary mode.

use vstd::prelude::*;
use vstd::string::StringSliceAdditionalSpecFns;
use crate::error::AstDocError;
use crate::parser::strategy::{
    RemovalRange, RemovalReason, SpliceMode, byte_len, kept_spans, lemma_ranges_fit_concat,
    lemma_summary_drops_range, range_fits, ranges_fit, sort_by_start,
};
use crate::parser::syntax::{
    SyntaxFailure, SyntaxNode, Visit, above, find_child, first_child, fits_source, kind_is,
    lemma_child_bounds, lemma_node_range_fits, lemma_walk_forward, lemma_walk_reaches, node_fits,
    visit_forward, lemma_walk_fits, node_chars, node_range, node_text, nodes_fit, range_of,
    visit_fits, walk_ranges, walk_tree,
};
use crate::parser::{
    Language, LanguageParser, ParsedFile, assemble, lemma_outcome_claim, misfit_error, parse_claim,
    parse_outcome, parsed_as, syntax_error,
};
use crate::text::{chars_of, ends_with, seq_starts_with, starts_with, str_ends_with};

verus! {

broadcast use vstd::utf8::group_utf8_lib;

/// The syntax tree, in pre-order, that tree-sitter parses from a text with the
/// `tree-sitter-go` grammar.
pub uninterp spec fn go_syntax(source: Seq<char>) -> Seq<SyntaxNode>;

/// Parse `source` with tree-sitter and the `tree-sitter-go` grammar.
///
/// Trusted: calls `Parser::set_language` with `tree_sitter_go::LANGUAGE` and
/// `Parser::parse`, then lists the nodes of the tree in descendant order (which is
/// pre-order) with `TreeCursor::goto_descendant`, each with its kind, byte range and
/// depth. The grammar's ABI version is one that tree-sitter accepts, and with a
/// language set `Parser::parse` always gives a tree (no timeout or cancellation
/// is set), so the call succeeds; the tree is a function of the text.
#[verifier::external_body]
fn go_syntax_tree(source: &str) -> (res: Result<Vec<SyntaxNode>, SyntaxFailure>)
    ensures
        res is Ok,
        res matches Ok(nodes) ==> nodes@ == go_syntax(source@),
{
    let mut parser = tree_sitter::Parser::new();
    parser.set_language(&tree_sitter_go::LANGUAGE.into()).map_err(|e| SyntaxFailure::Grammar(e.to_string()))?;
    let tree = parser.parse(source, None).ok_or(SyntaxFailure::NoTree)?;
    let mut cursor = tree.walk();
    let mut nodes = Vec::new();
    for i in 0..tree.root_node().descendant_count() {
        cursor.goto_descendant(i);
        let n = cursor.node();
        nodes.push(SyntaxNode { kind: n.kind().to_string(), start_byte: n.start_byte(), end_byte: n.end_byte(), depth: cursor.depth() as usize });
    }
    Ok(nodes)
}

/// A function whose first identifier starts with `Test` or `Benchmark`.
pub open spec fn is_test_function(t: Seq<SyntaxNode>, bytes: Seq<u8>, i: int) -> bool {
    match first_child(t, i, "identifier"@, "identifier"@) {
        Some(c) => starts_with(node_text(t, bytes, c), "Test"@) || starts_with(
            node_text(t, bytes, c),
            "Benchmark"@,
        ),
        None => false,
    }
}

/// A Go test file: its path ends with `_test.go`.
pub open spec fn is_test_file(path: Seq<char>) -> bool {
    ends_with(path, "_test.go"@)
}

/// What the test pass does at node `j`: a test function is removed.
pub open spec fn test_visit(t: Seq<SyntaxNode>, bytes: Seq<u8>, j: int) -> Visit {
    if t[j].kind@ == "function_declaration"@ && is_test_function(t, bytes, j) {
        Visit::Emit(node_range(t, j, RemovalReason::TestFunction))
    } else {
        Visit::Enter
    }
}

/// What the summary pass does at node `j`: the `block` of a non-test function or
/// method is replaced; type declarations are kept whole.
pub open spec fn summary_visit(t: Seq<SyntaxNode>, bytes: Seq<u8>, j: int) -> Visit {
    if t[j].kind@ == "function_declaration"@ || t[j].kind@ == "method_declaration"@ {
        if is_test_function(t, bytes, j) {
            Visit::Prune
        } else {
            match first_child(t, j, "block"@, "block"@) {
                Some(b) => Visit::Emit(node_range(t, b, RemovalReason::Implementation)),
                None => Visit::Prune,
            }
        }
    } else if t[j].kind@ == "type_declaration"@ {
        Visit::Prune
    } else {
        Visit::Enter
    }
}

/// The visit of the test pass (`tests`) or of the summary pass at node `j`.
pub open spec fn go_visit(t: Seq<SyntaxNode>, bytes: Seq<u8>, tests: bool, j: int) -> Visit {
    if tests {
        test_visit(t, bytes, j)
    } else {
        summary_visit(t, bytes, j)
    }
}

/// The ranges of one pass over the tree.
pub open spec fn go_pass(t: Seq<SyntaxNode>, bytes: Seq<u8>, tests: bool) -> Seq<RemovalRange> {
    walk_tree(t, Seq::new(t.len(), |j: int| go_visit(t, bytes, tests, j)))
}

/// The removal ranges of a Go source at `path`: a test file is one test range
/// over the whole source; otherwise those of the test pass, then those of the
/// summary pass.
pub open spec fn go_ranges(t: Seq<SyntaxNode>, bytes: Seq<u8>, path: Seq<char>) -> Seq<RemovalRange> {
    if is_test_file(path) {
        seq![RemovalRange { start: 0, end: bytes.len() as usize, reason: RemovalReason::TestModule }]
    } else {
        go_pass(t, bytes, true) + go_pass(t, bytes, false)
    }
}

/// Law: in a Go file that is not a test file, the summary pass replaces the
/// `block` of every method declaration, and of every function declaration,
/// whose name does not start with `Test` or `Benchmark`, when it lies in no other
/// function, method or type declaration.
pub proof fn lemma_function_bodies_replaced(
    t: Seq<SyntaxNode>,
    bytes: Seq<u8>,
    path: Seq<char>,
    j: int,
    b: int,
)
    requires
        !is_test_file(path),
        1 <= j < t.len(),
        t[j].kind@ == "method_declaration"@ || t[j].kind@ == "function_declaration"@,
        !is_test_function(t, bytes, j),
        first_child(t, j, "block"@, "block"@) == Some(b),
        forall|m: int|
            #[trigger] above(t, m, j) ==> t[m].kind@ != "function_declaration"@ && t[m].kind@
                != "method_declaration"@ && t[m].kind@ != "type_declaration"@,
    ensures
        go_ranges(t, bytes, path).contains(node_range(t, b, RemovalReason::Implementation)),
{
    let visits = Seq::new(t.len(), |k: int| go_visit(t, bytes, false, k));
    let r = node_range(t, b, RemovalReason::Implementation);
    assert(visits[j] == Visit::Emit(r));
    assert forall|m: int| #[trigger] above(t, m, j) implies (visits[m] is Enter || visits[m] is EmitEnter) by {
        assert(visits[m] == summary_visit(t, bytes, m));
    }
    lemma_walk_reaches(t, visits, j, r);
    let tp = go_pass(t, bytes, true);
    let sp = go_pass(t, bytes, false);
    let w = choose|w: int| 0 <= w < sp.len() && sp[w] == r;
    assert((tp + sp)[tp.len() + w] == r);
}

proof fn lemma_ranges_forward(t: Seq<SyntaxNode>, bytes: Seq<u8>, path: Seq<char>)
    requires
        nodes_fit(t, bytes),
    ensures
        forall|i: int| 0 <= i < go_ranges(t, bytes, path).len() ==> (#[trigger] go_ranges(t, bytes, path)[i]).start
            <= go_ranges(t, bytes, path)[i].end,
{
    if !is_test_file(path) {
        let tv = Seq::new(t.len(), |k: int| go_visit(t, bytes, true, k));
        let sv = Seq::new(t.len(), |k: int| go_visit(t, bytes, false, k));
        assert forall|k: int| 0 <= k < t.len() implies visit_forward(#[trigger] tv[k]) by {
            assert(node_fits(t, bytes, k));
        }
        assert forall|k: int| 0 <= k < t.len() implies visit_forward(#[trigger] sv[k]) by {
            lemma_child_bounds(t, k, "block"@, "block"@, k + 1);
            if let Some(c) = first_child(t, k, "block"@, "block"@) {
                assert(node_fits(t, bytes, c));
            }
        }
        lemma_walk_forward(t, tv, 1);
        lemma_walk_forward(t, sv, 1);
        let a = go_pass(t, bytes, true);
        let b = go_pass(t, bytes, false);
        assert forall|i: int| 0 <= i < (a + b).len() implies (#[trigger] (a + b)[i]).start <= (a + b)[i].end by {
            if i < a.len() {
                assert((a + b)[i] == a[i]);
            } else {
                assert((a + b)[i] == b[i - a.len()]);
            }
        }
    }
}

/// Law: in the Summary variant of a Go file that is not a test file, no text of
/// the `block` of such a method or function (see [`lemma_function_bodies_replaced`])
/// is kept: no kept span of the source overlaps it.
pub proof fn lemma_summary_drops_function_bodies(
    t: Seq<SyntaxNode>,
    bytes: Seq<u8>,
    path: Seq<char>,
    j: int,
    b: int,
)
    requires
        nodes_fit(t, bytes),
        !is_test_file(path),
        1 <= j < t.len(),
        t[j].kind@ == "method_declaration"@ || t[j].kind@ == "function_declaration"@,
        !is_test_function(t, bytes, j),
        first_child(t, j, "block"@, "block"@) == Some(b),
        forall|m: int|
            #[trigger] above(t, m, j) ==> t[m].kind@ != "function_declaration"@ && t[m].kind@
                != "method_declaration"@ && t[m].kind@ != "type_declaration"@,
    ensures
        forall|k: int|
            0 <= k < kept_spans(sort_by_start(go_ranges(t, bytes, path)), SpliceMode::Summary, bytes.len() as int).len()
                ==> #[trigger] kept_spans(sort_by_start(go_ranges(t, bytes, path)), SpliceMode::Summary, bytes.len() as int)[k].1
                <= t[b].start_byte || t[b].end_byte <= kept_spans(
                sort_by_start(go_ranges(t, bytes, path)),
                SpliceMode::Summary,
                bytes.len() as int,
            )[k].0,
{
    lemma_function_bodies_replaced(t, bytes, path, j, b);
    lemma_ranges_forward(t, bytes, path);
    lemma_summary_drops_range(bytes, go_ranges(t, bytes, path), node_range(t, b, RemovalReason::Implementation));
}

/// Whether a function name starts with `Test` or `Benchmark`.
fn test_function(nodes: &[SyntaxNode], source: &str, i: usize) -> (res: bool)
    requires
        i < nodes@.len(),
        nodes_fit(nodes@, source.spec_bytes()),
    ensures
        res == is_test_function(nodes@, source.spec_bytes(), i as int),
{
    match find_child(nodes, i, "identifier", "identifier") {
        Some(c) => {
            let text = node_chars(nodes, source, c);
            let test = chars_of("Test");
            let bench = chars_of("Benchmark");
            seq_starts_with(text.as_slice(), test.as_slice()) || seq_starts_with(
                text.as_slice(),
                bench.as_slice(),
            )
        },
        None => false,
    }
}

/// The visit of the test pass (`tests`) or of the summary pass at node `j`.
fn visit_at(nodes: &[SyntaxNode], source: &str, tests: bool, j: usize) -> (res: Visit)
    requires
        j < nodes@.len(),
        nodes_fit(nodes@, source.spec_bytes()),
    ensures
        res == go_visit(nodes@, source.spec_bytes(), tests, j as int),
        visit_fits(source.spec_bytes(), res),
{
    let ghost t = nodes@;
    let ghost bytes = source.spec_bytes();
    proof {
        lemma_node_range_fits(t, bytes, j as int, RemovalReason::TestFunction);
    }
    if tests {
        if kind_is(nodes, j, "function_declaration") && test_function(nodes, source, j) {
            Visit::Emit(range_of(nodes, j, RemovalReason::TestFunction))
        } else {
            Visit::Enter
        }
    } else if kind_is(nodes, j, "function_declaration") || kind_is(nodes, j, "method_declaration") {
        if test_function(nodes, source, j) {
            Visit::Prune
        } else {
            match find_child(nodes, j, "block", "block") {
                Some(b) => {
                    proof {
                        lemma_node_range_fits(t, bytes, b as int, RemovalReason::Implementation);
                    }
                    Visit::Emit(range_of(nodes, b, RemovalReason::Implementation))
                },
                None => Visit::Prune,
            }
        }
    } else if kind_is(nodes, j, "type_declaration") {
        Visit::Prune
    } else {
        Visit::Enter
    }
}

/// Collect the ranges of one pass over the tree.
fn collect_ranges(nodes: &[SyntaxNode], source: &str, tests: bool) -> (res: Vec<RemovalRange>)
    requires
        nodes_fit(nodes@, source.spec_bytes()),
    ensures
        res@ == go_pass(nodes@, source.spec_bytes(), tests),
        ranges_fit(source.spec_bytes(), res@),
{
    let ghost t = nodes@;
    let ghost bytes = source.spec_bytes();
    let mut visits: Vec<Visit> = Vec::new();
    let mut j: usize = 0;
    while j < nodes.len()
        invariant
            j <= nodes@.len(),
            visits@.len() == j,
            t == nodes@,
            bytes == source.spec_bytes(),
            nodes_fit(t, bytes),
            forall|k: int| 0 <= k < j ==> visits@[k] == go_visit(t, bytes, tests, k),
            forall|k: int| 0 <= k < j ==> #[trigger] visit_fits(bytes, visits@[k]),
        decreases nodes.len() - j,
    {
        let v = visit_at(nodes, source, tests, j);
        visits.push(v);
        j = j + 1;
    }
    let ghost all = Seq::new(t.len(), |k: int| go_visit(t, bytes, tests, k));
    assert(visits@ =~= all);
    proof {
        lemma_walk_fits(t, visits@, 1, bytes);
    }
    walk_ranges(nodes, visits.as_slice())
}

/// Parser for Go source files using tree-sitter.
#[derive(Debug, Default)]
pub struct GoParser;

impl GoParser {
    /// Create a new Go parser.
    pub fn new() -> (res: Self) {
        GoParser
    }

    /// The parsed file of a source at `path` whose syntax tree is `nodes`.
    pub fn parse_tree(&self, source: &str, path: &str, nodes: &[SyntaxNode]) -> (res: ParsedFile)
        requires
            nodes_fit(nodes@, source.spec_bytes()),
        ensures
            parsed_as(res, path@, Language::Go, source@, go_ranges(nodes@, source.spec_bytes(), path@)),
    {
        let ghost bytes = source.spec_bytes();
        if str_ends_with(path, "_test.go") {
            let whole = RemovalRange { start: 0, end: byte_len(source), reason: RemovalReason::TestModule };
            let test_ranges = vec![whole];
            let summary_ranges: Vec<RemovalRange> = Vec::new();
            proof {
                assert(vstd::utf8::valid_utf8(bytes));
                assert(vstd::utf8::is_char_boundary(bytes, 0));
                assert(vstd::utf8::is_char_boundary(bytes, bytes.len() as int));
                assert(range_fits(bytes, whole));
                assert(test_ranges@ + summary_ranges@ =~= go_ranges(nodes@, bytes, path@));
            }
            assemble(source, path, Language::Go, test_ranges.as_slice(), summary_ranges.as_slice())
        } else {
            let test_ranges = collect_ranges(nodes, source, true);
            let summary_ranges = collect_ranges(nodes, source, false);
            proof {
                lemma_ranges_fit_concat(bytes, test_ranges@, summary_ranges@);
            }
            assemble(source, path, Language::Go, test_ranges.as_slice(), summary_ranges.as_slice())
        }
    }

    /// Parse a source from what the syntax-tree parser gave back for it.
    pub fn parse_syntax(
        &self,
        source: &str,
        path: &str,
        syntax: Result<Vec<SyntaxNode>, SyntaxFailure>,
    ) -> (res: Result<ParsedFile, AstDocError>)
        ensures
            parse_outcome(
                res,
                path@,
                Language::Go,
                source@,
                syntax,
                |t: Seq<SyntaxNode>| go_ranges(t, source.spec_bytes(), path@),
            ),
    {
        match syntax {
            Err(failure) => Err(syntax_error(&Language::Go, failure)),
            Ok(nodes) => {
                if fits_source(nodes.as_slice(), source) {
                    Ok(self.parse_tree(source, path, nodes.as_slice()))
                } else {
                    Err(misfit_error(path))
                }
            },
        }
    }
}

impl LanguageParser for GoParser {
    fn parse(&self, source: &str, path: &str) -> (res: Result<ParsedFile, AstDocError>)
        ensures
            parse_claim(
                res,
                path@,
                Language::Go,
                source@,
                go_syntax(source@),
                go_ranges(go_syntax(source@), source.spec_bytes(), path@),
            ),
    {
        let syntax = go_syntax_tree(source);
        let ghost g = syntax;
        let res = self.parse_syntax(source, path, syntax);
        proof {
            lemma_outcome_claim(
                res,
                path@,
                Language::Go,
                source@,
                g,
                |t: Seq<SyntaxNode>| go_ranges(t, source.spec_bytes(), path@),
                go_syntax(source@),
            );
        }
        res
    }
}

} // verus!
