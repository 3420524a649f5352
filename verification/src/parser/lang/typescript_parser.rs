//! TypeScript parser using tree-sitter.
//!
//! Detects test blocks: `describe()`, `it()`, `test()` calls; a test file
//! (`*.test.*`, `*.spec.*`) is test code as a whole.
//! Keeps function/class signatures for Summary mode.

use vstd::prelude::*;
use vstd::string::StringSliceAdditionalSpecFns;
use crate::error::AstDocError;
use crate::parser::strategy::{
    RemovalRange, RemovalReason, SpliceMode, byte_len, kept_spans, lemma_ranges_fit_concat,
    lemma_summary_drops_range, range_fits, ranges_fit, sort_by_start,
};
use crate::paths::{file_name, path_file_name};
use crate::parser::syntax::{
    SyntaxFailure, SyntaxNode, Visit, above, find_child, first_child, fits_source, kind_is,
    lemma_child_bounds, lemma_walk_forward, lemma_walk_reaches, node_fits, visit_forward,
    lemma_node_range_fits, lemma_walk_fits, node_chars, node_range,
    node_text, nodes_fit, range_of, visit_fits, walk_ranges, walk_tree,
};
use crate::parser::{
    Language, LanguageParser, ParsedFile, assemble, lemma_outcome_claim, misfit_error, parse_claim,
    parse_outcome, parsed_as, syntax_error,
};
use crate::text::{chars_of, contains, seq_contains, seq_equal, seq_starts_with, starts_with};

verus! {

broadcast use vstd::utf8::group_utf8_lib;

/// The syntax tree, in pre-order, that tree-sitter parses from a text with the
/// `tree-sitter-typescript` grammar.
pub uninterp spec fn typescript_syntax(source: Seq<char>) -> Seq<SyntaxNode>;

/// Parse `source` with tree-sitter and the `tree-sitter-typescript` grammar.
///
/// Trusted: calls `Parser::set_language` with `tree_sitter_typescript::LANGUAGE_TYPESCRIPT` and
/// `Parser::parse`, then lists the nodes of the tree in descendant order (which is
/// pre-order) with `TreeCursor::goto_descendant`, each with its kind, byte range and
/// depth. The grammar's ABI version is one that tree-sitter accepts, and with a
/// language set `Parser::parse` always gives a tree (no timeout or cancellation
/// is set), so the call succeeds; the tree is a function of the text.
#[verifier::external_body]
fn typescript_syntax_tree(source: &str) -> (res: Result<Vec<SyntaxNode>, SyntaxFailure>)
    ensures
        res is Ok,
        res matches Ok(nodes) ==> nodes@ == typescript_syntax(source@),
{
    let mut parser = tree_sitter::Parser::new();
    parser.set_language(&tree_sitter_typescript::LANGUAGE_TYPESCRIPT.into()).map_err(|e| SyntaxFailure::Grammar(e.to_string()))?;
    let tree = parser.parse(source, None).ok_or(SyntaxFailure::NoTree)?;
    let mut cursor = tree.walk();
    let mut nodes = Vec::new();
    for i in 0..tree.root_node().descendant_count() {
        cursor.goto_descendant(i);
        let n = cursor.node();
        nodes.push(SyntaxNode { kind: n.kind().to_string(), start_byte: n.start_byte(), end_byte: n.end_byte(), depth: cursor.depth() as usize });
    }
    Ok(nodes)
}

/// The names of the calls that open a test block.
pub open spec fn is_test_callee(name: Seq<char>) -> bool {
    ||| name == "it"@
    ||| name == "test"@
    ||| name == "describe"@
    ||| name == "xtest"@
    ||| name == "xit"@
    ||| name == "xtest_each"@
}

/// A call whose first identifier or member expression names a test block:
/// `it`, `test`, `describe`, `xtest`, `xit`, `xtest_each`, or a member of `it`,
/// `test` or `describe` such as `it.only`.
pub open spec fn is_test_call(t: Seq<SyntaxNode>, bytes: Seq<u8>, i: int) -> bool {
    match first_child(t, i, "identifier"@, "member_expression"@) {
        Some(c) => if t[c].kind@ == "identifier"@ {
            is_test_callee(node_text(t, bytes, c))
        } else {
            ||| starts_with(node_text(t, bytes, c), "it."@)
            ||| starts_with(node_text(t, bytes, c), "test."@)
            ||| starts_with(node_text(t, bytes, c), "describe."@)
        },
        None => false,
    }
}

/// Whether a child of node `i`, at position `j` or later, is a test call.
pub open spec fn child_test_call(t: Seq<SyntaxNode>, bytes: Seq<u8>, i: int, j: int) -> bool
    decreases t.len() - j,
{
    if j <= i || j >= t.len() || t[j].depth <= t[i].depth {
        false
    } else if t[j].depth == t[i].depth + 1 && t[j].kind@ == "call_expression"@ && is_test_call(t, bytes, j) {
        true
    } else {
        child_test_call(t, bytes, i, j + 1)
    }
}

/// A function-like node whose body the summary pass replaces.
pub open spec fn is_function_kind(kind: Seq<char>) -> bool {
    kind == "function_declaration"@ || kind == "method_definition"@ || kind == "arrow_function"@
}

/// What the test pass does at node `j`: an expression statement holding a test
/// call, or a test call, is removed; other statements and calls are not entered.
pub open spec fn test_visit(t: Seq<SyntaxNode>, bytes: Seq<u8>, j: int) -> Visit {
    if t[j].kind@ == "expression_statement"@ {
        if child_test_call(t, bytes, j, j + 1) {
            Visit::Emit(node_range(t, j, RemovalReason::TestFunction))
        } else {
            Visit::Prune
        }
    } else if t[j].kind@ == "call_expression"@ {
        if is_test_call(t, bytes, j) {
            Visit::Emit(node_range(t, j, RemovalReason::TestFunction))
        } else {
            Visit::Prune
        }
    } else {
        Visit::Enter
    }
}

/// What the summary pass does at node `j`: a function's `statement_block` is
/// replaced and the function not entered.
pub open spec fn summary_visit(t: Seq<SyntaxNode>, j: int) -> Visit {
    if is_function_kind(t[j].kind@) {
        match first_child(t, j, "statement_block"@, "statement_block"@) {
            Some(b) => Visit::Emit(node_range(t, b, RemovalReason::Implementation)),
            None => Visit::Prune,
        }
    } else {
        Visit::Enter
    }
}

/// The visit of the test pass (`tests`) or of the summary pass at node `j`.
pub open spec fn typescript_visit(t: Seq<SyntaxNode>, bytes: Seq<u8>, tests: bool, j: int) -> Visit {
    if tests {
        test_visit(t, bytes, j)
    } else {
        summary_visit(t, j)
    }
}

/// The ranges of one pass over the tree.
pub open spec fn typescript_pass(t: Seq<SyntaxNode>, bytes: Seq<u8>, tests: bool) -> Seq<RemovalRange> {
    walk_tree(t, Seq::new(t.len(), |j: int| typescript_visit(t, bytes, tests, j)))
}

/// Law: in a file that is not a test file, the summary pass replaces the
/// `statement_block` of every method definition, function declaration and arrow
/// function that lies in no other of these.
pub proof fn lemma_function_bodies_replaced(
    t: Seq<SyntaxNode>,
    bytes: Seq<u8>,
    path: Seq<char>,
    j: int,
    b: int,
)
    requires
        !is_test_file(path),
        1 <= j < t.len(),
        t[j].kind@ == "method_definition"@ || t[j].kind@ == "function_declaration"@ || t[j].kind@
            == "arrow_function"@,
        first_child(t, j, "statement_block"@, "statement_block"@) == Some(b),
        forall|m: int|
            #[trigger] above(t, m, j) ==> t[m].kind@ != "method_definition"@ && t[m].kind@
                != "function_declaration"@ && t[m].kind@ != "arrow_function"@,
    ensures
        typescript_ranges(t, bytes, path).contains(node_range(t, b, RemovalReason::Implementation)),
{
    let visits = Seq::new(t.len(), |k: int| typescript_visit(t, bytes, false, k));
    let r = node_range(t, b, RemovalReason::Implementation);
    assert(visits[j] == Visit::Emit(r));
    assert forall|m: int| #[trigger] above(t, m, j) implies (visits[m] is Enter || visits[m] is EmitEnter) by {
        assert(visits[m] == summary_visit(t, m));
    }
    lemma_walk_reaches(t, visits, j, r);
    let tp = typescript_pass(t, bytes, true);
    let sp = typescript_pass(t, bytes, false);
    let w = choose|w: int| 0 <= w < sp.len() && sp[w] == r;
    assert((tp + sp)[tp.len() + w] == r);
}

proof fn lemma_ranges_forward(t: Seq<SyntaxNode>, bytes: Seq<u8>, path: Seq<char>)
    requires
        nodes_fit(t, bytes),
    ensures
        forall|i: int| 0 <= i < typescript_ranges(t, bytes, path).len() ==> (#[trigger] typescript_ranges(t, bytes, path)[i]).start
            <= typescript_ranges(t, bytes, path)[i].end,
{
    if !is_test_file(path) {
        let tv = Seq::new(t.len(), |k: int| typescript_visit(t, bytes, true, k));
        let sv = Seq::new(t.len(), |k: int| typescript_visit(t, bytes, false, k));
        assert forall|k: int| 0 <= k < t.len() implies visit_forward(#[trigger] tv[k]) by {
            assert(node_fits(t, bytes, k));
        }
        assert forall|k: int| 0 <= k < t.len() implies visit_forward(#[trigger] sv[k]) by {
            lemma_child_bounds(t, k, "statement_block"@, "statement_block"@, k + 1);
            if let Some(c) = first_child(t, k, "statement_block"@, "statement_block"@) {
                assert(node_fits(t, bytes, c));
            }
        }
        lemma_walk_forward(t, tv, 1);
        lemma_walk_forward(t, sv, 1);
        let a = typescript_pass(t, bytes, true);
        let b = typescript_pass(t, bytes, false);
        assert forall|i: int| 0 <= i < (a + b).len() implies (#[trigger] (a + b)[i]).start <= (a + b)[i].end by {
            if i < a.len() {
                assert((a + b)[i] == a[i]);
            } else {
                assert((a + b)[i] == b[i - a.len()]);
            }
        }
    }
}

/// Law: in the Summary variant of a file that is not a test file, no text of the
/// `statement_block` of such a method, function or arrow function (see
/// [`lemma_function_bodies_replaced`]) is kept: no kept span of the source
/// overlaps it.
pub proof fn lemma_summary_drops_function_bodies(
    t: Seq<SyntaxNode>,
    bytes: Seq<u8>,
    path: Seq<char>,
    j: int,
    b: int,
)
    requires
        nodes_fit(t, bytes),
        !is_test_file(path),
        1 <= j < t.len(),
        t[j].kind@ == "method_definition"@ || t[j].kind@ == "function_declaration"@ || t[j].kind@
            == "arrow_function"@,
        first_child(t, j, "statement_block"@, "statement_block"@) == Some(b),
        forall|m: int|
            #[trigger] above(t, m, j) ==> t[m].kind@ != "method_definition"@ && t[m].kind@
                != "function_declaration"@ && t[m].kind@ != "arrow_function"@,
    ensures
        forall|k: int|
            0 <= k < kept_spans(sort_by_start(typescript_ranges(t, bytes, path)), SpliceMode::Summary, bytes.len() as int).len()
                ==> #[trigger] kept_spans(sort_by_start(typescript_ranges(t, bytes, path)), SpliceMode::Summary, bytes.len() as int)[k].1
                <= t[b].start_byte || t[b].end_byte <= kept_spans(
                sort_by_start(typescript_ranges(t, bytes, path)),
                SpliceMode::Summary,
                bytes.len() as int,
            )[k].0,
{
    lemma_function_bodies_replaced(t, bytes, path, j, b);
    lemma_ranges_forward(t, bytes, path);
    lemma_summary_drops_range(bytes, typescript_ranges(t, bytes, path), node_range(t, b, RemovalReason::Implementation));
}

/// A TypeScript or JavaScript test file: its file name contains `.test.` or
/// `.spec.`.
pub open spec fn is_test_file(path: Seq<char>) -> bool {
    match path_file_name(path) {
        Some(name) => contains(name, ".test."@) || contains(name, ".spec."@),
        None => false,
    }
}

/// The removal ranges of a TypeScript source at `path`: a test file is one test
/// range over the whole source; otherwise those of the test pass, then those of
/// the summary pass.
pub open spec fn typescript_ranges(t: Seq<SyntaxNode>, bytes: Seq<u8>, path: Seq<char>) -> Seq<RemovalRange> {
    if is_test_file(path) {
        seq![RemovalRange { start: 0, end: bytes.len() as usize, reason: RemovalReason::TestModule }]
    } else {
        typescript_pass(t, bytes, true) + typescript_pass(t, bytes, false)
    }
}

/// Whether a path names a test file (see [`is_test_file`]).
fn test_file(path: &str) -> (res: bool)
    ensures
        res == is_test_file(path@),
{
    match file_name(path) {
        Some(name) => {
            let chars = chars_of(name.as_str());
            let dot_test = chars_of(".test.");
            let dot_spec = chars_of(".spec.");
            seq_contains(chars.as_slice(), dot_test.as_slice()) || seq_contains(
                chars.as_slice(),
                dot_spec.as_slice(),
            )
        },
        None => false,
    }
}

/// Whether a text is one of the test block names.
fn test_callee(text: &[char]) -> (res: bool)
    ensures
        res == is_test_callee(text@),
{
    let it = chars_of("it");
    let test = chars_of("test");
    let describe = chars_of("describe");
    let xtest = chars_of("xtest");
    let xit = chars_of("xit");
    let xtest_each = chars_of("xtest_each");
    seq_equal(text, it.as_slice()) || seq_equal(text, test.as_slice()) || seq_equal(
        text,
        describe.as_slice(),
    ) || seq_equal(text, xtest.as_slice()) || seq_equal(text, xit.as_slice()) || seq_equal(
        text,
        xtest_each.as_slice(),
    )
}

/// Whether a call expression is a test function call.
fn test_call(nodes: &[SyntaxNode], source: &str, i: usize) -> (res: bool)
    requires
        i < nodes@.len(),
        nodes_fit(nodes@, source.spec_bytes()),
    ensures
        res == is_test_call(nodes@, source.spec_bytes(), i as int),
{
    match find_child(nodes, i, "identifier", "member_expression") {
        Some(c) => {
            let text = node_chars(nodes, source, c);
            if kind_is(nodes, c, "identifier") {
                test_callee(text.as_slice())
            } else {
                let it = chars_of("it.");
                let test = chars_of("test.");
                let describe = chars_of("describe.");
                seq_starts_with(text.as_slice(), it.as_slice()) || seq_starts_with(
                    text.as_slice(),
                    test.as_slice(),
                ) || seq_starts_with(text.as_slice(), describe.as_slice())
            }
        },
        None => false,
    }
}

/// Whether a child of node `i` is a test call.
fn find_test_call(nodes: &[SyntaxNode], source: &str, i: usize) -> (res: bool)
    requires
        i < nodes@.len(),
        nodes_fit(nodes@, source.spec_bytes()),
    ensures
        res == child_test_call(nodes@, source.spec_bytes(), i as int, i + 1),
{
    let ghost bytes = source.spec_bytes();
    let d = nodes[i].depth;
    let mut j: usize = i + 1;
    while j < nodes.len()
        invariant
            i < j <= nodes@.len(),
            d == nodes@[i as int].depth,
            bytes == source.spec_bytes(),
            nodes_fit(nodes@, bytes),
            child_test_call(nodes@, bytes, i as int, j as int) == child_test_call(nodes@, bytes, i as int, i + 1),
        decreases nodes.len() - j,
    {
        if nodes[j].depth <= d {
            return false;
        }
        if nodes[j].depth - 1 == d && kind_is(nodes, j, "call_expression") && test_call(nodes, source, j) {
            return true;
        }
        j = j + 1;
    }
    false
}

/// The visit of the test pass (`tests`) or of the summary pass at node `j`.
fn visit_at(nodes: &[SyntaxNode], source: &str, tests: bool, j: usize) -> (res: Visit)
    requires
        j < nodes@.len(),
        nodes_fit(nodes@, source.spec_bytes()),
    ensures
        res == typescript_visit(nodes@, source.spec_bytes(), tests, j as int),
        visit_fits(source.spec_bytes(), res),
{
    let ghost t = nodes@;
    let ghost bytes = source.spec_bytes();
    proof {
        lemma_node_range_fits(t, bytes, j as int, RemovalReason::TestFunction);
    }
    if tests {
        if kind_is(nodes, j, "expression_statement") {
            if find_test_call(nodes, source, j) {
                Visit::Emit(range_of(nodes, j, RemovalReason::TestFunction))
            } else {
                Visit::Prune
            }
        } else if kind_is(nodes, j, "call_expression") {
            if test_call(nodes, source, j) {
                Visit::Emit(range_of(nodes, j, RemovalReason::TestFunction))
            } else {
                Visit::Prune
            }
        } else {
            Visit::Enter
        }
    } else if kind_is(nodes, j, "function_declaration") || kind_is(nodes, j, "method_definition")
        || kind_is(nodes, j, "arrow_function") {
        match find_child(nodes, j, "statement_block", "statement_block") {
            Some(b) => {
                proof {
                    lemma_node_range_fits(t, bytes, b as int, RemovalReason::Implementation);
                }
                Visit::Emit(range_of(nodes, b, RemovalReason::Implementation))
            },
            None => Visit::Prune,
        }
    } else {
        Visit::Enter
    }
}

/// Collect the ranges of one pass over the tree.
fn collect_ranges(nodes: &[SyntaxNode], source: &str, tests: bool) -> (res: Vec<RemovalRange>)
    requires
        nodes_fit(nodes@, source.spec_bytes()),
    ensures
        res@ == typescript_pass(nodes@, source.spec_bytes(), tests),
        ranges_fit(source.spec_bytes(), res@),
{
    let ghost t = nodes@;
    let ghost bytes = source.spec_bytes();
    let mut visits: Vec<Visit> = Vec::new();
    let mut j: usize = 0;
    while j < nodes.len()
        invariant
            j <= nodes@.len(),
            visits@.len() == j,
            t == nodes@,
            bytes == source.spec_bytes(),
            nodes_fit(t, bytes),
            forall|k: int| 0 <= k < j ==> visits@[k] == typescript_visit(t, bytes, tests, k),
            forall|k: int| 0 <= k < j ==> #[trigger] visit_fits(bytes, visits@[k]),
        decreases nodes.len() - j,
    {
        let v = visit_at(nodes, source, tests, j);
        visits.push(v);
        j = j + 1;
    }
    let ghost all = Seq::new(t.len(), |k: int| typescript_visit(t, bytes, tests, k));
    assert(visits@ =~= all);
    proof {
        lemma_walk_fits(t, visits@, 1, bytes);
    }
    walk_ranges(nodes, visits.as_slice())
}

/// Parser for TypeScript source files using tree-sitter.
#[derive(Debug, Default)]
pub struct TypeScriptParser;

impl TypeScriptParser {
    /// Create a new TypeScript parser.
    pub fn new() -> (res: Self) {
        TypeScriptParser
    }

    /// The parsed file of a source at `path` whose syntax tree is `nodes`.
    pub fn parse_tree(&self, source: &str, path: &str, nodes: &[SyntaxNode]) -> (res: ParsedFile)
        requires
            nodes_fit(nodes@, source.spec_bytes()),
        ensures
            parsed_as(res, path@, Language::TypeScript, source@, typescript_ranges(nodes@, source.spec_bytes(), path@)),
    {
        let ghost bytes = source.spec_bytes();
        if test_file(path) {
            let whole = RemovalRange { start: 0, end: byte_len(source), reason: RemovalReason::TestModule };
            let test_ranges = vec![whole];
            let summary_ranges: Vec<RemovalRange> = Vec::new();
            proof {
                assert(vstd::utf8::valid_utf8(bytes));
                assert(vstd::utf8::is_char_boundary(bytes, 0));
                assert(vstd::utf8::is_char_boundary(bytes, bytes.len() as int));
                assert(range_fits(bytes, whole));
                assert(test_ranges@ + summary_ranges@ =~= typescript_ranges(nodes@, bytes, path@));
            }
            assemble(source, path, Language::TypeScript, test_ranges.as_slice(), summary_ranges.as_slice())
        } else {
            let test_ranges = collect_ranges(nodes, source, true);
            let summary_ranges = collect_ranges(nodes, source, false);
            proof {
                lemma_ranges_fit_concat(bytes, test_ranges@, summary_ranges@);
            }
            assemble(source, path, Language::TypeScript, test_ranges.as_slice(), summary_ranges.as_slice())
        }
    }

    /// Parse a source from what the syntax-tree parser gave back for it.
    pub fn parse_syntax(
        &self,
        source: &str,
        path: &str,
        syntax: Result<Vec<SyntaxNode>, SyntaxFailure>,
    ) -> (res: Result<ParsedFile, AstDocError>)
        ensures
            parse_outcome(
                res,
                path@,
                Language::TypeScript,
                source@,
                syntax,
                |t: Seq<SyntaxNode>| typescript_ranges(t, source.spec_bytes(), path@),
            ),
    {
        match syntax {
            Err(failure) => Err(syntax_error(&Language::TypeScript, failure)),
            Ok(nodes) => {
                if fits_source(nodes.as_slice(), source) {
                    Ok(self.parse_tree(source, path, nodes.as_slice()))
                } else {
                    Err(misfit_error(path))
                }
            },
        }
    }
}

impl LanguageParser for TypeScriptParser {
    fn parse(&self, source: &str, path: &str) -> (res: Result<ParsedFile, AstDocError>)
        ensures
            parse_claim(
                res,
                path@,
                Language::TypeScript,
                source@,
                typescript_syntax(source@),
                typescript_ranges(typescript_syntax(source@), source.spec_bytes(), path@),
            ),
    {
        let syntax = typescript_syntax_tree(source);
        let ghost g = syntax;
        let res = self.parse_syntax(source, path, syntax);
        proof {
            lemma_outcome_claim(
                res,
                path@,
                Language::TypeScript,
                source@,
                g,
                |t: Seq<SyntaxNode>| typescript_ranges(t, source.spec_bytes(), path@),
                typescript_syntax(source@),
            );
        }
        res
    }
}

} // verus!
