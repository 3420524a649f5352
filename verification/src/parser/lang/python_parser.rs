//! Python parser using tree-sitter.
//!
//! Detects test markers: `def test_*`, `class Test*`, `@pytest` decorators.
//! Keeps function/class signatures for Summary mode.

use vstd::prelude::*;
use vstd::string::StringSliceAdditionalSpecFns;
use crate::error::AstDocError;
use crate::parser::strategy::{
    RemovalRange, RemovalReason, SpliceMode, kept_spans, lemma_ranges_fit_concat,
    lemma_summary_drops_range, ranges_fit, sort_by_start,
};
use crate::parser::syntax::{
    SyntaxFailure, SyntaxNode, Visit, above, find_child, find_named_with, first_child,
    lemma_child_bounds, lemma_walk_forward, lemma_walk_reaches, node_fits, visit_forward,
    fits_source, kind_is, lemma_node_range_fits, lemma_walk_fits, named_with, node_chars,
    node_range, node_text, nodes_fit, range_of, visit_fits, walk_ranges, walk_tree,
};
use crate::parser::{
    Language, LanguageParser, ParsedFile, assemble, lemma_outcome_claim, misfit_error, parse_claim,
    parse_outcome, parsed_as, syntax_error,
};
use crate::text::{chars_of, contains, seq_contains};

verus! {

/// The syntax tree, in pre-order, that tree-sitter parses from a text with the
/// `tree-sitter-python` grammar.
pub uninterp spec fn python_syntax(source: Seq<char>) -> Seq<SyntaxNode>;

/// Parse `source` with tree-sitter and the `tree-sitter-python` grammar.
///
/// Trusted: calls `Parser::set_language` with `tree_sitter_python::LANGUAGE` and
/// `Parser::parse`, then lists the nodes of the tree in descendant order (which is
/// pre-order) with `TreeCursor::goto_descendant`, each with its kind, byte range and
/// depth. The grammar's ABI version is one that tree-sitter accepts, and with a
/// language set `Parser::parse` always gives a tree (no timeout or cancellation
/// is set), so the call succeeds; the tree is a function of the text.
#[verifier::external_body]
fn python_syntax_tree(source: &str) -> (res: Result<Vec<SyntaxNode>, SyntaxFailure>)
    ensures
        res is Ok,
        res matches Ok(nodes) ==> nodes@ == python_syntax(source@),
{
    let mut parser = tree_sitter::Parser::new();
    parser.set_language(&tree_sitter_python::LANGUAGE.into()).map_err(|e| SyntaxFailure::Grammar(e.to_string()))?;
    let tree = parser.parse(source, None).ok_or(SyntaxFailure::NoTree)?;
    let mut cursor = tree.walk();
    let mut nodes = Vec::new();
    for i in 0..tree.root_node().descendant_count() {
        cursor.goto_descendant(i);
        let n = cursor.node();
        nodes.push(SyntaxNode { kind: n.kind().to_string(), start_byte: n.start_byte(), end_byte: n.end_byte(), depth: cursor.depth() as usize });
    }
    Ok(nodes)
}

/// A definition whose first identifier starts with `test_`.
pub open spec fn is_test_function_name(t: Seq<SyntaxNode>, bytes: Seq<u8>, i: int) -> bool {
    named_with(t, bytes, i, "identifier"@, "test_"@)
}

/// A class whose first identifier starts with `Test`.
pub open spec fn is_test_class_name(t: Seq<SyntaxNode>, bytes: Seq<u8>, i: int) -> bool {
    named_with(t, bytes, i, "identifier"@, "Test"@)
}

/// A `decorator` whose text mentions `pytest`.
pub open spec fn is_pytest_decorator(t: Seq<SyntaxNode>, bytes: Seq<u8>, c: int) -> bool {
    t[c].kind@ == "decorator"@ && contains(node_text(t, bytes, c), "pytest"@)
}

/// A test function definition or a test class definition.
pub open spec fn is_test_definition(t: Seq<SyntaxNode>, bytes: Seq<u8>, c: int) -> bool {
    ||| t[c].kind@ == "function_definition"@ && is_test_function_name(t, bytes, c)
    ||| t[c].kind@ == "class_definition"@ && is_test_class_name(t, bytes, c)
}

/// Whether a child of node `i`, at position `j` or later, is a pytest decorator.
pub open spec fn child_pytest(t: Seq<SyntaxNode>, bytes: Seq<u8>, i: int, j: int) -> bool
    decreases t.len() - j,
{
    if j <= i || j >= t.len() || t[j].depth <= t[i].depth {
        false
    } else if t[j].depth == t[i].depth + 1 && is_pytest_decorator(t, bytes, j) {
        true
    } else {
        child_pytest(t, bytes, i, j + 1)
    }
}

/// Whether a child of node `i`, at position `j` or later, is a test definition.
pub open spec fn child_test_definition(t: Seq<SyntaxNode>, bytes: Seq<u8>, i: int, j: int) -> bool
    decreases t.len() - j,
{
    if j <= i || j >= t.len() || t[j].depth <= t[i].depth {
        false
    } else if t[j].depth == t[i].depth + 1 && is_test_definition(t, bytes, j) {
        true
    } else {
        child_test_definition(t, bytes, i, j + 1)
    }
}

/// A `decorated_definition` with a pytest decorator or wrapping a test definition.
pub open spec fn is_test_decorated(t: Seq<SyntaxNode>, bytes: Seq<u8>, i: int) -> bool {
    child_pytest(t, bytes, i, i + 1) || child_test_definition(t, bytes, i, i + 1)
}

/// What the test pass does at node `j`: test functions, test classes and test
/// decorated definitions are removed; other functions are not entered.
pub open spec fn test_visit(t: Seq<SyntaxNode>, bytes: Seq<u8>, j: int) -> Visit {
    if t[j].kind@ == "function_definition"@ {
        if is_test_function_name(t, bytes, j) {
            Visit::Emit(node_range(t, j, RemovalReason::TestFunction))
        } else {
            Visit::Prune
        }
    } else if t[j].kind@ == "class_definition"@ {
        if is_test_class_name(t, bytes, j) {
            Visit::Emit(node_range(t, j, RemovalReason::TestModule))
        } else {
            Visit::Enter
        }
    } else if t[j].kind@ == "decorated_definition"@ {
        if is_test_decorated(t, bytes, j) {
            Visit::Emit(node_range(t, j, RemovalReason::TestFunction))
        } else {
            Visit::Enter
        }
    } else {
        Visit::Enter
    }
}

/// What the summary pass does at node `j`: a non-test function's `block` is
/// replaced; tests are skipped; classes and decorated definitions are entered.
pub open spec fn summary_visit(t: Seq<SyntaxNode>, bytes: Seq<u8>, j: int) -> Visit {
    if t[j].kind@ == "function_definition"@ {
        if is_test_function_name(t, bytes, j) {
            Visit::Prune
        } else {
            match first_child(t, j, "block"@, "block"@) {
                Some(b) => Visit::Emit(node_range(t, b, RemovalReason::Implementation)),
                None => Visit::Prune,
            }
        }
    } else if t[j].kind@ == "class_definition"@ {
        if is_test_class_name(t, bytes, j) {
            Visit::Prune
        } else {
            Visit::Enter
        }
    } else if t[j].kind@ == "decorated_definition"@ {
        if is_test_decorated(t, bytes, j) {
            Visit::Prune
        } else {
            Visit::Enter
        }
    } else {
        Visit::Enter
    }
}

/// The visit of the test pass (`tests`) or of the summary pass at node `j`.
pub open spec fn python_visit(t: Seq<SyntaxNode>, bytes: Seq<u8>, tests: bool, j: int) -> Visit {
    if tests {
        test_visit(t, bytes, j)
    } else {
        summary_visit(t, bytes, j)
    }
}

/// The ranges of one pass over the tree.
pub open spec fn python_pass(t: Seq<SyntaxNode>, bytes: Seq<u8>, tests: bool) -> Seq<RemovalRange> {
    walk_tree(t, Seq::new(t.len(), |j: int| python_visit(t, bytes, tests, j)))
}

/// The removal ranges of a Python source: those of the test pass, then those of
/// the summary pass.
pub open spec fn python_ranges(t: Seq<SyntaxNode>, bytes: Seq<u8>) -> Seq<RemovalRange> {
    python_pass(t, bytes, true) + python_pass(t, bytes, false)
}

/// Law: the summary pass replaces the `block` of every function definition
/// whose name does not start with `test_`, methods of classes included, when it
/// lies in no other function, no test class and no test decorated definition.
pub proof fn lemma_function_bodies_replaced(t: Seq<SyntaxNode>, bytes: Seq<u8>, j: int, b: int)
    requires
        1 <= j < t.len(),
        t[j].kind@ == "function_definition"@,
        !is_test_function_name(t, bytes, j),
        first_child(t, j, "block"@, "block"@) == Some(b),
        forall|m: int|
            #[trigger] above(t, m, j) ==> t[m].kind@ != "function_definition"@ && (t[m].kind@
                == "class_definition"@ ==> !is_test_class_name(t, bytes, m)) && (t[m].kind@
                == "decorated_definition"@ ==> !is_test_decorated(t, bytes, m)),
    ensures
        python_ranges(t, bytes).contains(node_range(t, b, RemovalReason::Implementation)),
{
    let visits = Seq::new(t.len(), |k: int| python_visit(t, bytes, false, k));
    let r = node_range(t, b, RemovalReason::Implementation);
    assert(visits[j] == Visit::Emit(r));
    assert forall|m: int| #[trigger] above(t, m, j) implies (visits[m] is Enter || visits[m] is EmitEnter) by {
        assert(visits[m] == summary_visit(t, bytes, m));
    }
    lemma_walk_reaches(t, visits, j, r);
    let tp = python_pass(t, bytes, true);
    let sp = python_pass(t, bytes, false);
    let w = choose|w: int| 0 <= w < sp.len() && sp[w] == r;
    assert((tp + sp)[tp.len() + w] == r);
}

proof fn lemma_ranges_forward(t: Seq<SyntaxNode>, bytes: Seq<u8>)
    requires
        nodes_fit(t, bytes),
    ensures
        forall|i: int| 0 <= i < python_ranges(t, bytes).len() ==> (#[trigger] python_ranges(t, bytes)[i]).start
            <= python_ranges(t, bytes)[i].end,
{
    let tv = Seq::new(t.len(), |k: int| python_visit(t, bytes, true, k));
    let sv = Seq::new(t.len(), |k: int| python_visit(t, bytes, false, k));
    assert forall|k: int| 0 <= k < t.len() implies visit_forward(#[trigger] tv[k]) by {
        assert(node_fits(t, bytes, k));
    }
    assert forall|k: int| 0 <= k < t.len() implies visit_forward(#[trigger] sv[k]) by {
        lemma_child_bounds(t, k, "block"@, "block"@, k + 1);
        if let Some(c) = first_child(t, k, "block"@, "block"@) {
            assert(node_fits(t, bytes, c));
        }
    }
    lemma_walk_forward(t, tv, 1);
    lemma_walk_forward(t, sv, 1);
    let a = python_pass(t, bytes, true);
    let b = python_pass(t, bytes, false);
    assert forall|i: int| 0 <= i < (a + b).len() implies (#[trigger] (a + b)[i]).start <= (a + b)[i].end by {
        if i < a.len() {
            assert((a + b)[i] == a[i]);
        } else {
            assert((a + b)[i] == b[i - a.len()]);
        }
    }
}

/// Law: in the Summary variant, no text of the `block` of such a function
/// definition or method (see [`lemma_function_bodies_replaced`]) is kept: no kept
/// span of the source overlaps it.
pub proof fn lemma_summary_drops_function_bodies(
    t: Seq<SyntaxNode>,
    bytes: Seq<u8>,
    j: int,
    b: int,
)
    requires
        nodes_fit(t, bytes),
        !is_test_function_name(t, bytes, j),
        1 <= j < t.len(),
        t[j].kind@ == "function_definition"@,
        first_child(t, j, "block"@, "block"@) == Some(b),
        forall|m: int|
            #[trigger] above(t, m, j) ==> t[m].kind@ != "function_definition"@ && (t[m].kind@
                == "class_definition"@ ==> !is_test_class_name(t, bytes, m)) && (t[m].kind@
                == "decorated_definition"@ ==> !is_test_decorated(t, bytes, m)),
    ensures
        forall|k: int|
            0 <= k < kept_spans(sort_by_start(python_ranges(t, bytes)), SpliceMode::Summary, bytes.len() as int).len()
                ==> #[trigger] kept_spans(sort_by_start(python_ranges(t, bytes)), SpliceMode::Summary, bytes.len() as int)[k].1
                <= t[b].start_byte || t[b].end_byte <= kept_spans(
                sort_by_start(python_ranges(t, bytes)),
                SpliceMode::Summary,
                bytes.len() as int,
            )[k].0,
{
    lemma_function_bodies_replaced(t, bytes, j, b);
    lemma_ranges_forward(t, bytes);
    lemma_summary_drops_range(bytes, python_ranges(t, bytes), node_range(t, b, RemovalReason::Implementation));
}

/// Whether a definition's name starts with `test_`.
fn test_function_name(nodes: &[SyntaxNode], source: &str, i: usize) -> (res: bool)
    requires
        i < nodes@.len(),
        nodes_fit(nodes@, source.spec_bytes()),
    ensures
        res == is_test_function_name(nodes@, source.spec_bytes(), i as int),
{
    find_named_with(nodes, source, i, "identifier", "test_")
}

/// Whether a class name starts with `Test`.
fn test_class_name(nodes: &[SyntaxNode], source: &str, i: usize) -> (res: bool)
    requires
        i < nodes@.len(),
        nodes_fit(nodes@, source.spec_bytes()),
    ensures
        res == is_test_class_name(nodes@, source.spec_bytes(), i as int),
{
    find_named_with(nodes, source, i, "identifier", "Test")
}

/// Whether a child of node `i` is a pytest decorator.
fn find_pytest(nodes: &[SyntaxNode], source: &str, i: usize) -> (res: bool)
    requires
        i < nodes@.len(),
        nodes_fit(nodes@, source.spec_bytes()),
    ensures
        res == child_pytest(nodes@, source.spec_bytes(), i as int, i + 1),
{
    let ghost bytes = source.spec_bytes();
    let needle = chars_of("pytest");
    let d = nodes[i].depth;
    let mut j: usize = i + 1;
    while j < nodes.len()
        invariant
            i < j <= nodes@.len(),
            d == nodes@[i as int].depth,
            bytes == source.spec_bytes(),
            nodes_fit(nodes@, bytes),
            needle@ == "pytest"@,
            child_pytest(nodes@, bytes, i as int, j as int) == child_pytest(nodes@, bytes, i as int, i + 1),
        decreases nodes.len() - j,
    {
        if nodes[j].depth <= d {
            return false;
        }
        if nodes[j].depth - 1 == d && kind_is(nodes, j, "decorator") {
            let text = node_chars(nodes, source, j);
            if seq_contains(text.as_slice(), needle.as_slice()) {
                return true;
            }
        }
        j = j + 1;
    }
    false
}

/// Whether a child of node `i` is a test definition.
fn find_test_definition(nodes: &[SyntaxNode], source: &str, i: usize) -> (res: bool)
    requires
        i < nodes@.len(),
        nodes_fit(nodes@, source.spec_bytes()),
    ensures
        res == child_test_definition(nodes@, source.spec_bytes(), i as int, i + 1),
{
    let ghost bytes = source.spec_bytes();
    let d = nodes[i].depth;
    let mut j: usize = i + 1;
    while j < nodes.len()
        invariant
            i < j <= nodes@.len(),
            d == nodes@[i as int].depth,
            bytes == source.spec_bytes(),
            nodes_fit(nodes@, bytes),
            child_test_definition(nodes@, bytes, i as int, j as int) == child_test_definition(
                nodes@,
                bytes,
                i as int,
                i + 1,
            ),
        decreases nodes.len() - j,
    {
        if nodes[j].depth <= d {
            return false;
        }
        if nodes[j].depth - 1 == d {
            if kind_is(nodes, j, "function_definition") && test_function_name(nodes, source, j) {
                return true;
            }
            if kind_is(nodes, j, "class_definition") && test_class_name(nodes, source, j) {
                return true;
            }
        }
        j = j + 1;
    }
    false
}

/// Whether a `decorated_definition` has a pytest decorator or wraps a test.
fn test_decorated(nodes: &[SyntaxNode], source: &str, i: usize) -> (res: bool)
    requires
        i < nodes@.len(),
        nodes_fit(nodes@, source.spec_bytes()),
    ensures
        res == is_test_decorated(nodes@, source.spec_bytes(), i as int),
{
    find_pytest(nodes, source, i) || find_test_definition(nodes, source, i)
}

/// The visit of the test pass (`tests`) or of the summary pass at node `j`.
fn visit_at(nodes: &[SyntaxNode], source: &str, tests: bool, j: usize) -> (res: Visit)
    requires
        j < nodes@.len(),
        nodes_fit(nodes@, source.spec_bytes()),
    ensures
        res == python_visit(nodes@, source.spec_bytes(), tests, j as int),
        visit_fits(source.spec_bytes(), res),
{
    let ghost t = nodes@;
    let ghost bytes = source.spec_bytes();
    proof {
        lemma_node_range_fits(t, bytes, j as int, RemovalReason::TestFunction);
        lemma_node_range_fits(t, bytes, j as int, RemovalReason::TestModule);
    }
    if kind_is(nodes, j, "function_definition") {
        if test_function_name(nodes, source, j) {
            if tests {
                Visit::Emit(range_of(nodes, j, RemovalReason::TestFunction))
            } else {
                Visit::Prune
            }
        } else if tests {
            Visit::Prune
        } else {
            match find_child(nodes, j, "block", "block") {
                Some(b) => {
                    proof {
                        lemma_node_range_fits(t, bytes, b as int, RemovalReason::Implementation);
                    }
                    Visit::Emit(range_of(nodes, b, RemovalReason::Implementation))
                },
                None => Visit::Prune,
            }
        }
    } else if kind_is(nodes, j, "class_definition") {
        if test_class_name(nodes, source, j) {
            if tests {
                Visit::Emit(range_of(nodes, j, RemovalReason::TestModule))
            } else {
                Visit::Prune
            }
        } else {
            Visit::Enter
        }
    } else if kind_is(nodes, j, "decorated_definition") {
        if test_decorated(nodes, source, j) {
            if tests {
                Visit::Emit(range_of(nodes, j, RemovalReason::TestFunction))
            } else {
                Visit::Prune
            }
        } else {
            Visit::Enter
        }
    } else {
        Visit::Enter
    }
}

/// Collect the ranges of one pass over the tree.
fn collect_ranges(nodes: &[SyntaxNode], source: &str, tests: bool) -> (res: Vec<RemovalRange>)
    requires
        nodes_fit(nodes@, source.spec_bytes()),
    ensures
        res@ == python_pass(nodes@, source.spec_bytes(), tests),
        ranges_fit(source.spec_bytes(), res@),
{
    let ghost t = nodes@;
    let ghost bytes = source.spec_bytes();
    let mut visits: Vec<Visit> = Vec::new();
    let mut j: usize = 0;
    while j < nodes.len()
        invariant
            j <= nodes@.len(),
            visits@.len() == j,
            t == nodes@,
            bytes == source.spec_bytes(),
            nodes_fit(t, bytes),
            forall|k: int| 0 <= k < j ==> visits@[k] == python_visit(t, bytes, tests, k),
            forall|k: int| 0 <= k < j ==> #[trigger] visit_fits(bytes, visits@[k]),
        decreases nodes.len() - j,
    {
        let v = visit_at(nodes, source, tests, j);
        visits.push(v);
        j = j + 1;
    }
    let ghost all = Seq::new(t.len(), |k: int| python_visit(t, bytes, tests, k));
    assert(visits@ =~= all);
    proof {
        lemma_walk_fits(t, visits@, 1, bytes);
    }
    walk_ranges(nodes, visits.as_slice())
}

/// Parser for Python source files using tree-sitter.
#[derive(Debug, Default)]
pub struct PythonParser;

impl PythonParser {
    /// Create a new Python parser.
    pub fn new() -> (res: Self) {
        PythonParser
    }

    /// The parsed file of a source whose syntax tree is `nodes`.
    pub fn parse_tree(&self, source: &str, path: &str, nodes: &[SyntaxNode]) -> (res: ParsedFile)
        requires
            nodes_fit(nodes@, source.spec_bytes()),
        ensures
            parsed_as(res, path@, Language::Python, source@, python_ranges(nodes@, source.spec_bytes())),
    {
        let test_ranges = collect_ranges(nodes, source, true);
        let summary_ranges = collect_ranges(nodes, source, false);
        proof {
            lemma_ranges_fit_concat(source.spec_bytes(), test_ranges@, summary_ranges@);
        }
        assemble(source, path, Language::Python, test_ranges.as_slice(), summary_ranges.as_slice())
    }

    /// Parse a source from what the syntax-tree parser gave back for it.
    pub fn parse_syntax(
        &self,
        source: &str,
        path: &str,
        syntax: Result<Vec<SyntaxNode>, SyntaxFailure>,
    ) -> (res: Result<ParsedFile, AstDocError>)
        ensures
            parse_outcome(
                res,
                path@,
                Language::Python,
                source@,
                syntax,
                |t: Seq<SyntaxNode>| python_ranges(t, source.spec_bytes()),
            ),
    {
        match syntax {
            Err(failure) => Err(syntax_error(&Language::Python, failure)),
            Ok(nodes) => {
                if fits_source(nodes.as_slice(), source) {
                    Ok(self.parse_tree(source, path, nodes.as_slice()))
                } else {
                    Err(misfit_error(path))
                }
            },
        }
    }
}

impl LanguageParser for PythonParser {
    fn parse(&self, source: &str, path: &str) -> (res: Result<ParsedFile, AstDocError>)
        ensures
            parse_claim(
                res,
                path@,
                Language::Python,
                source@,
                python_syntax(source@),
                python_ranges(python_syntax(source@), source.spec_bytes()),
            ),
    {
        let syntax = python_syntax_tree(source);
        let ghost g = syntax;
        let res = self.parse_syntax(source, path, syntax);
        proof {
            lemma_outcome_claim(
                res,
                path@,
                Language::Python,
                source@,
                g,
                |t: Seq<SyntaxNode>| python_ranges(t, source.spec_bytes()),
                python_syntax(source@),
            );
        }
        res
    }
}

} // verus!
