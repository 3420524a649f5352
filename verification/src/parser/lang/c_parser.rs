//! C parser using tree-sitter.
//!
//! C has no standard test markers, so NoTests mode keeps the whole source.
//! Summary mode replaces function bodies.

use vstd::prelude::*;
use vstd::string::StringSliceAdditionalSpecFns;
use crate::error::AstDocError;
use crate::config::OutputStrategy;
use crate::parser::strategy::{
    RemovalRange, RemovalReason, SpliceMode, lemma_unselected_splice, ranges_fit, selects,
};
use crate::parser::syntax::{
    SyntaxFailure, SyntaxNode, Visit, find_child, first_child, fits_source, kind_is,
    lemma_node_range_fits, lemma_walk_fits, lemma_walk_reason, node_range, nodes_fit, range_of,
    visit_fits, visit_for, walk_ranges, walk_tree,
};
use crate::parser::{
    Language, LanguageParser, ParsedFile, assemble, lemma_outcome_claim, misfit_error, parse_claim,
    parse_outcome, parsed_as, syntax_error,
};

verus! {

/// The syntax tree, in pre-order, that tree-sitter parses from a text with the
/// `tree-sitter-c` grammar.
pub uninterp spec fn c_syntax(source: Seq<char>) -> Seq<SyntaxNode>;

/// Parse `source` with tree-sitter and the `tree-sitter-c` grammar.
///
/// Trusted: calls `Parser::set_language` with `tree_sitter_c::LANGUAGE` and
/// `Parser::parse`, then lists the nodes of the tree in descendant order (which is
/// pre-order) with `TreeCursor::goto_descendant`, each with its kind, byte range and
/// depth. The grammar's ABI version is one that tree-sitter accepts, and with a
/// language set `Parser::parse` always gives a tree (no timeout or cancellation
/// is set), so the call succeeds; the tree is a function of the text.
#[verifier::external_body]
fn c_syntax_tree(source: &str) -> (res: Result<Vec<SyntaxNode>, SyntaxFailure>)
    ensures
        res is Ok,
        res matches Ok(nodes) ==> nodes@ == c_syntax(source@),
{
    let mut parser = tree_sitter::Parser::new();
    parser.set_language(&tree_sitter_c::LANGUAGE.into()).map_err(|e| SyntaxFailure::Grammar(e.to_string()))?;
    let tree = parser.parse(source, None).ok_or(SyntaxFailure::NoTree)?;
    let mut cursor = tree.walk();
    let mut nodes = Vec::new();
    for i in 0..tree.root_node().descendant_count() {
        cursor.goto_descendant(i);
        let n = cursor.node();
        nodes.push(SyntaxNode { kind: n.kind().to_string(), start_byte: n.start_byte(), end_byte: n.end_byte(), depth: cursor.depth() as usize });
    }
    Ok(nodes)
}

/// What the summary pass does at node `j`: a function definition's
/// `compound_statement` is replaced and the function not entered.
pub open spec fn c_visit(t: Seq<SyntaxNode>, j: int) -> Visit {
    if t[j].kind@ == "function_definition"@ {
        match first_child(t, j, "compound_statement"@, "compound_statement"@) {
            Some(b) => Visit::Emit(node_range(t, b, RemovalReason::Implementation)),
            None => Visit::Prune,
        }
    } else {
        Visit::Enter
    }
}

/// The removal ranges of a C source: the function bodies that the summary pass
/// replaces; there are no test ranges.
pub open spec fn c_ranges(t: Seq<SyntaxNode>) -> Seq<RemovalRange> {
    walk_tree(t, Seq::new(t.len(), |j: int| c_visit(t, j)))
}

/// Every range of a C source is an implementation body.
pub proof fn lemma_c_ranges_implementation(t: Seq<SyntaxNode>)
    ensures
        forall|k: int| 0 <= k < c_ranges(t).len() ==> !selects(SpliceMode::Tests, #[trigger] c_ranges(t)[k].reason),
{
    let visits = Seq::new(t.len(), |j: int| c_visit(t, j));
    assert forall|k: int| 0 <= k < visits.len() implies #[trigger] visit_for(visits[k], RemovalReason::Implementation) by {}
    lemma_walk_reason(t, visits, 1, RemovalReason::Implementation);
}

/// The visit of the summary pass at node `j`.
fn visit_at(nodes: &[SyntaxNode], source: &str, j: usize) -> (res: Visit)
    requires
        j < nodes@.len(),
        nodes_fit(nodes@, source.spec_bytes()),
    ensures
        res == c_visit(nodes@, j as int),
        visit_fits(source.spec_bytes(), res),
{
    if kind_is(nodes, j, "function_definition") {
        match find_child(nodes, j, "compound_statement", "compound_statement") {
            Some(b) => {
                proof {
                    lemma_node_range_fits(nodes@, source.spec_bytes(), b as int, RemovalReason::Implementation);
                }
                Visit::Emit(range_of(nodes, b, RemovalReason::Implementation))
            },
            None => Visit::Prune,
        }
    } else {
        Visit::Enter
    }
}

/// Collect the function bodies of the tree.
fn collect_summary_ranges(nodes: &[SyntaxNode], source: &str) -> (res: Vec<RemovalRange>)
    requires
        nodes_fit(nodes@, source.spec_bytes()),
    ensures
        res@ == c_ranges(nodes@),
        ranges_fit(source.spec_bytes(), res@),
{
    let ghost t = nodes@;
    let ghost bytes = source.spec_bytes();
    let mut visits: Vec<Visit> = Vec::new();
    let mut j: usize = 0;
    while j < nodes.len()
        invariant
            j <= nodes@.len(),
            visits@.len() == j,
            t == nodes@,
            bytes == source.spec_bytes(),
            nodes_fit(t, bytes),
            forall|k: int| 0 <= k < j ==> visits@[k] == c_visit(t, k),
            forall|k: int| 0 <= k < j ==> #[trigger] visit_fits(bytes, visits@[k]),
        decreases nodes.len() - j,
    {
        let v = visit_at(nodes, source, j);
        visits.push(v);
        j = j + 1;
    }
    let ghost all = Seq::new(t.len(), |k: int| c_visit(t, k));
    assert(visits@ =~= all);
    proof {
        lemma_walk_fits(t, visits@, 1, bytes);
    }
    walk_ranges(nodes, visits.as_slice())
}

/// Parser for C source files using tree-sitter.
#[derive(Debug, Default)]
pub struct CParser;

impl CParser {
    /// Create a new C parser.
    pub fn new() -> (res: Self) {
        CParser
    }

    /// The parsed file of a source whose syntax tree is `nodes`.
    pub fn parse_tree(&self, source: &str, path: &str, nodes: &[SyntaxNode]) -> (res: ParsedFile)
        requires
            nodes_fit(nodes@, source.spec_bytes()),
        ensures
            parsed_as(res, path@, Language::C, source@, c_ranges(nodes@)),
            res.strategies_data.entry(OutputStrategy::NoTests) matches Some(d) && d.content@ == source@,
    {
        let test_ranges: Vec<RemovalRange> = Vec::new();
        let summary_ranges = collect_summary_ranges(nodes, source);
        assert(test_ranges@ + summary_ranges@ =~= summary_ranges@);
        proof {
            lemma_c_ranges_implementation(nodes@);
            lemma_unselected_splice(source, c_ranges(nodes@), SpliceMode::Tests);
        }
        assemble(source, path, Language::C, test_ranges.as_slice(), summary_ranges.as_slice())
    }

    /// Parse a source from what the syntax-tree parser gave back for it.
    pub fn parse_syntax(
        &self,
        source: &str,
        path: &str,
        syntax: Result<Vec<SyntaxNode>, SyntaxFailure>,
    ) -> (res: Result<ParsedFile, AstDocError>)
        ensures
            parse_outcome(
                res,
                path@,
                Language::C,
                source@,
                syntax,
                |t: Seq<SyntaxNode>| c_ranges(t),
            ),
    {
        match syntax {
            Err(failure) => Err(syntax_error(&Language::C, failure)),
            Ok(nodes) => {
                if fits_source(nodes.as_slice(), source) {
                    Ok(self.parse_tree(source, path, nodes.as_slice()))
                } else {
                    Err(misfit_error(path))
                }
            },
        }
    }
}

impl LanguageParser for CParser {
    fn parse(&self, source: &str, path: &str) -> (res: Result<ParsedFile, AstDocError>)
        ensures
            parse_claim(
                res,
                path@,
                Language::C,
                source@,
                c_syntax(source@),
                c_ranges(c_syntax(source@)),
            ),
            res matches Ok(p) ==> (p.strategies_data.entry(OutputStrategy::NoTests) matches Some(d)
                && d.content@ == source@),
    {
        let syntax = c_syntax_tree(source);
        let ghost g = syntax;
        let res = self.parse_syntax(source, path, syntax);
        proof {
            lemma_outcome_claim(
                res,
                path@,
                Language::C,
                source@,
                g,
                |t: Seq<SyntaxNode>| c_ranges(t),
                c_syntax(source@),
            );
            lemma_c_ranges_implementation(c_syntax(source@));
            lemma_unselected_splice(source, c_ranges(c_syntax(source@)), SpliceMode::Tests);
        }
        res
    }
}

} // verus!
