//! Syntax trees as lists of nodes in pre-order, and the walk that turns a
//! decision per node into removal ranges.
//!
//! A tree is the list of its nodes in pre-order, the root first; each node
//! carries its depth below the root. The children of a node are the nodes one
//! level deeper that follow it before the first node at its own depth or above.

use vstd::prelude::*;
use vstd::string::StringSliceAdditionalSpecFns;
use vstd::utf8::*;
use crate::parser::strategy::{
    RemovalRange, RemovalReason, byte_slice, slice_chars, range_fits, ranges_fit, lemma_ranges_fit_concat,
};
use crate::text::{chars_of, seq_starts_with, starts_with, str_eq};

verus! {

broadcast use vstd::utf8::group_utf8_lib;

/// One node of a syntax tree: its kind, its byte range in the source and its
/// depth below the root.
#[derive(Debug)]
pub struct SyntaxNode {
    /// The node's kind, as the grammar names it.
    pub kind: String,
    /// Start byte offset (inclusive).
    pub start_byte: usize,
    /// End byte offset (exclusive).
    pub end_byte: usize,
    /// Number of ancestors.
    pub depth: usize,
}

/// Why no syntax tree came back.
#[derive(Debug)]
pub enum SyntaxFailure {
    /// The parser refused the grammar; the text of its error.
    Grammar(String),
    /// The parser returned no tree.
    NoTree,
}

/// What a walk does at a node.
#[derive(Debug, Clone, Copy)]
pub enum Visit {
    /// Go on into the node's subtree.
    Enter,
    /// Skip the node's subtree.
    Prune,
    /// Record a range and skip the node's subtree.
    Emit(RemovalRange),
    /// Record a range and go on into the node's subtree.
    EmitEnter(RemovalRange),
}

/// The first position from `j` on whose node is not deeper than `d`, or the
/// length of the list.
pub open spec fn next_outside(t: Seq<SyntaxNode>, d: int, j: int) -> int
    decreases t.len() - j,
{
    if j >= t.len() {
        t.len() as int
    } else if t[j].depth <= d {
        j
    } else {
        next_outside(t, d, j + 1)
    }
}

/// The position just past the subtree of node `i`.
pub open spec fn subtree_end(t: Seq<SyntaxNode>, i: int) -> int {
    next_outside(t, t[i].depth as int, i + 1)
}

/// `next_outside` lies between its start and the end of the list.
pub proof fn lemma_next_outside_bounds(t: Seq<SyntaxNode>, d: int, j: int)
    requires
        0 <= j <= t.len(),
    ensures
        j <= next_outside(t, d, j) <= t.len(),
    decreases t.len() - j,
{
    if j < t.len() && t[j].depth > d {
        lemma_next_outside_bounds(t, d, j + 1);
    }
}

/// The ranges recorded by a walk over the nodes from position `j` on, that acts
/// at each node as `visits` says and then goes on at the next node it enters.
pub open spec fn walk(t: Seq<SyntaxNode>, visits: Seq<Visit>, j: int) -> Seq<RemovalRange>
    decreases t.len() - j,
{
    if j < 0 || j >= t.len() || j >= visits.len() {
        Seq::empty()
    } else {
        proof {
            lemma_next_outside_bounds(t, t[j].depth as int, j + 1);
        }
        match visits[j] {
            Visit::Enter => walk(t, visits, j + 1),
            Visit::Prune => walk(t, visits, subtree_end(t, j)),
            Visit::Emit(r) => seq![r] + walk(t, visits, subtree_end(t, j)),
            Visit::EmitEnter(r) => seq![r] + walk(t, visits, j + 1),
        }
    }
}

/// The ranges recorded by a walk over the subtrees of the root's children.
pub open spec fn walk_tree(t: Seq<SyntaxNode>, visits: Seq<Visit>) -> Seq<RemovalRange> {
    walk(t, visits, 1)
}

/// The position just past the subtree of node `i`.
pub fn subtree_end_of(nodes: &[SyntaxNode], i: usize) -> (res: usize)
    requires
        i < nodes@.len(),
    ensures
        res == subtree_end(nodes@, i as int),
        i < res <= nodes@.len(),
{
    proof {
        lemma_next_outside_bounds(nodes@, nodes@[i as int].depth as int, i + 1);
    }
    let d = nodes[i].depth;
    let mut j: usize = i + 1;
    while j < nodes.len() && nodes[j].depth > d
        invariant
            i < j <= nodes@.len(),
            d == nodes@[i as int].depth,
            next_outside(nodes@, d as int, j as int) == subtree_end(nodes@, i as int),
        decreases nodes.len() - j,
    {
        j = j + 1;
    }
    j
}

/// Walk the subtrees of the root's children, acting at each node as `visits` says.
pub fn walk_ranges(nodes: &[SyntaxNode], visits: &[Visit]) -> (res: Vec<RemovalRange>)
    requires
        visits@.len() == nodes@.len(),
    ensures
        res@ == walk_tree(nodes@, visits@),
{
    let mut res: Vec<RemovalRange> = Vec::new();
    let mut j: usize = 1;
    while j < nodes.len()
        invariant
            1 <= j,
            visits@.len() == nodes@.len(),
            res@ + walk(nodes@, visits@, j as int) == walk(nodes@, visits@, 1),
        decreases nodes.len() - j,
    {
        let next = subtree_end_of(nodes, j);
        let ghost before = res@;
        match visits[j] {
            Visit::Enter => {
                j = j + 1;
            },
            Visit::Prune => {
                j = next;
            },
            Visit::Emit(r) => {
                res.push(r);
                assert(before + (seq![r] + walk(nodes@, visits@, next as int)) =~= res@ + walk(
                    nodes@,
                    visits@,
                    next as int,
                ));
                j = next;
            },
            Visit::EmitEnter(r) => {
                res.push(r);
                assert(before + (seq![r] + walk(nodes@, visits@, j + 1)) =~= res@ + walk(
                    nodes@,
                    visits@,
                    j + 1,
                ));
                j = j + 1;
            },
        }
    }
    assert(res@ + Seq::<RemovalRange>::empty() =~= res@);
    res
}

/// The text of node `j`.
pub open spec fn node_text(t: Seq<SyntaxNode>, bytes: Seq<u8>, j: int) -> Seq<char> {
    slice_chars(bytes, t[j].start_byte as int, t[j].end_byte as int)
}

/// Node `j` spans an ordered byte range whose ends are character boundaries.
pub open spec fn node_fits(t: Seq<SyntaxNode>, bytes: Seq<u8>, j: int) -> bool {
    &&& t[j].start_byte <= t[j].end_byte
    &&& is_char_boundary(bytes, t[j].start_byte as int)
    &&& is_char_boundary(bytes, t[j].end_byte as int)
}

/// Every node spans an ordered byte range whose ends are character boundaries.
pub open spec fn nodes_fit(t: Seq<SyntaxNode>, bytes: Seq<u8>) -> bool {
    forall|j: int| 0 <= j < t.len() ==> #[trigger] node_fits(t, bytes, j)
}

/// The removal range of node `j`'s byte range.
pub open spec fn node_range(t: Seq<SyntaxNode>, j: int, reason: RemovalReason) -> RemovalRange {
    RemovalRange { start: t[j].start_byte, end: t[j].end_byte, reason }
}

/// The removal range of node `j`'s byte range.
pub fn range_of(nodes: &[SyntaxNode], j: usize, reason: RemovalReason) -> (res: RemovalRange)
    requires
        j < nodes@.len(),
    ensures
        res == node_range(nodes@, j as int, reason),
{
    RemovalRange { start: nodes[j].start_byte, end: nodes[j].end_byte, reason }
}

/// A fitting node's range has its ends on character boundaries.
pub proof fn lemma_node_range_fits(t: Seq<SyntaxNode>, bytes: Seq<u8>, j: int, reason: RemovalReason)
    requires
        nodes_fit(t, bytes),
        0 <= j < t.len(),
    ensures
        range_fits(bytes, node_range(t, j, reason)),
{
    assert(node_fits(t, bytes, j));
}

/// A visit records, if anything, a range whose ends are character boundaries.
pub open spec fn visit_fits(bytes: Seq<u8>, v: Visit) -> bool {
    match v {
        Visit::Emit(r) => range_fits(bytes, r),
        Visit::EmitEnter(r) => range_fits(bytes, r),
        _ => true,
    }
}

/// A walk whose visits record fitting ranges records only fitting ranges.
pub proof fn lemma_walk_fits(t: Seq<SyntaxNode>, visits: Seq<Visit>, j: int, bytes: Seq<u8>)
    requires
        forall|k: int| 0 <= k < visits.len() ==> #[trigger] visit_fits(bytes, visits[k]),
    ensures
        ranges_fit(bytes, walk(t, visits, j)),
    decreases t.len() - j,
{
    if !(j < 0 || j >= t.len() || j >= visits.len()) {
        lemma_next_outside_bounds(t, t[j].depth as int, j + 1);
        let next = subtree_end(t, j);
        assert(visit_fits(bytes, visits[j]));
        match visits[j] {
            Visit::Enter => lemma_walk_fits(t, visits, j + 1, bytes),
            Visit::Prune => lemma_walk_fits(t, visits, next, bytes),
            Visit::Emit(r) => {
                lemma_walk_fits(t, visits, next, bytes);
                lemma_ranges_fit_concat(bytes, seq![r], walk(t, visits, next));
            },
            Visit::EmitEnter(r) => {
                lemma_walk_fits(t, visits, j + 1, bytes);
                lemma_ranges_fit_concat(bytes, seq![r], walk(t, visits, j + 1));
            },
        }
    }
}

/// A visit records, if anything, a range removed for `reason`.
pub open spec fn visit_for(v: Visit, reason: RemovalReason) -> bool {
    match v {
        Visit::Emit(r) => r.reason == reason,
        Visit::EmitEnter(r) => r.reason == reason,
        _ => true,
    }
}

/// A walk whose visits record ranges for one reason records only such ranges.
pub proof fn lemma_walk_reason(t: Seq<SyntaxNode>, visits: Seq<Visit>, j: int, reason: RemovalReason)
    requires
        forall|k: int| 0 <= k < visits.len() ==> #[trigger] visit_for(visits[k], reason),
    ensures
        forall|k: int| 0 <= k < walk(t, visits, j).len() ==> (#[trigger] walk(t, visits, j)[k]).reason == reason,
    decreases t.len() - j,
{
    if !(j < 0 || j >= t.len() || j >= visits.len()) {
        lemma_next_outside_bounds(t, t[j].depth as int, j + 1);
        let next = subtree_end(t, j);
        assert(visit_for(visits[j], reason));
        match visits[j] {
            Visit::Enter => lemma_walk_reason(t, visits, j + 1, reason),
            Visit::Prune => lemma_walk_reason(t, visits, next, reason),
            Visit::Emit(r) => {
                lemma_walk_reason(t, visits, next, reason);
                let w = walk(t, visits, next);
                assert forall|k: int| 0 <= k < (seq![r] + w).len() implies (#[trigger] (seq![r] + w)[k]).reason
                    == reason by {
                    if k > 0 {
                        assert((seq![r] + w)[k] == w[k - 1]);
                    }
                }
            },
            Visit::EmitEnter(r) => {
                lemma_walk_reason(t, visits, j + 1, reason);
                let w = walk(t, visits, j + 1);
                assert forall|k: int| 0 <= k < (seq![r] + w).len() implies (#[trigger] (seq![r] + w)[k]).reason
                    == reason by {
                    if k > 0 {
                        assert((seq![r] + w)[k] == w[k - 1]);
                    }
                }
            },
        }
    }
}

/// Node `m` is a proper ancestor of node `j` below the root: `j` lies in the
/// subtree of `m`.
pub open spec fn above(t: Seq<SyntaxNode>, m: int, j: int) -> bool {
    1 <= m < j && j < subtree_end(t, m)
}

proof fn lemma_walk_reaches_from(t: Seq<SyntaxNode>, visits: Seq<Visit>, p: int, j: int, r: RemovalRange)
    requires
        1 <= p <= j < t.len(),
        visits.len() == t.len(),
        forall|m: int| p <= m < j && #[trigger] above(t, m, j) ==> (visits[m] is Enter || visits[m] is EmitEnter),
        visits[j] == Visit::Emit(r) || visits[j] == Visit::EmitEnter(r),
    ensures
        walk(t, visits, p).contains(r),
    decreases j - p,
{
    lemma_next_outside_bounds(t, t[p].depth as int, p + 1);
    if p == j {
        assert(walk(t, visits, p)[0] == r);
    } else {
        let next = subtree_end(t, p);
        match visits[p] {
            Visit::Enter => {
                lemma_walk_reaches_from(t, visits, p + 1, j, r);
            },
            Visit::EmitEnter(r0) => {
                lemma_walk_reaches_from(t, visits, p + 1, j, r);
                let w = walk(t, visits, p + 1);
                let k = choose|k: int| 0 <= k < w.len() && w[k] == r;
                assert((seq![r0] + w)[k + 1] == r);
            },
            Visit::Prune => {
                assert(!above(t, p, j));
                lemma_walk_reaches_from(t, visits, next, j, r);
            },
            Visit::Emit(r0) => {
                assert(!above(t, p, j));
                lemma_walk_reaches_from(t, visits, next, j, r);
                let w = walk(t, visits, next);
                let k = choose|k: int| 0 <= k < w.len() && w[k] == r;
                assert((seq![r0] + w)[k + 1] == r);
            },
        }
    }
}

/// Law: a walk records the range of every node that it reaches, that is, every
/// node whose visit records a range and all of whose ancestors below the root
/// are entered.
pub proof fn lemma_walk_reaches(t: Seq<SyntaxNode>, visits: Seq<Visit>, j: int, r: RemovalRange)
    requires
        1 <= j < t.len(),
        visits.len() == t.len(),
        forall|m: int| #[trigger] above(t, m, j) ==> (visits[m] is Enter || visits[m] is EmitEnter),
        visits[j] == Visit::Emit(r) || visits[j] == Visit::EmitEnter(r),
    ensures
        walk_tree(t, visits).contains(r),
{
    lemma_walk_reaches_from(t, visits, 1, j, r);
}

/// A visit records, if anything, a range that starts no later than it ends.
pub open spec fn visit_forward(v: Visit) -> bool {
    match v {
        Visit::Emit(r) => r.start <= r.end,
        Visit::EmitEnter(r) => r.start <= r.end,
        _ => true,
    }
}

/// A walk whose visits record forward ranges records only forward ranges.
pub proof fn lemma_walk_forward(t: Seq<SyntaxNode>, visits: Seq<Visit>, j: int)
    requires
        forall|k: int| 0 <= k < visits.len() ==> #[trigger] visit_forward(visits[k]),
    ensures
        forall|k: int| 0 <= k < walk(t, visits, j).len() ==> (#[trigger] walk(t, visits, j)[k]).start
            <= walk(t, visits, j)[k].end,
    decreases t.len() - j,
{
    if !(j < 0 || j >= t.len() || j >= visits.len()) {
        lemma_next_outside_bounds(t, t[j].depth as int, j + 1);
        let next = subtree_end(t, j);
        assert(visit_forward(visits[j]));
        match visits[j] {
            Visit::Enter => lemma_walk_forward(t, visits, j + 1),
            Visit::Prune => lemma_walk_forward(t, visits, next),
            Visit::Emit(r) => {
                lemma_walk_forward(t, visits, next);
                let w = walk(t, visits, next);
                assert forall|k: int| 0 <= k < (seq![r] + w).len() implies (#[trigger] (seq![r] + w)[k]).start
                    <= (seq![r] + w)[k].end by {
                    if k > 0 {
                        assert((seq![r] + w)[k] == w[k - 1]);
                    }
                }
            },
            Visit::EmitEnter(r) => {
                lemma_walk_forward(t, visits, j + 1);
                let w = walk(t, visits, j + 1);
                assert forall|k: int| 0 <= k < (seq![r] + w).len() implies (#[trigger] (seq![r] + w)[k]).start
                    <= (seq![r] + w)[k].end by {
                    if k > 0 {
                        assert((seq![r] + w)[k] == w[k - 1]);
                    }
                }
            },
        }
    }
}

/// A child found by `child_of_kind` is a node of the tree, after `i`.
pub proof fn lemma_child_bounds(t: Seq<SyntaxNode>, i: int, a: Seq<char>, b: Seq<char>, j: int)
    ensures
        child_of_kind(t, i, a, b, j) matches Some(c) ==> i < c < t.len() && j <= c,
    decreases t.len() - j,
{
    if !(j <= i || j >= t.len() || t[j].depth <= t[i].depth) && !(t[j].depth == t[i].depth + 1 && (
    t[j].kind@ == a || t[j].kind@ == b)) {
        lemma_child_bounds(t, i, a, b, j + 1);
    }
}

/// The range of a node of a fitting tree starts no later than it ends.
pub proof fn lemma_node_range_forward(t: Seq<SyntaxNode>, bytes: Seq<u8>, j: int, reason: RemovalReason)
    requires
        nodes_fit(t, bytes),
        0 <= j < t.len(),
    ensures
        node_range(t, j, reason).start <= node_range(t, j, reason).end,
{
    assert(node_fits(t, bytes, j));
}

/// Whether byte offset `i` is a character boundary of valid UTF-8 bytes.
pub fn is_boundary(bytes: &[u8], i: usize) -> (res: bool)
    requires
        valid_utf8(bytes@),
    ensures
        res == is_char_boundary(bytes@, i as int),
{
    if i == 0 || i == bytes.len() {
        true
    } else if i > bytes.len() {
        assert(!is_char_boundary(bytes@, i as int));
        false
    } else {
        let b = bytes[i];
        assert(is_char_boundary(bytes@, i as int) <==> !is_continuation_byte(bytes@[i as int]));
        !(0x80 <= b && b <= 0xbf)
    }
}

/// Whether every node spans an ordered byte range whose ends are character boundaries.
pub fn fits_source(nodes: &[SyntaxNode], source: &str) -> (res: bool)
    ensures
        res == nodes_fit(nodes@, source.spec_bytes()),
{
    let bytes = source.as_bytes();
    let mut j: usize = 0;
    while j < nodes.len()
        invariant
            j <= nodes@.len(),
            bytes@ == source.spec_bytes(),
            forall|k: int| 0 <= k < j ==> #[trigger] node_fits(nodes@, source.spec_bytes(), k),
        decreases nodes.len() - j,
    {
        let node = &nodes[j];
        if node.start_byte > node.end_byte || !is_boundary(bytes, node.start_byte) || !is_boundary(
            bytes,
            node.end_byte,
        ) {
            assert(!node_fits(nodes@, source.spec_bytes(), j as int));
            return false;
        }
        j = j + 1;
    }
    true
}

/// The characters of node `j`'s text.
pub fn node_chars(nodes: &[SyntaxNode], source: &str, j: usize) -> (res: Vec<char>)
    requires
        j < nodes@.len(),
        nodes_fit(nodes@, source.spec_bytes()),
    ensures
        res@ == node_text(nodes@, source.spec_bytes(), j as int),
{
    assert(node_fits(nodes@, source.spec_bytes(), j as int));
    chars_of(byte_slice(source, nodes[j].start_byte, nodes[j].end_byte))
}

/// Whether node `j` has the given kind.
pub fn kind_is(nodes: &[SyntaxNode], j: usize, kind: &str) -> (res: bool)
    requires
        j < nodes@.len(),
    ensures
        res == (nodes@[j as int].kind@ == kind@),
{
    str_eq(nodes[j].kind.as_str(), kind)
}

/// The first child of node `i`, at position `j` or later, whose kind is `a` or `b`.
pub open spec fn child_of_kind(t: Seq<SyntaxNode>, i: int, a: Seq<char>, b: Seq<char>, j: int) -> Option<int>
    decreases t.len() - j,
{
    if j <= i || j >= t.len() || t[j].depth <= t[i].depth {
        None
    } else if t[j].depth == t[i].depth + 1 && (t[j].kind@ == a || t[j].kind@ == b) {
        Some(j)
    } else {
        child_of_kind(t, i, a, b, j + 1)
    }
}

/// The first child of node `i` whose kind is `a` or `b`.
pub open spec fn first_child(t: Seq<SyntaxNode>, i: int, a: Seq<char>, b: Seq<char>) -> Option<int> {
    child_of_kind(t, i, a, b, i + 1)
}

/// The first child of node `i` whose kind is `a` or `b`.
pub fn find_child(nodes: &[SyntaxNode], i: usize, a: &str, b: &str) -> (res: Option<usize>)
    requires
        i < nodes@.len(),
    ensures
        match res {
            Some(c) => first_child(nodes@, i as int, a@, b@) == Some(c as int) && i < c < nodes@.len(),
            None => first_child(nodes@, i as int, a@, b@) is None,
        },
{
    let d = nodes[i].depth;
    let mut j: usize = i + 1;
    while j < nodes.len()
        invariant
            i < j <= nodes@.len(),
            d == nodes@[i as int].depth,
            child_of_kind(nodes@, i as int, a@, b@, j as int) == first_child(nodes@, i as int, a@, b@),
        decreases nodes.len() - j,
    {
        if nodes[j].depth <= d {
            return None;
        }
        if nodes[j].depth - 1 == d && (kind_is(nodes, j, a) || kind_is(nodes, j, b)) {
            return Some(j);
        }
        j = j + 1;
    }
    None
}

/// Whether the first child of node `i` of kind `kind` exists and its text starts with `prefix`.
pub open spec fn named_with(t: Seq<SyntaxNode>, bytes: Seq<u8>, i: int, kind: Seq<char>, prefix: Seq<char>) -> bool {
    match first_child(t, i, kind, kind) {
        Some(c) => starts_with(node_text(t, bytes, c), prefix),
        None => false,
    }
}

/// Whether the first child of node `i` of kind `kind` exists and its text starts with `prefix`.
pub fn find_named_with(nodes: &[SyntaxNode], source: &str, i: usize, kind: &str, prefix: &str) -> (res: bool)
    requires
        i < nodes@.len(),
        nodes_fit(nodes@, source.spec_bytes()),
    ensures
        res == named_with(nodes@, source.spec_bytes(), i as int, kind@, prefix@),
{
    match find_child(nodes, i, kind, kind) {
        Some(c) => {
            let text = node_chars(nodes, source, c);
            let p = chars_of(prefix);
            seq_starts_with(text.as_slice(), p.as_slice())
        },
        None => false,
    }
}

} // verus!
