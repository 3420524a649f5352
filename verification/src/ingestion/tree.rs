//! The directory tree of the discovered files, rendered with `termtree`.
//!
//! The tree is kept as a list of nodes, each with its label and the position of
//! its parent; a node's children are the later nodes that name it as parent, in
//! the order they were added.

use vstd::prelude::*;
use crate::parser::{detect_language, detected_language};
use crate::paths::{components, file_name, path_components, path_file_name};
use crate::text::{push_str, str_eq, string_from};

verus! {

/// A list of tree nodes, each with its label and the position of its parent:
/// the root comes first, and every other node's parent comes before it.
pub open spec fn arena_ok(a: Seq<(Seq<char>, usize)>) -> bool {
    a.len() >= 1 && forall|j: int| 1 <= j < a.len() ==> (#[trigger] a[j]).1 < j
}

/// No node at position `k` or later is a child of `idx`.
pub open spec fn no_child_from(a: Seq<(Seq<char>, usize)>, idx: int, k: int) -> bool
    decreases a.len() - k,
{
    if k < 0 || k >= a.len() {
        true
    } else if a[k].1 == idx {
        false
    } else {
        no_child_from(a, idx, k + 1)
    }
}

/// The lines that `termtree` prints for the children of node `idx` at position
/// `j` or later and their subtrees, in order: each line is `prefix`, then `└── `
/// for the last child or `├── ` for another, then the label; the lines of a
/// child's subtree carry the prefix extended by `    ` after a last child, or by
/// `│   ` after another.
pub open spec fn kids_text(a: Seq<(Seq<char>, usize)>, idx: int, prefix: Seq<char>, j: int) -> Seq<char>
    decreases a.len() - idx, a.len() - j,
{
    if idx < 0 || j <= idx || j >= a.len() {
        Seq::empty()
    } else if a[j].1 == idx {
        let last = no_child_from(a, idx, j + 1);
        prefix + (if last {
            "└── "@
        } else {
            "├── "@
        }) + a[j].0 + "\n"@ + kids_text(
            a,
            j,
            prefix + if last {
                "    "@
            } else {
                "│   "@
            },
            j + 1,
        ) + kids_text(a, idx, prefix, j + 1)
    } else {
        kids_text(a, idx, prefix, j + 1)
    }
}

/// The text that `termtree` prints for a tree: the root's label on a line of its
/// own, then the lines of its children.
pub open spec fn tree_text(a: Seq<(Seq<char>, usize)>) -> Seq<char> {
    a[0].0 + "\n"@ + kids_text(a, 0, Seq::empty(), 1)
}

/// Render a tree with `termtree`.
///
/// Trusted: makes a `termtree::Tree` with `Tree::new` for each node, moves each
/// node other than the root, from the last to the second, to the front of its
/// parent's `leaves` (so each node's children keep their order), and renders the
/// root with `to_string`. termtree's `Display` prints the root's label and a
/// newline, then each node in pre-order on a line of its own with the default
/// glyphs, as [`tree_text`] states.
#[verifier::external_body]
fn render_tree(nodes: &[(String, usize)]) -> (res: String)
    requires
        arena_ok(arena_view(nodes@)),
    ensures
        res@ == tree_text(arena_view(nodes@)),
{
    let mut trees: Vec<termtree::Tree<String>> = Vec::new();
    for (label, _) in nodes {
        trees.push(termtree::Tree::new(label.clone()));
    }
    for j in (1..nodes.len()).rev() {
        if let Some(child) = trees.pop() {
            trees[nodes[j].1].leaves.insert(0, child);
        }
    }
    trees.pop().map_or_else(String::new, |root| root.to_string())
}

/// The labels and parent positions of a list of tree nodes.
pub open spec fn arena_view(nodes: Seq<(String, usize)>) -> Seq<(Seq<char>, usize)> {
    nodes.map_values(|e: (String, usize)| (e.0@, e.1))
}

/// The tree with a new node labelled `label` under node `parent`.
pub open spec fn add_node(a: Seq<(Seq<char>, usize)>, parent: int, label: Seq<char>) -> Seq<(Seq<char>, usize)> {
    a.push((label, parent as usize))
}

/// The first child of `parent`, at position `j` or later, labelled `label`.
pub open spec fn child_labelled(a: Seq<(Seq<char>, usize)>, parent: int, label: Seq<char>, j: int) -> Option<int>
    decreases a.len() - j,
{
    if j < 0 || j >= a.len() {
        None
    } else if a[j].1 == parent && a[j].0 == label {
        Some(j)
    } else {
        child_labelled(a, parent, label, j + 1)
    }
}

/// The tree after adding the components of a path from the `i`-th on, under
/// node `cur`: each directory is found among the children by its label or
/// added, and the last component is added with `leaf` after its name.
pub open spec fn insert_from(
    a: Seq<(Seq<char>, usize)>,
    comps: Seq<Seq<char>>,
    leaf: Seq<char>,
    cur: int,
    i: int,
) -> Seq<(Seq<char>, usize)>
    decreases comps.len() - i,
{
    if i < 0 || i >= comps.len() {
        a
    } else if i == comps.len() - 1 {
        add_node(a, cur, comps[i] + leaf)
    } else {
        match child_labelled(a, cur, comps[i], cur + 1) {
            Some(c) => insert_from(a, comps, leaf, c, i + 1),
            None => insert_from(add_node(a, cur, comps[i]), comps, leaf, a.len() as int, i + 1),
        }
    }
}

/// The language annotation of a file in the tree: ` [Language]`, or nothing.
pub open spec fn language_tag(path: Seq<char>) -> Seq<char> {
    match detected_language(path) {
        Some(lang) => " ["@ + lang.spec_display_name() + "]"@,
        None => Seq::empty(),
    }
}

/// The tree of a list of files under a root labelled `root`.
pub open spec fn tree_arena(root: Seq<char>, files: Seq<String>) -> Seq<(Seq<char>, usize)>
    decreases files.len(),
{
    if files.len() == 0 {
        seq![(root, 0usize)]
    } else {
        let p = files.last()@;
        insert_from(tree_arena(root, files.drop_last()), path_components(p), language_tag(p), 0, 0)
    }
}

/// The label of the tree's root: the final component of the root path, or
/// nothing when it has none.
pub open spec fn root_label(root: Seq<char>) -> Seq<char> {
    match path_file_name(root) {
        Some(name) => name,
        None => Seq::empty(),
    }
}

/// The rendered directory tree of a root path and its files.
pub open spec fn directory_tree(root: Seq<char>, files: Seq<String>) -> Seq<char> {
    tree_text(tree_arena(root_label(root), files))
}

/// The first child of `parent` labelled `label`.
fn find_labelled(nodes: &Vec<(String, usize)>, parent: usize, label: &str) -> (res: Option<usize>)
    ensures
        match res {
            Some(c) => child_labelled(arena_view(nodes@), parent as int, label@, parent + 1) == Some(c as int)
                && c < nodes@.len(),
            None => child_labelled(arena_view(nodes@), parent as int, label@, parent + 1) is None,
        },
{
    let ghost a = arena_view(nodes@);
    if parent >= nodes.len() {
        return None;
    }
    let mut j: usize = parent + 1;
    while j < nodes.len()
        invariant
            parent < j <= nodes@.len(),
            a == arena_view(nodes@),
            child_labelled(a, parent as int, label@, j as int) == child_labelled(a, parent as int, label@, parent + 1),
        decreases nodes.len() - j,
    {
        if nodes[j].1 == parent && str_eq(nodes[j].0.as_str(), label) {
            return Some(j);
        }
        j = j + 1;
    }
    None
}

/// The language annotation of a file (see [`language_tag`]).
fn tag_of(path: &str) -> (res: Vec<char>)
    ensures
        res@ == language_tag(path@),
{
    let mut tag: Vec<char> = Vec::new();
    match detect_language(path) {
        Some(lang) => {
            push_str(&mut tag, " [");
            push_str(&mut tag, lang.display_name());
            push_str(&mut tag, "]");
        },
        None => {},
    }
    tag
}

/// Add a file to the tree.
fn insert_file(nodes: &mut Vec<(String, usize)>, path: &str)
    requires
        old(nodes)@.len() >= 1,
        arena_ok(arena_view(old(nodes)@)),
    ensures
        arena_view(final(nodes)@) == insert_from(
            arena_view(old(nodes)@),
            path_components(path@),
            language_tag(path@),
            0,
            0,
        ),
        final(nodes)@.len() >= 1,
        arena_ok(arena_view(final(nodes)@)),
{
    let comps = components(path);
    let ghost cv = comps@.map_values(|c: String| c@);
    let tag = tag_of(path);
    let mut cur: usize = 0;
    let mut i: usize = 0;
    while i < comps.len()
        invariant
            cv == comps@.map_values(|c: String| c@),
            cv == path_components(path@),
            tag@ == language_tag(path@),
            i <= comps@.len(),
            cur < nodes@.len(),
            arena_ok(arena_view(nodes@)),
            insert_from(arena_view(nodes@), cv, tag@, cur as int, i as int) == insert_from(
                arena_view(old(nodes)@),
                cv,
                tag@,
                0,
                0,
            ),
        decreases comps.len() - i,
    {
        let ghost before = arena_view(nodes@);
        if i == comps.len() - 1 {
            let mut label: Vec<char> = Vec::new();
            push_str(&mut label, comps[i].as_str());
            let mut t = tag.clone();
            label.append(&mut t);
            nodes.push((string_from(&label), cur));
            assert(arena_view(nodes@) =~= add_node(before, cur as int, cv[i as int] + tag@));
            i = i + 1;
            assert(insert_from(arena_view(nodes@), cv, tag@, cur as int, i as int) == arena_view(nodes@));
        } else {
            match find_labelled(nodes, cur, comps[i].as_str()) {
                Some(c) => {
                    cur = c;
                },
                None => {
                    nodes.push((comps[i].clone(), cur));
                    assert(arena_view(nodes@) =~= add_node(before, cur as int, cv[i as int]));
                    cur = nodes.len() - 1;
                },
            }
            i = i + 1;
        }
    }
}

/// Build the directory tree string of the files under a root path, each file
/// annotated with its detected language.
pub fn build_directory_tree(root: &str, files: &[String]) -> (res: String)
    ensures
        res@ == directory_tree(root@, files@),
{
    let label = match file_name(root) {
        Some(name) => name,
        None => String::new(),
    };
    let mut nodes: Vec<(String, usize)> = Vec::new();
    nodes.push((label.clone(), 0));
    let mut i: usize = 0;
    proof {
        assert(arena_view(nodes@) =~= tree_arena(root_label(root@), files@.take(0)));
    }
    while i < files.len()
        invariant
            i <= files@.len(),
            label@ == root_label(root@),
            nodes@.len() >= 1,
            arena_view(nodes@) == tree_arena(root_label(root@), files@.take(i as int)),
            arena_ok(arena_view(nodes@)),
        decreases files.len() - i,
    {
        insert_file(&mut nodes, files[i].as_str());
        proof {
            assert(files@.take(i + 1).drop_last() =~= files@.take(i as int));
        }
        i = i + 1;
    }
    assert(files@.take(i as int) =~= files@);
    render_tree(nodes.as_slice())
}

} // verus!
