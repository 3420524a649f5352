//! Phase 1: file discovery and ingestion.
//!
//! The library side of ingestion: the records of discovered files, git
//! context and directory tree, and the filters applied to discovered paths.

pub mod git;
pub mod tree;
pub mod walker;

use vstd::prelude::*;
use crate::ingestion::tree::{build_directory_tree, directory_tree};
use crate::parser::{Language, detected_language};
use crate::tokens::{cl100k_token_count, compute_token_count};

verus! {

/// A discovered source file with its content and metadata.
#[derive(Debug)]
pub struct DiscoveredFile {
    /// Relative path from the project root.
    pub path: String,
    /// Full file content.
    pub content: String,
    /// Detected language (None if unsupported).
    pub language: Option<Language>,
    /// Raw token count of the original content.
    pub raw_token_count: usize,
}

/// Git context captured from the repository.
#[derive(Debug)]
pub struct GitContext {
    /// Current branch name.
    pub branch: String,
    /// Latest commit summary.
    pub latest_commit: String,
    /// Uncommitted changes diff (may be truncated).
    pub diff: Option<String>,
}

/// Result of the ingestion phase.
#[derive(Debug)]
pub struct IngestionResult {
    /// All discovered source files.
    pub files: Vec<DiscoveredFile>,
    /// Directory tree string (with annotations).
    pub directory_tree: String,
    /// Git context (None if `--no-git` or not a git repo).
    pub git_context: Option<GitContext>,
}


/// Detect the language of a file from its extension.
pub fn detect_language(path: &str) -> (res: Option<Language>)
    ensures
        res == detected_language(path@),
{
    crate::parser::detect_language(path)
}

/// The record of a discovered file: its path and content, its detected language
/// and the token count of its content.
pub fn discover_file(path: &str, content: &str) -> (res: DiscoveredFile)
    ensures
        res.path@ == path@,
        res.content@ == content@,
        res.language == detected_language(path@),
        res.raw_token_count == cl100k_token_count(content@),
{
    DiscoveredFile {
        path: String::from_str(path),
        content: String::from_str(content),
        language: crate::parser::detect_language(path),
        raw_token_count: compute_token_count(content),
    }
}

/// The paths and contents of the files that could be read, in order.
pub open spec fn readable_files(paths: Seq<String>, contents: Seq<Option<String>>) -> Seq<(Seq<char>, Seq<char>)>
    decreases paths.len(),
{
    if paths.len() == 0 || contents.len() == 0 {
        Seq::empty()
    } else {
        readable_files(paths.drop_last(), contents.drop_last()) + match contents.last() {
            Some(c) => seq![(paths.last()@, c@)],
            None => Seq::empty(),
        }
    }
}

/// Assemble the result of ingestion from the discovered paths (relative to the
/// root, in order) and what reading each gave: a file is recorded when it could
/// be read; the directory tree covers every path unless `no_tree`.
pub fn assemble_ingestion(
    root: &str,
    file_paths: &[String],
    contents: &[Option<String>],
    no_tree: bool,
    git_context: Option<GitContext>,
) -> (res: IngestionResult)
    requires
        contents@.len() == file_paths@.len(),
    ensures
        res.files@.map_values(|f: DiscoveredFile| (f.path@, f.content@)) == readable_files(file_paths@, contents@),
        forall|k: int| 0 <= k < res.files@.len() ==> (#[trigger] res.files@[k]).language == detected_language(
            res.files@[k].path@,
        ) && res.files@[k].raw_token_count == cl100k_token_count(res.files@[k].content@),
        res.directory_tree@ == if no_tree {
            Seq::<char>::empty()
        } else {
            directory_tree(root@, file_paths@)
        },
        res.git_context == git_context,
{
    let mut files: Vec<DiscoveredFile> = Vec::new();
    let mut i: usize = 0;
    while i < file_paths.len()
        invariant
            i <= file_paths@.len(),
            contents@.len() == file_paths@.len(),
            files@.map_values(|f: DiscoveredFile| (f.path@, f.content@)) == readable_files(
                file_paths@.take(i as int),
                contents@.take(i as int),
            ),
            forall|k: int| 0 <= k < files@.len() ==> (#[trigger] files@[k]).language == detected_language(
                files@[k].path@,
            ) && files@[k].raw_token_count == cl100k_token_count(files@[k].content@),
        decreases file_paths.len() - i,
    {
        proof {
            assert(file_paths@.take(i + 1).drop_last() =~= file_paths@.take(i as int));
            assert(contents@.take(i + 1).drop_last() =~= contents@.take(i as int));
        }
        let ghost before = files@.map_values(|f: DiscoveredFile| (f.path@, f.content@));
        match &contents[i] {
            Some(content) => {
                let file = discover_file(file_paths[i].as_str(), content.as_str());
                files.push(file);
                assert(files@.map_values(|f: DiscoveredFile| (f.path@, f.content@)) =~= before.push(
                    (file_paths@[i as int]@, content@),
                ));
            },
            None => {
                assert(before + Seq::<(Seq<char>, Seq<char>)>::empty() =~= before);
            },
        }
        i = i + 1;
    }
    assert(file_paths@.take(i as int) =~= file_paths@);
    assert(contents@.take(i as int) =~= contents@);
    let directory_tree = if no_tree {
        String::new()
    } else {
        build_directory_tree(root, file_paths)
    };
    IngestionResult { files, directory_tree, git_context }
}

} // verus!
