//! Git context: the provider interface and the treatment of a captured diff.
//!
//! Reading a repository is the host's work; the library states what a context
//! is made of, how a provider's answers combine, and how a diff is trimmed.

use vstd::prelude::*;
use vstd::string::StringSliceAdditionalSpecFns;
use vstd::utf8::*;
use crate::error::AstDocError;
use crate::ingestion::GitContext;
use crate::parser::strategy::{byte_len, byte_slice, slice_chars};
use crate::text::{push_str, string_from};

verus! {

/// Interface for extracting git context, so that a repository can be stood in
/// for in tests.
pub trait GitContextProvider {
    /// The current branch name.
    fn get_branch(&self) -> Result<String, AstDocError>;

    /// The latest commit summary (short hash and subject).
    fn get_latest_commit(&self) -> Result<String, AstDocError>;

    /// The uncommitted diff, or `None` when the tree is clean.
    fn get_diff(&self) -> Result<Option<String>, AstDocError>;

    /// Extract all git context: the branch, then the latest commit, then the
    /// diff; the first error ends the extraction.
    ///
    /// On success each field is an answer that its method gave; on failure the
    /// error is that of the first method that failed, the methods before it
    /// having answered.
    fn extract(&self) -> (res: Result<GitContext, AstDocError>)
        ensures
            res matches Ok(g) ==> {
                &&& call_ensures(Self::get_branch, (self,), Ok::<String, AstDocError>(g.branch))
                &&& call_ensures(Self::get_latest_commit, (self,), Ok::<String, AstDocError>(g.latest_commit))
                &&& call_ensures(Self::get_diff, (self,), Ok::<Option<String>, AstDocError>(g.diff))
            },
            res matches Err(e) ==> {
                ||| call_ensures(Self::get_branch, (self,), Err::<String, AstDocError>(e))
                ||| exists|b: String|
                    call_ensures(Self::get_branch, (self,), Ok::<String, AstDocError>(b))
                        && call_ensures(Self::get_latest_commit, (self,), Err::<String, AstDocError>(e))
                ||| exists|b: String, c: String|
                    call_ensures(Self::get_branch, (self,), Ok::<String, AstDocError>(b))
                        && call_ensures(Self::get_latest_commit, (self,), Ok::<String, AstDocError>(c))
                        && call_ensures(Self::get_diff, (self,), Err::<Option<String>, AstDocError>(e))
            },
    {
        let branch = match self.get_branch() {
            Ok(b) => b,
            Err(e) => return Err(e),
        };
        let latest_commit = match self.get_latest_commit() {
            Ok(c) => c,
            Err(e) => return Err(e),
        };
        let diff = match self.get_diff() {
            Ok(d) => d,
            Err(e) => return Err(e),
        };
        Ok(GitContext { branch, latest_commit, diff })
    }
}

/// A git context provider with fixed answers.
#[derive(Debug)]
pub struct MockGitContext {
    branch: String,
    commit: String,
    diff: Option<String>,
}

impl MockGitContext {
    /// The branch the provider answers with.
    pub closed spec fn branch_text(self) -> Seq<char> {
        self.branch@
    }

    /// The commit the provider answers with.
    pub closed spec fn commit_text(self) -> Seq<char> {
        self.commit@
    }

    /// The diff the provider answers with.
    pub closed spec fn diff_text(self) -> Option<Seq<char>> {
        match self.diff {
            Some(d) => Some(d@),
            None => None,
        }
    }

    /// Create a provider that answers with the given branch, commit and diff.
    pub fn new(branch: &str, commit: &str, diff: Option<&str>) -> (res: Self)
        ensures
            res.branch_text() == branch@,
            res.commit_text() == commit@,
            res.diff_text() == match diff {
                Some(d) => Some(d@),
                None => None::<Seq<char>>,
            },
    {
        let diff = match diff {
            Some(d) => Some(String::from_str(d)),
            None => None,
        };
        MockGitContext { branch: String::from_str(branch), commit: String::from_str(commit), diff }
    }
}

impl GitContextProvider for MockGitContext {
    fn get_branch(&self) -> (res: Result<String, AstDocError>)
        ensures
            res matches Ok(b) && b@ == self.branch_text(),
    {
        Ok(self.branch.clone())
    }

    fn get_latest_commit(&self) -> (res: Result<String, AstDocError>)
        ensures
            res matches Ok(c) && c@ == self.commit_text(),
    {
        Ok(self.commit.clone())
    }

    fn get_diff(&self) -> (res: Result<Option<String>, AstDocError>)
        ensures
            res matches Ok(d) && match d {
                Some(t) => self.diff_text() == Some(t@),
                None => self.diff_text() is None,
            },
    {
        match &self.diff {
            Some(d) => Ok(Some(d.clone())),
            None => Ok(None),
        }
    }
}

/// The largest diff, in bytes, kept whole.
pub const MAX_DIFF_SIZE: usize = 50_000;

/// The diff kept of a captured diff text: none when it is empty; its first
/// `MAX_DIFF_SIZE` bytes followed by `...[truncated]` when it is longer; else
/// the whole text.
pub open spec fn kept_diff(text: Seq<char>) -> Option<Seq<char>> {
    let bytes = encode_utf8(text);
    if text.len() == 0 {
        None
    } else if bytes.len() > MAX_DIFF_SIZE {
        Some(slice_chars(bytes, 0, MAX_DIFF_SIZE as int) + "...[truncated]"@)
    } else {
        Some(text)
    }
}

/// Trim a captured diff text (see [`kept_diff`]).
pub fn finish_diff(diff: &str) -> (res: Option<String>)
    requires
        diff.spec_bytes().len() > MAX_DIFF_SIZE ==> is_char_boundary(diff.spec_bytes(), MAX_DIFF_SIZE as int),
    ensures
        match res {
            Some(d) => kept_diff(diff@) == Some(d@),
            None => kept_diff(diff@) is None,
        },
{
    let len = byte_len(diff);
    proof {
        broadcast use vstd::utf8::group_utf8_lib;
        if diff@.len() == 0 {
            assert(encode_utf8(diff@) =~= Seq::<u8>::empty());
        } else {
            assert(encode_utf8(diff@) == encode_scalar(diff@[0] as u32) + encode_utf8(diff@.drop_first()));
        }
    }
    if len == 0 {
        return None;
    }
    if len > MAX_DIFF_SIZE {
        proof {
            broadcast use vstd::utf8::group_utf8_lib;
            assert(is_char_boundary(diff.spec_bytes(), 0));
        }
        let head = byte_slice(diff, 0, MAX_DIFF_SIZE);
        let mut out: Vec<char> = Vec::new();
        push_str(&mut out, head);
        push_str(&mut out, "...[truncated]");
        Some(string_from(&out))
    } else {
        Some(String::from_str(diff))
    }
}

} // verus!
