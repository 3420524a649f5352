//! Phase 4: output rendering.
//!
//! Assembles the final `llms.txt` output from scheduled files, directory tree
//! and git context.

pub mod llms_txt;

use vstd::prelude::*;
use crate::ingestion::IngestionResult;
use crate::renderer::llms_txt::{
    anti_bloat, ends_with_one_newline, no_blank_runs, no_trailing_space, render, render_buffer,
};
use crate::scheduler::ScheduleResult;
use crate::paths::{file_name, path_file_name};

verus! {

/// The name of a project rooted at `path`: the path's final component, or
/// `unknown` when it has none (empty, root, `.`, or ending in `..`).
pub open spec fn project_name_of(path: Seq<char>) -> Seq<char> {
    match path_file_name(path) {
        Some(c) => c,
        None => "unknown"@,
    }
}

/// The name of a project rooted at `path` (see [`project_name_of`]).
pub fn project_name(path: &str) -> (res: String)
    ensures
        res@ == project_name_of(path@),
{
    match file_name(path) {
        Some(name) => name,
        None => String::from_str("unknown"),
    }
}

/// Render the final `llms.txt` output of a project whose root directory is
/// `project_path` (its canonical form, when one could be had): the project is
/// named after the path's final component.
pub fn render_llms_txt(
    scheduled: &ScheduleResult,
    ingestion: &IngestionResult,
    project_path: &str,
) -> (res: String)
    ensures
        res@ == anti_bloat(render_buffer(*scheduled, *ingestion, project_name_of(project_path@), Seq::empty())),
        no_blank_runs(res@),
        no_trailing_space(res@),
        ends_with_one_newline(res@),
{
    let name = project_name(project_path);
    proof {
        reveal_strlit("");
    }
    render(scheduled, ingestion, name.as_str(), "")
}

} // verus!
