//! Error types of the pipeline.

use vstd::prelude::*;

verus! {

#[verifier::external_type_specification]
#[verifier::external_body]
pub struct ExIoError(std::io::Error);

#[verifier::external_type_specification]
#[verifier::external_body]
pub struct ExGitError(git2::Error);

#[verifier::external_type_specification]
#[verifier::external_body]
pub struct ExJsonError(serde_json::Error);

/// Errors that can occur during the pipeline.
#[derive(Debug)]
pub enum AstDocError {
    /// The token budget is exceeded even with minimum strategies.
    BudgetExceeded {
        /// Human-readable explanation.
        message: String,
    },
    /// An unsupported language was requested.
    UnsupportedLanguage {
        /// The language identifier that was not recognized.
        language: String,
    },
    /// A file could not be read.
    FileRead {
        /// Path to the file.
        path: String,
        /// Underlying I/O error.
        source: std::io::Error,
    },
    /// A syntax-tree parse error.
    Parse {
        /// Path to the file.
        path: String,
        /// Error description.
        message: String,
    },
    /// Git operation failed.
    Git(git2::Error),
    /// Glob pattern compilation failed.
    InvalidGlob(globset::Error),
    /// Generic I/O error.
    Io(std::io::Error),
    /// JSON serialization error.
    Json(serde_json::Error),
}

} // verus!
