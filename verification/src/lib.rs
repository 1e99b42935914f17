//! Finds TODO annotations in the comments of source code, groups them into
//! issues by title, and reconciles the issues found locally with those that an
//! issue tracker already holds.
//!
//! The crate is pure: it never touches the file system, a process or the
//! network. A caller hands it text (the output of a line search, the contents
//! of files, the bodies of tracker issues) and receives parsed values and the
//! patch to apply.

use vstd::prelude::*;

pub mod finder;
pub mod github;
pub mod parser;
pub mod text;

verus! {

/// What can go wrong in this crate beyond a parser that finds nothing.
#[derive(Debug, Clone, PartialEq, Eq)]
pub enum Error {
    /// The origin of the repository names no owner and repository.
    ParseOwnerRepo,
    /// The output of the line search is not UTF-8.
    RgUtf8,
    /// The output of the line search is not a list of files with numbered
    /// lines.
    ParseRg,
    /// The file at `path` does not lie under the root of the project, so that
    /// no link to it can be made.
    Prefix { path: String },
}



} // verus!
