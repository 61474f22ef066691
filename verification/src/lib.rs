//! `upath` — generate an **available** (non-colliding) file path.
//!
//! Given a candidate path that already exists on disk, `upath` finds the
//! nearest sibling name that is free by inserting or incrementing a numeric
//! suffix:
//!
//! ```text
//! a.txt           exists -> a(1).txt
//! a(1).txt        exists -> a(2).txt
//! a[3].txt        exists -> a[4].txt        (bracket style is preserved)
//! 报告（1）.txt   exists -> 报告（2）.txt    (Chinese brackets work too)
//! a.tar.xz        exists -> a(1).tar.xz      (split at the first dot)
//! .gitignore      exists -> .gitignore(1)
//! ```
//!
//! If the given path does not exist it is returned unchanged.
//!
//! Whether a path exists is asked of the file system by the caller: [`upath`]
//! takes the answer for the path itself, and the [`Search`] it may return
//! takes the answer for each candidate in turn.

pub mod error;
pub mod ext;
pub mod style;
pub mod unique;

pub use crate::error::{Error, Result};
pub use crate::unique::{Resolution, Search};

use vstd::prelude::*;

verus! {

/// Resolve `path` to the nearest free sibling path, given the file system's
/// answer to whether `path` exists (as `Path::try_exists` gives it).
///
/// Returns the input unchanged when it does not exist; otherwise the search
/// for a free sibling, whose candidates the caller probes in turn.
///
/// # Errors
///
/// Returns [`Error::MissingFileName`] if the path has no file-name component,
/// [`Error::Io`] when the existence of the path or of a candidate could not
/// be determined, and the search returns [`Error::Overflow`] if the numeric
/// suffix counter would exceed `u64`.
pub fn upath(path: &str, path_exists: std::io::Result<bool>) -> (r: Result<Resolution>)
    ensures
        unique::resolves(path@, path_exists, r),
{
    unique::resolve(path, path_exists)
}

} // verus!
