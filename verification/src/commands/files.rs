//! The rules of the file commands: paths that may be opened.

use vstd::prelude::*;
use crate::error::AppError;
use crate::text::{chars_of, contains_lit, contains_seq};

verus! {

/// A path that may be opened holds no `..`.
pub fn check_open_path(path: &str) -> (r: Result<(), AppError>)
    ensures
        contains_seq(path@, ".."@) ==> (r matches Err(AppError::PermissionDenied { message })
            && message@ == "Path traversal detected"@),
        !contains_seq(path@, ".."@) ==> r is Ok,
{
    let p = chars_of(path);
    if contains_lit(p.as_slice(), "..") {
        return Err(AppError::PermissionDenied { message: "Path traversal detected".to_owned() });
    }
    Ok(())
}

} // verus!
