//! Bounded user-supplied target files.

use crate::text::{lines, split_lines, views};
use crate::workflow::error::AppError;
use vstd::prelude::*;

verus! {

/// Largest file of lookup targets that is read.
pub const LOOKUP_TARGET_READ_LIMIT: usize = 2_097_152;

/// Lists the targets of a file, given what it holds or why it cannot be read.
pub fn lookup_target_lines(path: &String, contents: Result<String, String>) -> (targets: Result<
    Vec<String>,
    AppError,
>)
    ensures
        match contents {
            Ok(text) => targets matches Ok(list) && views(list@) == lines(text@),
            Err(why) => targets matches Err(
                AppError::LookupTargetFileRead { path: shown, reason },
            ) && shown@ == path@ && reason == why,
        },
{
    match contents {
        Ok(text) => Ok(split_lines(text.as_str())),
        Err(reason) => Err(AppError::LookupTargetFileRead { path: path.clone(), reason }),
    }
}

} // verus!
