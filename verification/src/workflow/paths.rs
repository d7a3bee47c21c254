//! Runtime path inputs and resolved locations.

use crate::text::to_chars;
use vstd::prelude::*;

verus! {

/// Inputs used to resolve all paths for one command.
#[derive(Debug, Clone, PartialEq, Eq)]
pub struct PathResolutionInput {
    /// Optional command-line configuration path override.
    pub explicit_config_path: Option<String>,
    /// Process temporary directory used for test-sandbox resolution.
    pub temp_dir: String,
    /// Recognized Kidobo environment variables, as name and value.
    pub env: Vec<(String, String)>,
}

/// Complete set of paths derived before a workflow performs side effects.
#[derive(Debug, Clone, PartialEq, Eq)]
pub struct ResolvedPaths {
    /// Directory containing the active configuration file.
    pub config_dir: String,
    /// Active configuration file.
    pub config_file: String,
    /// Directory containing persistent operator-managed data.
    pub data_dir: String,
    /// Local blocklist file.
    pub blocklist_file: String,
    /// Root cache directory.
    pub cache_dir: String,
    /// Directory containing remote source caches.
    pub remote_cache_dir: String,
    /// Nonblocking process lock file.
    pub lock_file: String,
}

/// Whether path resolution must confirm that the configuration exists.
#[derive(Debug, Clone, Copy, PartialEq, Eq, Structural)]
pub enum ConfigRequirement {
    /// Missing configuration is a hard error.
    Required,
    /// Missing configuration is allowed for workflows designed to operate without it.
    Optional,
}

/// A relative name below a directory.
pub open spec fn path_join(directory: Seq<char>, name: Seq<char>) -> Seq<char> {
    if directory.len() == 0 || directory.last() == '/' {
        directory + name
    } else {
        directory + "/"@ + name
    }
}

/// Joins a directory and a relative name.
pub fn join_path(directory: &str, name: &str) -> (path: String)
    ensures
        path@ == path_join(directory@, name@),
{
    let chars: Vec<char> = to_chars(directory);
    let mut path: String = directory.to_owned();
    if chars.len() > 0 && chars[chars.len() - 1] != '/' {
        path.append("/");
    }
    path.append(name);
    path
}

} // verus!
