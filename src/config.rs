//! The workspace file: the list of member directories.
use vstd::prelude::*;

verus! {

/// The contents of the workspace file.
pub struct MetaConfig {
    pub workspace: WorkspaceConfig,
}

/// The `workspace` table of the workspace file.
pub struct WorkspaceConfig {
    /// Member directories, relative to the workspace root, in order.
    pub members: Vec<String>,
}

} // verus!
