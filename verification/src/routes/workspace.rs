//! Requests about workspaces.

use crate::indexer::IndexStatusResponse;
use vstd::prelude::*;

verus! {

/// A request to register a directory as a workspace.
pub struct CreateWorkspaceRequest {
    pub name: String,
    /// The root of the workspace, as the client wrote it.
    pub path: String,
}

/// Whether a workspace that is activated is indexed at once: it is neither
/// indexed nor being indexed.
pub fn needs_indexing(status: &IndexStatusResponse) -> (r: bool)
    ensures
        r == (!status.indexed && !status.is_indexing),
{
    !status.indexed && !status.is_indexing
}

} // verus!
