//! The git seam: the operations the manager needs from git, injected so that
//! callers can supply a real implementation and tests a fake.

use vstd::prelude::*;

use crate::gitopolis::GitopolisError;

verus! {

/// Abstract git operations on working copies.
pub trait Git {
    /// The URL of one named remote of the repo at `path`.
    fn read_url(&self, path: String, remote_name: String) -> Result<String, GitopolisError>;

    /// All remotes of the repo at `path`, as name/URL pairs.
    fn read_all_remotes(&self, path: String) -> Result<Vec<(String, String)>, GitopolisError>;

    /// Registers a remote on the repo at `path`.
    fn add_remote(&self, path: &str, remote_name: &str, url: &str);

    /// Clones `url` into `path`.
    fn clone(&self, path: &str, url: &str);
}

} // verus!
