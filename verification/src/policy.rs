//! Backend policy: default backends per resource kind, per-resource
//! overrides, and filesystem backup settings.
use vstd::prelude::*;
use crate::strmap::StrMap;

verus! {

/// A backend policy document.
#[derive(Debug)]
pub struct Policy {
    pub policy: Option<String>,
    pub package: Option<BackendPolicy>,
    pub runtime: Option<BackendPolicy>,
    pub fs: Option<FsPolicy>,
}

impl Default for Policy {
    fn default() -> (r: Self)
        ensures
            r.policy is None && r.package is None && r.runtime is None && r.fs is None,
    {
        Policy { policy: None, package: None, runtime: None, fs: None }
    }
}

/// The backend policy of one resource kind.
#[derive(Debug)]
pub struct BackendPolicy {
    pub default_backend: Option<String>,
    /// Per-resource backend overrides, keyed by resource name.
    pub overrides: StrMap<BackendOverride>,
}

/// A backend override for one resource.
#[derive(Debug, Clone, PartialEq)]
pub struct BackendOverride {
    pub backend: String,
}

/// Filesystem backup settings.
#[derive(Debug, Clone, PartialEq)]
pub struct FsPolicy {
    pub backup: Option<bool>,
    pub backup_dir: Option<String>,
}

impl Default for FsPolicy {
    fn default() -> (r: Self)
        ensures
            r.backup is None && r.backup_dir is None,
    {
        FsPolicy { backup: None, backup_dir: None }
    }
}

} // verus!
