//! State data types.
//!
//! State is the single authority for what resources were created by loadout execution
//! and what backend must be used for deterministic removal.
use vstd::prelude::*;
use crate::id::CanonicalBackendId;
use crate::strmap::StrMap;
use crate::tool::ToolResource;

verus! {

/// Current version number for the state schema.
pub const STATE_VERSION: u32 = 3;

/// Authoritative state recording all resources installed by loadout.
#[derive(Debug)]
pub struct State {
    /// Schema version; [`STATE_VERSION`] for this implementation.
    pub version: u32,
    /// Installed resources grouped by canonical component ID.
    pub components: StrMap<ComponentState>,
}

impl State {
    /// An empty (no components installed) initial state.
    pub fn empty() -> (r: Self)
        ensures
            r.version == STATE_VERSION,
            r.components@ == Map::<Seq<char>, ComponentState>::empty(),
    {
        State { version: STATE_VERSION, components: StrMap::new() }
    }
}

/// Resources recorded for a single installed component.
#[derive(Debug, PartialEq)]
pub struct ComponentState {
    pub resources: Vec<Resource>,
}

/// A recorded resource entry; `id` is unique within a component's resources.
#[derive(Debug, PartialEq)]
pub struct Resource {
    pub id: String,
    pub kind: ResourceKind,
}

/// Kind-specific data for a recorded resource.
#[derive(Debug, PartialEq)]
pub enum ResourceKind {
    /// An installed package, with the backend that must remove it.
    Package { backend: CanonicalBackendId, package: PackageDetails },
    /// An installed runtime, with the backend that must remove it.
    Runtime { backend: CanonicalBackendId, runtime: RuntimeDetails },
    /// A filesystem entry created or linked by loadout.
    Fs { fs: FsDetails },
    /// An external tool introduced by a managed-script component.
    Tool { tool: ToolResource },
}

/// Details for a recorded package resource.
#[derive(Debug, Clone, PartialEq)]
pub struct PackageDetails {
    pub name: String,
    /// Installed version, or `None` when it was not tracked.
    pub version: Option<String>,
}

/// Details for a recorded runtime resource.
#[derive(Debug, Clone, PartialEq)]
pub struct RuntimeDetails {
    pub name: String,
    pub version: String,
}

/// Details for a recorded filesystem resource.
#[derive(Debug, Clone, PartialEq)]
pub struct FsDetails {
    /// Absolute path that was created or linked.
    pub path: String,
    pub entry_type: FsEntryType,
    pub op: FsOp,
}

/// Type of filesystem entry recorded in state.
#[derive(Debug, Clone, Copy, PartialEq, Eq)]
pub enum FsEntryType {
    File,
    Dir,
    Symlink,
    Junction,
}

/// Filesystem operation recorded in state.
#[derive(Debug, Clone, Copy, PartialEq, Eq)]
pub enum FsOp {
    Copy,
    Link,
}

} // verus!
