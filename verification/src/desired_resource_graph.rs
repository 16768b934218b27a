//! The desired resource graph: compiled resources of every desired component,
//! with backends resolved.
use vstd::prelude::*;
use crate::id::CanonicalBackendId;
use crate::strmap::StrMap;
use crate::tool::ToolVerifyContract;

verus! {

/// Schema version of the desired resource graph.
pub const DESIRED_RESOURCE_GRAPH_SCHEMA_VERSION: u32 = 1;

/// Desired resources of all components, keyed by canonical component id.
#[derive(Debug)]
pub struct DesiredResourceGraph {
    pub schema_version: u32,
    pub components: StrMap<ComponentDesiredResources>,
}

/// Desired resources of one component.
#[derive(Debug)]
pub struct ComponentDesiredResources {
    pub resources: Vec<DesiredResource>,
}

/// One desired resource.
#[derive(Debug, PartialEq)]
pub struct DesiredResource {
    pub id: String,
    pub kind: DesiredResourceKind,
}

/// Kind-specific data of a desired resource.
#[derive(Debug, PartialEq)]
pub enum DesiredResourceKind {
    Package { name: String, desired_backend: CanonicalBackendId },
    Runtime { name: String, version: String, desired_backend: CanonicalBackendId },
    Fs { source: Option<String>, path: String, entry_type: FsEntryType, op: FsOp },
    Tool { name: String, verify: ToolVerifyContract },
}

/// Entry type of a desired filesystem resource.
#[derive(Debug, Clone, Copy, PartialEq, Eq)]
pub enum FsEntryType {
    File,
    Dir,
}

/// Operation of a desired filesystem resource.
#[derive(Debug, Clone, Copy, PartialEq, Eq)]
pub enum FsOp {
    Link,
    Copy,
}

} // verus!
