//! Component index types: the normalized, validated view of all components.
use vstd::prelude::*;
use crate::params::ParamsSchema;
use crate::strmap::StrMap;
use crate::tool::{ToolVerifyContract, same_contract};

verus! {

/// Schema version of the component index.
pub const COMPONENT_INDEX_SCHEMA_VERSION: u32 = 1;

/// All components known to a run, keyed by canonical component id.
#[derive(Debug)]
pub struct ComponentIndex {
    pub schema_version: u32,
    pub components: StrMap<ComponentMeta>,
}

/// Metadata of one component.
#[derive(Debug)]
pub struct ComponentMeta {
    pub spec_version: u32,
    pub mode: ComponentMode,
    pub description: Option<String>,
    /// Absolute path of the component's directory.
    pub source_dir: String,
    pub dep: DepSpec,
    pub params_schema: Option<ParamsSchema>,
    /// Declared resources (declarative and managed-script components).
    pub spec: Option<ComponentSpec>,
    /// Script names (script and managed-script components).
    pub scripts: Option<ScriptSpec>,
}

/// How a component is installed.
#[derive(Debug, Clone, Copy, PartialEq, Eq)]
pub enum ComponentMode {
    Script,
    ManagedScript,
    Declarative,
}

/// Dependencies and capabilities of a component.
#[derive(Debug, PartialEq)]
pub struct DepSpec {
    /// Canonical ids of components this one depends on.
    pub depends: Vec<String>,
    pub requires: Vec<CapabilityRef>,
    pub provides: Vec<CapabilityRef>,
}

/// A named capability.
#[derive(Debug, Clone, PartialEq)]
pub struct CapabilityRef {
    pub name: String,
}

/// Install and uninstall scripts of a component.
#[derive(Debug, Clone, PartialEq)]
pub struct ScriptSpec {
    pub install: String,
    pub uninstall: String,
}

/// Declared resources of a component.
#[derive(Debug)]
pub struct ComponentSpec {
    pub resources: Vec<SpecResource>,
}

/// One declared resource.
#[derive(Debug, PartialEq)]
pub struct SpecResource {
    pub id: String,
    pub kind: SpecResourceKind,
    /// `params.<key>` of an array param to expand this resource over.
    pub for_each: Option<String>,
}

/// Kind-specific data of a declared resource.
#[derive(Debug, PartialEq)]
pub enum SpecResourceKind {
    Package { name: String, version: Option<String> },
    Runtime { name: String, version: String },
    Fs { source: Option<String>, path: String, entry_type: SpecFsEntryType, op: FsOp },
    Tool { name: String, verify: ToolVerifyContract },
}

/// Entry type of a declared filesystem resource.
#[derive(Debug, Clone, Copy, PartialEq, Eq)]
pub enum SpecFsEntryType {
    File,
    Dir,
}

/// Operation of a declared filesystem resource.
#[derive(Debug, Clone, Copy, PartialEq, Eq)]
pub enum FsOp {
    Link,
    Copy,
}

/// Whether two resource kinds are the same (tool contracts compared by content).
pub open spec fn same_kind(a: SpecResourceKind, b: SpecResourceKind) -> bool {
    match (a, b) {
        (SpecResourceKind::Tool { name: n1, verify: v1 }, SpecResourceKind::Tool { name: n2, verify: v2 }) =>
            n1 == n2 && same_contract(v1, v2),
        (SpecResourceKind::Tool { .. }, _) => false,
        (_, SpecResourceKind::Tool { .. }) => false,
        _ => a == b,
    }
}

/// Whether two resources are the same (tool contracts compared by content).
pub open spec fn same_resource(a: SpecResource, b: SpecResource) -> bool {
    a.id == b.id && same_kind(a.kind, b.kind) && a.for_each == b.for_each
}

impl SpecResourceKind {
    /// A copy of this kind.
    pub fn duplicate(&self) -> (r: Self)
        ensures
            same_kind(*self, r),
    {
        match self {
            SpecResourceKind::Package { name, version } => SpecResourceKind::Package { name: name.clone(), version: version.clone() },
            SpecResourceKind::Runtime { name, version } => SpecResourceKind::Runtime { name: name.clone(), version: version.clone() },
            SpecResourceKind::Fs { source, path, entry_type, op } => SpecResourceKind::Fs {
                source: source.clone(),
                path: path.clone(),
                entry_type: *entry_type,
                op: *op,
            },
            SpecResourceKind::Tool { name, verify } => SpecResourceKind::Tool { name: name.clone(), verify: verify.duplicate() },
        }
    }
}

} // verus!
