//! Feature index types: the parsed, merged and validated view of all
//! features, consumed by the resolver and the feature compiler.
use vstd::prelude::*;
use crate::component_index::DepSpec;
use crate::strmap::StrMap;

verus! {

/// Current schema version of the feature index.
pub const FEATURE_INDEX_SCHEMA_VERSION: u32 = 1;

/// All available features, keyed by canonical feature id.
#[derive(Debug)]
pub struct FeatureIndex {
    pub schema_version: u32,
    pub features: StrMap<FeatureMeta>,
}

/// Normalized metadata of one feature.
#[derive(Debug)]
pub struct FeatureMeta {
    /// Feature spec schema version; must be 1.
    pub spec_version: u32,
    pub mode: FeatureMode,
    pub description: Option<String>,
    /// Absolute path of the feature directory.
    pub source_dir: String,
    pub dep: DepSpec,
    /// Resource declarations (declarative features).
    pub spec: Option<FeatureSpec>,
}

/// How a feature is executed.
#[derive(Debug, Clone, Copy, PartialEq, Eq)]
pub enum FeatureMode {
    Script,
    Declarative,
}

/// Resource declarations of a declarative feature.
#[derive(Debug, PartialEq)]
pub struct FeatureSpec {
    pub resources: Vec<SpecResource>,
}

/// One resource declaration of a feature (before backend resolution).
#[derive(Debug, PartialEq)]
pub struct SpecResource {
    pub id: String,
    pub kind: SpecResourceKind,
}

/// Kind-specific data of a feature resource.
#[derive(Debug, PartialEq)]
pub enum SpecResourceKind {
    Package { name: String },
    Runtime { name: String, version: String },
    /// `source` is relative to the feature directory (default
    /// `files/<basename(path)>`); `path` is absolute or `~`-relative.
    Fs { source: Option<String>, path: String, entry_type: SpecFsEntryType, op: FsOp },
}

/// Entry types of feature filesystem resources.
#[derive(Debug, Clone, Copy, PartialEq, Eq)]
pub enum SpecFsEntryType {
    File,
    Dir,
}

/// Filesystem operation of a feature resource.
#[derive(Debug, Clone, Copy, PartialEq, Eq)]
pub enum FsOp {
    Link,
    Copy,
}

} // verus!
