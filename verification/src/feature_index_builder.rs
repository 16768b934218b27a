//! Feature index builder: validates and normalizes each feature's
//! `feature.yaml` (merged with its `feature.<platform>.yaml` override) into a
//! [`FeatureMeta`], with the same merge and dependency rules as components.
use vstd::prelude::*;
use crate::component_index::{CapabilityRef, DepSpec};
use crate::component_index_builder::{multi_slash_pred, names_of, normalize_depends, normalized_dep, pick, ComponentIndexError};
use crate::feature_index::{FeatureMeta, FeatureMode, FeatureSpec, SpecResource};
use crate::platform::Platform;
use crate::text::{concat2, concat3, concat_all, concat_seq, decimal, decimal_string, eq_str};

verus! {

/// The supported `spec_version` of `feature.yaml`.
pub const SUPPORTED_FEATURE_SPEC_VERSION: u32 = 1;

/// A source root for feature discovery: a source id and its `features/` directory.
#[derive(Debug, Clone, PartialEq)]
pub struct SourceRoot {
    pub source_id: String,
    pub features_dir: String,
}

/// The fields of a `feature.yaml` (or its platform override).
#[derive(Debug, PartialEq)]
pub struct RawFeatureYaml {
    pub spec_version: Option<u32>,
    pub mode: Option<String>,
    pub description: Option<String>,
    pub depends: Option<Vec<String>>,
    pub requires: Option<Vec<String>>,
    pub provides: Option<Vec<String>>,
    pub resources: Option<Vec<SpecResource>>,
}

/// Errors produced by the feature index builder.
#[derive(Debug, Clone, PartialEq)]
pub enum FeatureIndexError {
    UnsupportedSpecVersion { feature_id: String, found: Option<u32>, expected: u32 },
    DeclarativeMissingResources { feature_id: String },
    InvalidDependsEntry { feature_id: String, entry: String },
    /// Reading or parsing a feature file failed (the message of the failure).
    ReadError { feature_id: String, path: String, message: String },
    /// A source directory could not be scanned (the message of the failure).
    ScanError { dir: String, message: String },
}

/// The message of a feature index error.
pub open spec fn feature_index_error_message(e: FeatureIndexError) -> Seq<char> {
    match e {
        FeatureIndexError::UnsupportedSpecVersion { feature_id, found, expected } =>
            "feature '"@ + feature_id@ + "': unsupported spec_version (found "@ + crate::component_index_builder::debug_opt(found)
                + ", expected "@ + decimal(expected as nat) + ")"@,
        FeatureIndexError::DeclarativeMissingResources { feature_id } =>
            "feature '"@ + feature_id@ + "': mode is declarative but no resources are declared"@,
        FeatureIndexError::InvalidDependsEntry { feature_id, entry } =>
            "feature '"@ + feature_id@ + "': dep.depends entry '"@ + entry@
                + "' has more than one '/' (must be bare name or single-slash canonical ID)"@,
        FeatureIndexError::ReadError { feature_id, path, message } =>
            "feature '"@ + feature_id@ + "': failed to read '"@ + path@ + "': "@ + message@,
        FeatureIndexError::ScanError { dir, message } =>
            "failed to scan source directory '"@ + dir@ + "': "@ + message@,
    }
}

impl FeatureIndexError {
    /// The human-readable message.
    pub fn message(&self) -> (r: String)
        ensures
            r@ == feature_index_error_message(*self),
    {
        match self {
            FeatureIndexError::UnsupportedSpecVersion { feature_id, found, expected } => {
                let f = match found {
                    Some(n) => concat3("Some(", decimal_string(*n as u128).as_str(), ")"),
                    None => "None".to_owned(),
                };
                let e = decimal_string(*expected as u128);
                let parts = vec!["feature '", feature_id.as_str(), "': unsupported spec_version (found ", f.as_str(), ", expected ",
                    e.as_str(), ")"];
                let r = concat_all(&parts);
                proof {
                    reveal_with_fuel(concat_seq, 8);
                    assert(parts@.map_values(|p: &str| p@) =~= seq!["feature '"@, feature_id@, "': unsupported spec_version (found "@,
                        f@, ", expected "@, e@, ")"@]);
                }
                r
            },
            FeatureIndexError::DeclarativeMissingResources { feature_id } =>
                concat3("feature '", feature_id.as_str(), "': mode is declarative but no resources are declared"),
            FeatureIndexError::InvalidDependsEntry { feature_id, entry } => {
                let parts = vec!["feature '", feature_id.as_str(), "': dep.depends entry '", entry.as_str(),
                    "' has more than one '/' (must be bare name or single-slash canonical ID)"];
                let r = concat_all(&parts);
                proof {
                    reveal_with_fuel(concat_seq, 6);
                    assert(parts@.map_values(|p: &str| p@) =~= seq!["feature '"@, feature_id@, "': dep.depends entry '"@, entry@,
                        "' has more than one '/' (must be bare name or single-slash canonical ID)"@]);
                }
                r
            },
            FeatureIndexError::ReadError { feature_id, path, message } => {
                let parts = vec!["feature '", feature_id.as_str(), "': failed to read '", path.as_str(), "': ", message.as_str()];
                let r = concat_all(&parts);
                proof {
                    reveal_with_fuel(concat_seq, 7);
                    assert(parts@.map_values(|p: &str| p@) =~= seq!["feature '"@, feature_id@, "': failed to read '"@, path@, "': "@,
                        message@]);
                }
                r
            },
            FeatureIndexError::ScanError { dir, message } => {
                let parts = vec!["failed to scan source directory '", dir.as_str(), "': ", message.as_str()];
                let r = concat_all(&parts);
                proof {
                    reveal_with_fuel(concat_seq, 5);
                    assert(parts@.map_values(|p: &str| p@) =~= seq!["failed to scan source directory '"@, dir@, "': "@, message@]);
                }
                r
            },
        }
    }
}

/// The file name of the platform override: `feature.<platform>.yaml`.
pub fn feature_override_file_name(platform: &Platform) -> (r: String)
    ensures
        r@ == "feature."@ + platform.name_spec() + ".yaml"@,
{
    concat3("feature.", platform.file_suffix(), ".yaml")
}

/// `base` with every field the overlay sets replaced by the overlay's.
pub open spec fn merged_feature(base: RawFeatureYaml, overlay: RawFeatureYaml) -> RawFeatureYaml {
    RawFeatureYaml {
        spec_version: pick(base.spec_version, overlay.spec_version),
        mode: pick(base.mode, overlay.mode),
        description: pick(base.description, overlay.description),
        depends: pick(base.depends, overlay.depends),
        requires: pick(base.requires, overlay.requires),
        provides: pick(base.provides, overlay.provides),
        resources: pick(base.resources, overlay.resources),
    }
}

/// Merge a platform override on top of a base file.
pub fn merge_feature(base: RawFeatureYaml, overlay: RawFeatureYaml) -> (r: RawFeatureYaml)
    ensures
        r == merged_feature(base, overlay),
{
    let mut b = base;
    if overlay.spec_version.is_some() { b.spec_version = overlay.spec_version; }
    if overlay.mode.is_some() { b.mode = overlay.mode; }
    if overlay.description.is_some() { b.description = overlay.description; }
    if overlay.depends.is_some() { b.depends = overlay.depends; }
    if overlay.requires.is_some() { b.requires = overlay.requires; }
    if overlay.provides.is_some() { b.provides = overlay.provides; }
    if overlay.resources.is_some() { b.resources = overlay.resources; }
    b
}

/// The feature file after its platform override (if any) is merged in.
pub open spec fn effective_feature(base: RawFeatureYaml, overlay: Option<RawFeatureYaml>) -> RawFeatureYaml {
    match overlay {
        Some(o) => merged_feature(base, o),
        None => base,
    }
}

/// The declared mode: `script`, or (by default) declarative.
pub open spec fn feature_mode_of(mode: Option<String>) -> FeatureMode {
    if mode matches Some(m) && m@ == "script"@ { FeatureMode::Script } else { FeatureMode::Declarative }
}

/// The declared dependencies (none when absent).
pub open spec fn feature_depends(m: RawFeatureYaml) -> Seq<String> {
    match m.depends {
        Some(d) => d@,
        None => Seq::empty(),
    }
}

/// The capability references named by `l` (executable).
fn caps(l: Option<Vec<String>>) -> (r: Vec<CapabilityRef>)
    ensures
        r@.map_values(|c: CapabilityRef| c.name@) == names_of(l),
{
    let mut out: Vec<CapabilityRef> = Vec::new();
    match l {
        None => {
            assert(out@.map_values(|c: CapabilityRef| c.name@) =~= Seq::<Seq<char>>::empty());
            out
        },
        Some(names) => {
            let ghost all = names@;
            let mut rest = names;
            let n = rest.len();
            let mut i: usize = 0;
            while i < n
                invariant
                    i <= n == all.len(),
                    rest@ == all.subrange(i as int, n as int),
                    out@.map_values(|c: CapabilityRef| c.name@) == all.subrange(0, i as int).map_values(|s: String| s@),
                decreases n - i,
            {
                let name = rest.remove(0);
                assert(name == all[i as int]);
                let ghost before = out@.map_values(|c: CapabilityRef| c.name@);
                out.push(CapabilityRef { name });
                assert(out@.map_values(|c: CapabilityRef| c.name@) =~= before.push(all[i as int]@));
                assert(all.subrange(0, i + 1).map_values(|s: String| s@) =~= all.subrange(0, i as int).map_values(|s: String| s@).push(all[i as int]@));
                assert(rest@ =~= all.subrange(i + 1, n as int));
                i = i + 1;
            }
            assert(all.subrange(0, n as int) =~= all);
            out
        },
    }
}

/// Build the metadata of feature `feature_id` (of source `source_id`, in
/// `feature_dir`) from its `feature.yaml` (`base`) and platform override.
/// `spec_version` must be 1; a multi-slash dependency is an error; an
/// explicitly declarative feature needs resources.
#[verifier::loop_isolation(false)]
pub fn build_feature(
    feature_id: &str,
    feature_dir: &str,
    source_id: &str,
    base: RawFeatureYaml,
    overlay: Option<RawFeatureYaml>,
) -> (r: Result<FeatureMeta, FeatureIndexError>)
    ensures
        ({
            let m = effective_feature(base, overlay);
            let deps = feature_depends(m);
            let bad_dep = crate::text::first_where(deps.len(), multi_slash_pred(deps));
            if m.spec_version != Some(SUPPORTED_FEATURE_SPEC_VERSION) {
                r is Err && (r->Err_0 matches FeatureIndexError::UnsupportedSpecVersion { feature_id: f, found, expected }
                    && f@ == feature_id@ && found == m.spec_version && expected == SUPPORTED_FEATURE_SPEC_VERSION)
            } else if bad_dep is Some {
                r is Err && (r->Err_0 matches FeatureIndexError::InvalidDependsEntry { feature_id: f, entry }
                    && f@ == feature_id@ && entry@ == deps[bad_dep->0]@)
            } else if (m.mode matches Some(x) && x@ == "declarative"@) && (m.resources is None || m.resources->0@.len() == 0) {
                r is Err && (r->Err_0 matches FeatureIndexError::DeclarativeMissingResources { feature_id: f } && f@ == feature_id@)
            } else {
                r is Ok && ({
                    let meta = r->Ok_0;
                    &&& meta.spec_version == SUPPORTED_FEATURE_SPEC_VERSION
                    &&& meta.mode == feature_mode_of(m.mode)
                    &&& meta.description == m.description
                    &&& meta.source_dir@ == feature_dir@
                    &&& meta.dep.depends@.map_values(|s: String| s@) == deps.map_values(|s: String| normalized_dep(source_id@, s@))
                    &&& meta.dep.requires@.map_values(|c: CapabilityRef| c.name@) == names_of(m.requires)
                    &&& meta.dep.provides@.map_values(|c: CapabilityRef| c.name@) == names_of(m.provides)
                    &&& (meta.spec is None) == (m.resources is None)
                    &&& (meta.spec is Some ==> meta.spec->0.resources == m.resources->0)
                })
            }
        }),
{
    proof {
        reveal_strlit("script");
        reveal_strlit("declarative");
    }
    let m = match overlay {
        Some(o) => merge_feature(base, o),
        None => base,
    };
    let ghost gm = m;
    let is_v1 = match m.spec_version {
        Some(v) => v == SUPPORTED_FEATURE_SPEC_VERSION,
        None => false,
    };
    if !is_v1 {
        return Err(FeatureIndexError::UnsupportedSpecVersion {
            feature_id: feature_id.to_owned(),
            found: m.spec_version,
            expected: SUPPORTED_FEATURE_SPEC_VERSION,
        });
    }
    let (mode, explicit_declarative) = match &m.mode {
        Some(x) => {
            if eq_str(x.as_str(), "script") {
                (FeatureMode::Script, false)
            } else {
                (FeatureMode::Declarative, eq_str(x.as_str(), "declarative"))
            }
        },
        None => (FeatureMode::Declarative, false),
    };
    assert("script"@.len() == 6 && "declarative"@.len() == 11);
    assert(explicit_declarative == (gm.mode matches Some(x) && x@ == "declarative"@));
    let RawFeatureYaml { spec_version: _, mode: _, description, depends, requires: required_caps, provides, resources } = m;
    let deps = match depends {
        Some(d) => d,
        None => Vec::new(),
    };
    let depends = match normalize_depends(feature_id, source_id, deps) {
        Ok(d) => d,
        Err(e) => {
            let entry = match e {
                ComponentIndexError::InvalidDependsEntry { entry, .. } => entry,
                _ => String::new(),
            };
            return Err(FeatureIndexError::InvalidDependsEntry { feature_id: feature_id.to_owned(), entry });
        },
    };
    let empty = match &resources {
        None => true,
        Some(rs) => rs.len() == 0,
    };
    if explicit_declarative && empty {
        return Err(FeatureIndexError::DeclarativeMissingResources { feature_id: feature_id.to_owned() });
    }
    let spec = match resources {
        Some(rs) => Some(FeatureSpec { resources: rs }),
        None => None,
    };
    let dep = DepSpec { depends, requires: caps(required_caps), provides: caps(provides) };
    Ok(FeatureMeta { spec_version: SUPPORTED_FEATURE_SPEC_VERSION, mode, description, source_dir: feature_dir.to_owned(), dep, spec })
}

} // verus!
