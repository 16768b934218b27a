//! Component index builder: validates and normalizes each component's
//! `component.yaml` (merged with its `component.<platform>.yaml` override)
//! into a [`ComponentMeta`].
//!
//! Overrides replace whole top-level fields; arrays are replaced, not
//! appended; absent fields are inherited. `spec_version` must be 1. Bare
//! `dep.depends` names are qualified with the component's source id.
//! Reading the files and scanning the source directories is the caller's part.
use vstd::prelude::*;
use crate::component_index::{CapabilityRef, ComponentMeta, ComponentMode, ComponentSpec, DepSpec, ScriptSpec, SpecResource, SpecResourceKind};
use crate::platform::Platform;
use crate::text::{concat2, concat3, concat_all, concat_seq, count_char, count_char_exec, decimal, decimal_string, eq_str};

verus! {

/// The supported `spec_version` of `component.yaml`.
pub const SUPPORTED_SPEC_VERSION: u32 = 1;

/// A source root for component discovery: a source id and its components directory.
#[derive(Debug, Clone, PartialEq)]
pub struct SourceRoot {
    pub source_id: String,
    /// Absolute path of the directory holding one subdirectory per component.
    pub components_dir: String,
}

/// The fields of a `component.yaml` (or its platform override); all optional
/// so that an override holds only what it replaces.
#[derive(Debug, PartialEq)]
pub struct RawComponentYaml {
    pub spec_version: Option<u32>,
    pub mode: Option<String>,
    pub description: Option<String>,
    pub depends: Option<Vec<String>>,
    /// Names of the required capabilities.
    pub requires: Option<Vec<String>>,
    /// Names of the provided capabilities.
    pub provides: Option<Vec<String>>,
    pub resources: Option<Vec<SpecResource>>,
    pub scripts: Option<RawScriptSpec>,
}

/// Raw script entry points.
#[derive(Debug, Clone, PartialEq)]
pub struct RawScriptSpec {
    pub install: Option<String>,
    pub uninstall: Option<String>,
}

/// Errors produced by the component index builder.
#[derive(Debug, Clone, PartialEq)]
pub enum ComponentIndexError {
    UnsupportedSpecVersion { component_id: String, found: Option<u32>, expected: u32 },
    DeclarativeMissingResources { component_id: String },
    ManagedScriptMissingResources { component_id: String },
    ManagedScriptInvalidResourceKind { component_id: String, resource_id: String, kind: String },
    ScriptsMissing { component_id: String, mode: String },
    ToolMissingIdentityVerify { component_id: String, resource_id: String },
    InvalidDependsEntry { component_id: String, entry: String },
    /// Reading or parsing a component file failed (the message of the failure).
    ReadError { component_id: String, path: String, message: String },
    /// A source directory could not be scanned (the message of the failure).
    ScanError { dir: String, message: String },
}

/// `Some(<n>)` or `None`, as debug formatting writes an optional number.
pub open spec fn debug_opt(o: Option<u32>) -> Seq<char> {
    match o {
        Some(n) => "Some("@ + decimal(n as nat) + ")"@,
        None => "None"@,
    }
}

/// The message of a component index error.
pub open spec fn index_error_message(e: ComponentIndexError) -> Seq<char> {
    match e {
        ComponentIndexError::UnsupportedSpecVersion { component_id, found, expected } =>
            "component '"@ + component_id@ + "': unsupported spec_version (found "@ + debug_opt(found) + ", expected "@
                + decimal(expected as nat) + ")"@,
        ComponentIndexError::DeclarativeMissingResources { component_id } =>
            "component '"@ + component_id@ + "': mode is declarative but no resources are declared"@,
        ComponentIndexError::ManagedScriptMissingResources { component_id } =>
            "component '"@ + component_id@ + "': mode is managed_script but no tool resources are declared"@,
        ComponentIndexError::ManagedScriptInvalidResourceKind { component_id, resource_id, kind } =>
            "component '"@ + component_id@ + "': mode is managed_script but resource '"@ + resource_id@ + "' has kind '"@ + kind@
                + "' (only 'tool' is allowed in managed_script components)"@,
        ComponentIndexError::ScriptsMissing { component_id, mode } =>
            "component '"@ + component_id@ + "': mode is "@ + mode@ + " but 'scripts.install' and 'scripts.uninstall' are required"@,
        ComponentIndexError::ToolMissingIdentityVerify { component_id, resource_id } =>
            "component '"@ + component_id@ + "': tool resource '"@ + resource_id@
                + "' must declare an identity verify (resolved_command, file, symlink_target, or directory). versioned_command alone is insufficient."@,
        ComponentIndexError::InvalidDependsEntry { component_id, entry } =>
            "component '"@ + component_id@ + "': dep.depends entry '"@ + entry@
                + "' has more than one '/' (must be bare name or single-slash canonical ID)"@,
        ComponentIndexError::ReadError { component_id, path, message } =>
            "component '"@ + component_id@ + "': failed to read '"@ + path@ + "': "@ + message@,
        ComponentIndexError::ScanError { dir, message } =>
            "failed to scan source directory '"@ + dir@ + "': "@ + message@,
    }
}

/// `component '<id>': <tail>` (executable).
fn component_message(id: &str, tail: &str) -> (r: String)
    ensures
        r@ == "component '"@ + id@ + "': "@ + tail@,
{
    let head = concat3("component '", id, "': ");
    concat2(head.as_str(), tail)
}

impl ComponentIndexError {
    /// The human-readable message.
    pub fn message(&self) -> (r: String)
        ensures
            r@ == index_error_message(*self),
    {
        match self {
            ComponentIndexError::UnsupportedSpecVersion { component_id, found, expected } => {
                let f = match found {
                    Some(n) => concat3("Some(", decimal_string(*n as u128).as_str(), ")"),
                    None => "None".to_owned(),
                };
                let e = decimal_string(*expected as u128);
                let parts = vec!["component '", component_id.as_str(), "': unsupported spec_version (found ", f.as_str(), ", expected ",
                    e.as_str(), ")"];
                let r = concat_all(&parts);
                proof {
                    reveal_with_fuel(concat_seq, 8);
                    assert(parts@.map_values(|p: &str| p@) =~= seq!["component '"@, component_id@, "': unsupported spec_version (found "@,
                        f@, ", expected "@, e@, ")"@]);
                }
                r
            },
            ComponentIndexError::DeclarativeMissingResources { component_id } =>
                concat3("component '", component_id.as_str(), "': mode is declarative but no resources are declared"),
            ComponentIndexError::ManagedScriptMissingResources { component_id } =>
                concat3("component '", component_id.as_str(), "': mode is managed_script but no tool resources are declared"),
            ComponentIndexError::ManagedScriptInvalidResourceKind { component_id, resource_id, kind } => {
                let parts = vec!["component '", component_id.as_str(), "': mode is managed_script but resource '", resource_id.as_str(),
                    "' has kind '", kind.as_str(), "' (only 'tool' is allowed in managed_script components)"];
                let r = concat_all(&parts);
                proof {
                    reveal_with_fuel(concat_seq, 8);
                    assert(parts@.map_values(|p: &str| p@) =~= seq!["component '"@, component_id@, "': mode is managed_script but resource '"@,
                        resource_id@, "' has kind '"@, kind@, "' (only 'tool' is allowed in managed_script components)"@]);
                }
                r
            },
            ComponentIndexError::ScriptsMissing { component_id, mode } => {
                let parts = vec!["component '", component_id.as_str(), "': mode is ", mode.as_str(),
                    " but 'scripts.install' and 'scripts.uninstall' are required"];
                let r = concat_all(&parts);
                proof {
                    reveal_with_fuel(concat_seq, 6);
                    assert(parts@.map_values(|p: &str| p@) =~= seq!["component '"@, component_id@, "': mode is "@, mode@,
                        " but 'scripts.install' and 'scripts.uninstall' are required"@]);
                }
                r
            },
            ComponentIndexError::ToolMissingIdentityVerify { component_id, resource_id } => {
                let parts = vec!["component '", component_id.as_str(), "': tool resource '", resource_id.as_str(),
                    "' must declare an identity verify (resolved_command, file, symlink_target, or directory). versioned_command alone is insufficient."];
                let r = concat_all(&parts);
                proof {
                    reveal_with_fuel(concat_seq, 6);
                    assert(parts@.map_values(|p: &str| p@) =~= seq!["component '"@, component_id@, "': tool resource '"@, resource_id@,
                        "' must declare an identity verify (resolved_command, file, symlink_target, or directory). versioned_command alone is insufficient."@]);
                }
                r
            },
            ComponentIndexError::InvalidDependsEntry { component_id, entry } => {
                let parts = vec!["component '", component_id.as_str(), "': dep.depends entry '", entry.as_str(),
                    "' has more than one '/' (must be bare name or single-slash canonical ID)"];
                let r = concat_all(&parts);
                proof {
                    reveal_with_fuel(concat_seq, 6);
                    assert(parts@.map_values(|p: &str| p@) =~= seq!["component '"@, component_id@, "': dep.depends entry '"@, entry@,
                        "' has more than one '/' (must be bare name or single-slash canonical ID)"@]);
                }
                r
            },
            ComponentIndexError::ReadError { component_id, path, message } => {
                let parts = vec!["component '", component_id.as_str(), "': failed to read '", path.as_str(), "': ", message.as_str()];
                let r = concat_all(&parts);
                proof {
                    reveal_with_fuel(concat_seq, 7);
                    assert(parts@.map_values(|p: &str| p@) =~= seq!["component '"@, component_id@, "': failed to read '"@, path@, "': "@,
                        message@]);
                }
                r
            },
            ComponentIndexError::ScanError { dir, message } => {
                let parts = vec!["failed to scan source directory '", dir.as_str(), "': ", message.as_str()];
                let r = concat_all(&parts);
                proof {
                    reveal_with_fuel(concat_seq, 5);
                    assert(parts@.map_values(|p: &str| p@) =~= seq!["failed to scan source directory '"@, dir@, "': "@, message@]);
                }
                r
            },
        }
    }
}

/// The file name of the platform override: `component.<platform>.yaml`.
pub fn override_file_name(platform: &Platform) -> (r: String)
    ensures
        r@ == "component."@ + platform.name_spec() + ".yaml"@,
{
    concat3("component.", platform.file_suffix(), ".yaml")
}

// ---------------------------------------------------------------------------
// Merging a platform override
// ---------------------------------------------------------------------------

/// The override `o` when set, else the base `b`.
pub open spec fn pick<T>(b: Option<T>, o: Option<T>) -> Option<T> {
    if o is Some { o } else { b }
}

/// `base` with every field the overlay sets replaced by the overlay's.
pub open spec fn merged_spec(base: RawComponentYaml, overlay: RawComponentYaml) -> RawComponentYaml {
    RawComponentYaml {
        spec_version: pick(base.spec_version, overlay.spec_version),
        mode: pick(base.mode, overlay.mode),
        description: pick(base.description, overlay.description),
        depends: pick(base.depends, overlay.depends),
        requires: pick(base.requires, overlay.requires),
        provides: pick(base.provides, overlay.provides),
        resources: pick(base.resources, overlay.resources),
        scripts: pick(base.scripts, overlay.scripts),
    }
}

/// Merge a platform override on top of a base file.
pub fn merge(base: RawComponentYaml, overlay: RawComponentYaml) -> (r: RawComponentYaml)
    ensures
        r == merged_spec(base, overlay),
{
    let mut b = base;
    if overlay.spec_version.is_some() { b.spec_version = overlay.spec_version; }
    if overlay.mode.is_some() { b.mode = overlay.mode; }
    if overlay.description.is_some() { b.description = overlay.description; }
    if overlay.depends.is_some() { b.depends = overlay.depends; }
    if overlay.requires.is_some() { b.requires = overlay.requires; }
    if overlay.provides.is_some() { b.provides = overlay.provides; }
    if overlay.resources.is_some() { b.resources = overlay.resources; }
    if overlay.scripts.is_some() { b.scripts = overlay.scripts; }
    b
}

/// Law: every top-level field the platform override sets replaces the base
/// field, and every field it leaves unset keeps the base's value.
pub proof fn law_merge_override_fields_win(base: RawComponentYaml, overlay: RawComponentYaml)
    ensures
        ({
            let m = merged_spec(base, overlay);
            &&& m.spec_version == (if overlay.spec_version is Some { overlay.spec_version } else { base.spec_version })
            &&& m.mode == (if overlay.mode is Some { overlay.mode } else { base.mode })
            &&& m.description == (if overlay.description is Some { overlay.description } else { base.description })
            &&& m.depends == (if overlay.depends is Some { overlay.depends } else { base.depends })
            &&& m.requires == (if overlay.requires is Some { overlay.requires } else { base.requires })
            &&& m.provides == (if overlay.provides is Some { overlay.provides } else { base.provides })
            &&& m.resources == (if overlay.resources is Some { overlay.resources } else { base.resources })
            &&& m.scripts == (if overlay.scripts is Some { overlay.scripts } else { base.scripts })
        }),
{
}

/// Merging an override twice is merging it once.
pub proof fn law_merge_override_idempotent(base: RawComponentYaml, overlay: RawComponentYaml)
    ensures
        merged_spec(merged_spec(base, overlay), overlay) == merged_spec(base, overlay),
{
}

/// An override that sets nothing leaves the base as it is.
pub proof fn law_merge_empty_override(base: RawComponentYaml, overlay: RawComponentYaml)
    requires
        overlay.spec_version is None && overlay.mode is None && overlay.description is None && overlay.depends is None
            && overlay.requires is None && overlay.provides is None && overlay.resources is None && overlay.scripts is None,
    ensures
        merged_spec(base, overlay) == base,
{
}

// ---------------------------------------------------------------------------
// Dependencies
// ---------------------------------------------------------------------------

/// A `dep.depends` entry normalized: a bare name is qualified with the
/// source id, a single-slash id is kept.
pub open spec fn normalized_dep(source_id: Seq<char>, entry: Seq<char>) -> Seq<char> {
    if count_char(entry, '/') == 0 { source_id + "/"@ + entry } else { entry }
}

/// Whether entry `i` of `depends` has more than one `/`.
pub open spec fn multi_slash_pred(depends: Seq<String>) -> spec_fn(int) -> bool {
    |i: int| count_char(depends[i]@, '/') >= 2
}

/// Normalize `dep.depends`: bare names get `<source_id>/`, single-slash ids
/// are kept, and the first entry with more than one `/` is an error.
pub fn normalize_depends(component_id: &str, source_id: &str, depends: Vec<String>) -> (r: Result<Vec<String>, ComponentIndexError>)
    ensures
        match crate::text::first_where(depends@.len(), multi_slash_pred(depends@)) {
            Some(i) => r is Err && (r->Err_0 matches ComponentIndexError::InvalidDependsEntry { component_id: c, entry }
                && c@ == component_id@ && entry@ == depends@[i]@),
            None => r is Ok && r->Ok_0@.map_values(|s: String| s@)
                == depends@.map_values(|s: String| normalized_dep(source_id@, s@)),
        },
{
    let ghost all = depends@;
    proof { crate::text::lemma_first_where(all.len(), multi_slash_pred(all)); }
    let mut out: Vec<String> = Vec::new();
    let mut i: usize = 0;
    while i < depends.len()
        invariant
            i <= depends@.len(),
            all == depends@,
            forall|k: int| 0 <= k < i ==> !(#[trigger] multi_slash_pred(all)(k)),
            out@.map_values(|s: String| s@) == all.subrange(0, i as int).map_values(|s: String| normalized_dep(source_id@, s@)),
        decreases depends@.len() - i,
    {
        let entry = &depends[i];
        let slashes = count_char_exec(entry.as_str(), '/');
        if slashes >= 2 {
            proof { crate::text::lemma_first_where_found(all.len(), multi_slash_pred(all), i as int); }
            return Err(ComponentIndexError::InvalidDependsEntry { component_id: component_id.to_owned(), entry: entry.clone() });
        }
        let normalized = if slashes == 0 { concat3(source_id, "/", entry.as_str()) } else { entry.clone() };
        let ghost before = out@.map_values(|s: String| s@);
        out.push(normalized);
        assert(out@.map_values(|s: String| s@) =~= before.push(normalized_dep(source_id@, all[i as int]@)));
        assert(all.subrange(0, i + 1).map_values(|s: String| normalized_dep(source_id@, s@))
            =~= all.subrange(0, i as int).map_values(|s: String| normalized_dep(source_id@, s@)).push(normalized_dep(source_id@, all[i as int]@)));
        i = i + 1;
    }
    proof { crate::text::lemma_first_where_none(all.len(), multi_slash_pred(all)); }
    assert(all.subrange(0, all.len() as int) =~= all);
    Ok(out)
}

// ---------------------------------------------------------------------------
// Building one component
// ---------------------------------------------------------------------------

/// The component file after its platform override (if any) is merged in.
pub open spec fn effective(base: RawComponentYaml, overlay: Option<RawComponentYaml>) -> RawComponentYaml {
    match overlay {
        Some(o) => merged_spec(base, o),
        None => base,
    }
}

/// The mode a component declares: `script`, `managed_script`, or (by
/// default, and for anything else) declarative.
pub open spec fn mode_of(mode: Option<String>) -> ComponentMode {
    match mode {
        Some(m) => if m@ == "script"@ {
            ComponentMode::Script
        } else if m@ == "managed_script"@ {
            ComponentMode::ManagedScript
        } else {
            ComponentMode::Declarative
        },
        None => ComponentMode::Declarative,
    }
}

/// Whether no resources are declared.
pub open spec fn no_resources(r: Option<Vec<SpecResource>>) -> bool {
    r is None || r->0@.len() == 0
}

/// Whether both scripts are declared.
pub open spec fn scripts_complete(s: Option<RawScriptSpec>) -> bool {
    s is Some && s->0.install is Some && s->0.uninstall is Some
}

/// The kind name of a resource.
pub open spec fn kind_name(k: SpecResourceKind) -> Seq<char> {
    match k {
        SpecResourceKind::Package { .. } => "package"@,
        SpecResourceKind::Runtime { .. } => "runtime"@,
        SpecResourceKind::Fs { .. } => "fs"@,
        SpecResourceKind::Tool { .. } => "tool"@,
    }
}

/// Whether resource `i` of `rs` is not a tool.
pub open spec fn non_tool_pred(rs: Seq<SpecResource>) -> spec_fn(int) -> bool {
    |i: int| !(rs[i].kind is Tool)
}

/// The declared dependencies (none when absent).
pub open spec fn depends_of(m: RawComponentYaml) -> Seq<String> {
    match m.depends {
        Some(d) => d@,
        None => Seq::empty(),
    }
}

/// The capability names (none when absent).
pub open spec fn names_of(l: Option<Vec<String>>) -> Seq<Seq<char>> {
    match l {
        Some(v) => v@.map_values(|s: String| s@),
        None => Seq::empty(),
    }
}

/// Why a component cannot be built.
pub enum BuildFault {
    /// `spec_version` is missing or not 1.
    SpecVersion,
    /// The dependency at this position has more than one `/`.
    DependsEntry(int),
    /// Explicitly declarative, but no resources.
    DeclarativeEmpty,
    /// Managed-script without both scripts.
    ScriptsMissing,
    /// Managed-script without resources.
    ManagedScriptEmpty,
    /// Managed-script with a non-tool resource at this position.
    NonTool(int),
}

/// The first check the merged component file `m` fails, in order.
pub open spec fn build_fault(m: RawComponentYaml) -> Option<BuildFault> {
    let deps = depends_of(m);
    let managed = mode_of(m.mode) == ComponentMode::ManagedScript;
    if m.spec_version != Some(SUPPORTED_SPEC_VERSION) {
        Some(BuildFault::SpecVersion)
    } else if crate::text::first_where(deps.len(), multi_slash_pred(deps)) is Some {
        Some(BuildFault::DependsEntry(crate::text::first_where(deps.len(), multi_slash_pred(deps))->0))
    } else if (m.mode matches Some(x) && x@ == "declarative"@) && no_resources(m.resources) {
        Some(BuildFault::DeclarativeEmpty)
    } else if managed && !scripts_complete(m.scripts) {
        Some(BuildFault::ScriptsMissing)
    } else if managed && no_resources(m.resources) {
        Some(BuildFault::ManagedScriptEmpty)
    } else if managed && crate::text::first_where(m.resources->0@.len(), non_tool_pred(m.resources->0@)) is Some {
        Some(BuildFault::NonTool(crate::text::first_where(m.resources->0@.len(), non_tool_pred(m.resources->0@))->0))
    } else {
        None
    }
}

/// Whether `e` is the error for `fault` of component `id` with file `m`.
pub open spec fn fault_error_is(e: ComponentIndexError, id: Seq<char>, m: RawComponentYaml, fault: BuildFault) -> bool {
    match fault {
        BuildFault::SpecVersion => e matches ComponentIndexError::UnsupportedSpecVersion { component_id, found, expected }
            && component_id@ == id && found == m.spec_version && expected == SUPPORTED_SPEC_VERSION,
        BuildFault::DependsEntry(i) => e matches ComponentIndexError::InvalidDependsEntry { component_id, entry }
            && component_id@ == id && entry@ == depends_of(m)[i]@,
        BuildFault::DeclarativeEmpty => e matches ComponentIndexError::DeclarativeMissingResources { component_id } && component_id@ == id,
        BuildFault::ScriptsMissing => e matches ComponentIndexError::ScriptsMissing { component_id, mode }
            && component_id@ == id && mode@ == "managed_script"@,
        BuildFault::ManagedScriptEmpty => e matches ComponentIndexError::ManagedScriptMissingResources { component_id } && component_id@ == id,
        BuildFault::NonTool(i) => e matches ComponentIndexError::ManagedScriptInvalidResourceKind { component_id, resource_id, kind }
            && component_id@ == id && resource_id@ == m.resources->0@[i].id@ && kind@ == kind_name(m.resources->0@[i].kind),
    }
}

/// Whether `meta` is the metadata built from the valid component file `m`
/// of source `source_id`, found in `component_dir`.
pub open spec fn built_from(meta: ComponentMeta, m: RawComponentYaml, source_id: Seq<char>, component_dir: Seq<char>) -> bool {
    &&& meta.spec_version == SUPPORTED_SPEC_VERSION
    &&& meta.mode == mode_of(m.mode)
    &&& meta.description == m.description
    &&& meta.source_dir@ == component_dir
    &&& meta.dep.depends@.map_values(|s: String| s@) == depends_of(m).map_values(|s: String| normalized_dep(source_id, s@))
    &&& meta.dep.requires@.map_values(|c: CapabilityRef| c.name@) == names_of(m.requires)
    &&& meta.dep.provides@.map_values(|c: CapabilityRef| c.name@) == names_of(m.provides)
    &&& meta.params_schema is None
    &&& (meta.spec is None) == (m.resources is None)
    &&& (meta.spec is Some ==> meta.spec->0.resources == m.resources->0)
    &&& (meta.scripts is Some) == scripts_complete(m.scripts)
    &&& (meta.scripts is Some ==> meta.scripts->0.install == m.scripts->0.install->0
        && meta.scripts->0.uninstall == m.scripts->0.uninstall->0)
}

/// The capability references named by `l`.
fn capability_refs(l: Option<Vec<String>>) -> (r: Vec<CapabilityRef>)
    ensures
        r@.map_values(|c: CapabilityRef| c.name@) == names_of(l),
{
    let mut out: Vec<CapabilityRef> = Vec::new();
    match l {
        None => {
            assert(out@.map_values(|c: CapabilityRef| c.name@) =~= Seq::<Seq<char>>::empty());
            out
        },
        Some(names) => {
            let ghost all = names@;
            let mut rest = names;
            let n = rest.len();
            let mut i: usize = 0;
            while i < n
                invariant
                    i <= n == all.len(),
                    rest@ == all.subrange(i as int, n as int),
                    out@.map_values(|c: CapabilityRef| c.name@) == all.subrange(0, i as int).map_values(|s: String| s@),
                decreases n - i,
            {
                let name = rest.remove(0);
                assert(name == all[i as int]);
                let ghost before = out@.map_values(|c: CapabilityRef| c.name@);
                out.push(CapabilityRef { name });
                assert(out@.map_values(|c: CapabilityRef| c.name@) =~= before.push(all[i as int]@));
                assert(all.subrange(0, i + 1).map_values(|s: String| s@) =~= all.subrange(0, i as int).map_values(|s: String| s@).push(all[i as int]@));
                assert(rest@ =~= all.subrange(i + 1, n as int));
                i = i + 1;
            }
            assert(all.subrange(0, n as int) =~= all);
            out
        },
    }
}

/// Build the metadata of component `component_id` (of source `source_id`, in
/// `component_dir`) from its `component.yaml` (`base`) and platform override
/// (`overlay`, when the file exists).
#[verifier::loop_isolation(false)]
pub fn build_one(
    component_id: &str,
    component_dir: &str,
    source_id: &str,
    base: RawComponentYaml,
    overlay: Option<RawComponentYaml>,
) -> (r: Result<ComponentMeta, ComponentIndexError>)
    ensures
        match build_fault(effective(base, overlay)) {
            Some(f) => r is Err && fault_error_is(r->Err_0, component_id@, effective(base, overlay), f),
            None => r is Ok && built_from(r->Ok_0, effective(base, overlay), source_id@, component_dir@),
        },
{
    proof {
        reveal_strlit("script");
        reveal_strlit("managed_script");
        reveal_strlit("declarative");
    }
    let m = match overlay {
        Some(o) => merge(base, o),
        None => base,
    };
    let ghost gm = m;
    let is_v1 = match m.spec_version {
        Some(v) => v == SUPPORTED_SPEC_VERSION,
        None => false,
    };
    if !is_v1 {
        return Err(ComponentIndexError::UnsupportedSpecVersion {
            component_id: component_id.to_owned(),
            found: m.spec_version,
            expected: SUPPORTED_SPEC_VERSION,
        });
    }
    let (mode, explicit_declarative) = match &m.mode {
        Some(x) => {
            if eq_str(x.as_str(), "script") {
                (ComponentMode::Script, false)
            } else if eq_str(x.as_str(), "managed_script") {
                (ComponentMode::ManagedScript, false)
            } else {
                (ComponentMode::Declarative, eq_str(x.as_str(), "declarative"))
            }
        },
        None => (ComponentMode::Declarative, false),
    };
    assert("script"@.len() == 6 && "declarative"@.len() == 11 && "managed_script"@.len() == 14);
    assert(explicit_declarative == (gm.mode matches Some(x) && x@ == "declarative"@));
    let RawComponentYaml { spec_version: _, mode: _, description, depends, requires: required_caps, provides, resources, scripts } = m;
    let deps = match depends {
        Some(d) => d,
        None => Vec::new(),
    };
    assert(deps@ == depends_of(gm));
    let depends = match normalize_depends(component_id, source_id, deps) {
        Ok(d) => d,
        Err(e) => {
            return Err(e);
        },
    };
    let empty = match &resources {
        None => true,
        Some(rs) => rs.len() == 0,
    };
    if explicit_declarative && empty {
        return Err(ComponentIndexError::DeclarativeMissingResources { component_id: component_id.to_owned() });
    }
    let managed = match mode {
        ComponentMode::ManagedScript => true,
        _ => false,
    };
    let complete = match &scripts {
        Some(sc) => sc.install.is_some() && sc.uninstall.is_some(),
        None => false,
    };
    if managed && !complete {
        return Err(ComponentIndexError::ScriptsMissing { component_id: component_id.to_owned(), mode: "managed_script".to_owned() });
    }
    if managed && empty {
        return Err(ComponentIndexError::ManagedScriptMissingResources { component_id: component_id.to_owned() });
    }
    if managed {
        if let Some(rs) = &resources {
            proof { crate::text::lemma_first_where(rs@.len(), non_tool_pred(rs@)); }
            let mut i: usize = 0;
            while i < rs.len()
                invariant
                    i <= rs@.len(),
                    forall|k: int| 0 <= k < i ==> !(#[trigger] non_tool_pred(rs@)(k)),
                decreases rs@.len() - i,
            {
                let res = &rs[i];
                let kind = match &res.kind {
                    SpecResourceKind::Package { .. } => Some("package"),
                    SpecResourceKind::Runtime { .. } => Some("runtime"),
                    SpecResourceKind::Fs { .. } => Some("fs"),
                    SpecResourceKind::Tool { .. } => None,
                };
                if let Some(k) = kind {
                    proof { crate::text::lemma_first_where_found(rs@.len(), non_tool_pred(rs@), i as int); }
                    return Err(ComponentIndexError::ManagedScriptInvalidResourceKind {
                        component_id: component_id.to_owned(),
                        resource_id: res.id.clone(),
                        kind: k.to_owned(),
                    });
                }
                i = i + 1;
            }
            proof { crate::text::lemma_first_where_none(rs@.len(), non_tool_pred(rs@)); }
        }
    }
    let spec = match resources {
        Some(rs) => Some(ComponentSpec { resources: rs }),
        None => None,
    };
    let scripts = match scripts {
        Some(sc) => match (sc.install, sc.uninstall) {
            (Some(install), Some(uninstall)) => Some(ScriptSpec { install, uninstall }),
            _ => None,
        },
        None => None,
    };
    let dep = DepSpec { depends, requires: capability_refs(required_caps), provides: capability_refs(provides) };
    Ok(ComponentMeta {
        spec_version: SUPPORTED_SPEC_VERSION,
        mode,
        description,
        source_dir: component_dir.to_owned(),
        dep,
        params_schema: None,
        spec,
        scripts,
    })
}

} // verus!
