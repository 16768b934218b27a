//! Building component and feature indexes from YAML files: the files live in
//! an in-memory source tree, are parsed here, and each component (feature)
//! is handed to the library's builder.
use loadout::component_index::{ComponentIndex, ComponentMode, SpecResource, SpecResourceKind};
use loadout::component_index_builder::{build_one, override_file_name, ComponentIndexError, RawComponentYaml, RawScriptSpec};
use loadout::feature_index::{self as fi, FeatureIndex, FeatureMode};
use loadout::feature_index_builder::{build_feature, feature_override_file_name, FeatureIndexError, RawFeatureYaml};
use loadout::platform::Platform;
use loadout::strmap::StrMap;
use loadout::tool::{OneOf, ToolIdentityVerify, ToolVerifyContract};
use serde_yaml::Value;

/// Directories of one source: each entry a directory name and its files.
type SourceTree = Vec<(String, Vec<(String, String)>)>;

fn field<'a>(v: &'a Value, key: &str) -> Option<&'a Value> {
    v.as_mapping().and_then(|m| m.get(Value::String(key.to_string())))
}

fn text(v: Option<&Value>) -> Option<String> {
    v.and_then(|x| x.as_str()).map(str::to_string)
}

fn strings(v: Option<&Value>) -> Option<Vec<String>> {
    v.and_then(|x| x.as_sequence()).map(|s| s.iter().map(|n| n.as_str().unwrap().to_string()).collect())
}

fn cap_names(v: Option<&Value>) -> Option<Vec<String>> {
    v.and_then(|x| x.as_sequence()).map(|s| s.iter().map(|c| text(field(c, "name")).unwrap()).collect())
}

fn identity(v: &Value) -> ToolIdentityVerify {
    match text(field(v, "type")).as_deref() {
        Some("resolved_command") => ToolIdentityVerify::ResolvedCommand {
            command: text(field(v, "command")).unwrap(),
            expected_path: OneOf { one_of: strings(field(field(v, "expected_path").unwrap(), "one_of")).unwrap() },
        },
        Some("file") => ToolIdentityVerify::File {
            path: text(field(v, "path")).unwrap(),
            executable: field(v, "executable").and_then(|e| e.as_bool()).unwrap_or(false),
        },
        Some("symlink_target") => ToolIdentityVerify::SymlinkTarget {
            path: text(field(v, "path")).unwrap(),
            expected_target: text(field(v, "expected_target")).unwrap(),
        },
        _ => ToolIdentityVerify::Directory { path: text(field(v, "path")).unwrap() },
    }
}

fn component_resource(v: &Value) -> SpecResource {
    let name = text(field(v, "name")).unwrap_or_default();
    let kind = match text(field(v, "kind")).as_deref() {
        Some("tool") => SpecResourceKind::Tool {
            name,
            verify: ToolVerifyContract {
                identity: identity(field(field(v, "verify").unwrap(), "identity").unwrap()),
                version: None,
            },
        },
        Some("runtime") => SpecResourceKind::Runtime { name, version: text(field(v, "version")).unwrap() },
        _ => SpecResourceKind::Package { name, version: text(field(v, "version")) },
    };
    SpecResource { id: text(field(v, "id")).unwrap(), kind, for_each: None }
}

fn feature_resource(v: &Value) -> fi::SpecResource {
    let name = text(field(v, "name")).unwrap_or_default();
    let kind = match text(field(v, "kind")).as_deref() {
        Some("runtime") => fi::SpecResourceKind::Runtime { name, version: text(field(v, "version")).unwrap() },
        _ => fi::SpecResourceKind::Package { name },
    };
    fi::SpecResource { id: text(field(v, "id")).unwrap(), kind }
}

fn component_yaml(content: &str) -> RawComponentYaml {
    let v: Value = serde_yaml::from_str(content).unwrap();
    RawComponentYaml {
        spec_version: field(&v, "spec_version").and_then(|n| n.as_u64()).map(|n| n as u32),
        mode: text(field(&v, "mode")),
        description: text(field(&v, "description")),
        depends: strings(field(&v, "depends")),
        requires: cap_names(field(&v, "requires")),
        provides: cap_names(field(&v, "provides")),
        resources: field(&v, "resources").and_then(|r| r.as_sequence()).map(|rs| rs.iter().map(component_resource).collect()),
        scripts: field(&v, "scripts").map(|s| RawScriptSpec { install: text(field(s, "install")), uninstall: text(field(s, "uninstall")) }),
    }
}

fn feature_yaml(content: &str) -> RawFeatureYaml {
    let v: Value = serde_yaml::from_str(content).unwrap();
    RawFeatureYaml {
        spec_version: field(&v, "spec_version").and_then(|n| n.as_u64()).map(|n| n as u32),
        mode: text(field(&v, "mode")),
        description: text(field(&v, "description")),
        depends: strings(field(&v, "depends")),
        requires: cap_names(field(&v, "requires")),
        provides: cap_names(field(&v, "provides")),
        resources: field(&v, "resources").and_then(|r| r.as_sequence()).map(|rs| rs.iter().map(feature_resource).collect()),
    }
}

/// Build the component index of the given sources (source id, directory,
/// and its tree; `None` where the directory does not exist).
fn build(sources: &[(&str, &str, Option<SourceTree>)], platform: Platform) -> Result<ComponentIndex, ComponentIndexError> {
    let mut components = StrMap::new();
    for (source_id, dir, tree) in sources {
        for (name, files) in tree.clone().unwrap_or_default() {
            let id = format!("{source_id}/{name}");
            let component_dir = format!("{dir}/{name}");
            let read = |f: &str| files.iter().find(|(n, _)| n == f).map(|(_, c)| component_yaml(c));
            let base = read("component.yaml").unwrap();
            let overlay = read(&override_file_name(&platform));
            let meta = build_one(&id, &component_dir, source_id, base, overlay)?;
            components.insert(id, meta);
        }
    }
    Ok(ComponentIndex { schema_version: 1, components })
}

fn build_features(sources: &[(&str, &str, Option<SourceTree>)], platform: Platform) -> Result<FeatureIndex, FeatureIndexError> {
    let mut features = StrMap::new();
    for (source_id, dir, tree) in sources {
        for (name, files) in tree.clone().unwrap_or_default() {
            let id = format!("{source_id}/{name}");
            let feature_dir = format!("{dir}/{name}");
            let read = |f: &str| files.iter().find(|(n, _)| n == f).map(|(_, c)| feature_yaml(c));
            let base = read("feature.yaml").unwrap();
            let overlay = read(&feature_override_file_name(&platform));
            let meta = build_feature(&id, &feature_dir, source_id, base, overlay)?;
            features.insert(id, meta);
        }
    }
    Ok(FeatureIndex { schema_version: 1, features })
}

const SIMPLE_SCRIPT: &str = "spec_version: 1\n";
const SIMPLE_DECLARATIVE: &str = "spec_version: 1\nmode: declarative\nresources:\n  - id: pkg:jq\n    kind: package\n    name: jq\n";

fn one(name: &str, file: &str, content: &str) -> Option<SourceTree> {
    Some(vec![(name.to_string(), vec![(file.to_string(), content.to_string())])])
}

fn depends(index: &ComponentIndex, id: &str) -> Vec<String> {
    index.components.get(id).unwrap().dep.depends.clone()
}

fn feature_depends(index: &FeatureIndex, id: &str) -> Vec<String> {
    index.features.get(id).unwrap().dep.depends.clone()
}

// ── Component index ─────────────────────────────────────────────────────────

#[test]
fn build_empty_source_dir() {
    let index = build(&[("core", "/src/core/components", Some(vec![]))], Platform::Linux).unwrap();
    assert_eq!(index.components.len(), 0);
}

#[test]
fn build_missing_source_dir_is_skipped() {
    let index = build(&[("local", "/src/missing", None)], Platform::Linux).unwrap();
    assert_eq!(index.components.len(), 0);
}

#[test]
fn build_default_mode_is_declarative() {
    let index = build(&[("core", "/t", one("git", "component.yaml", "spec_version: 1\ndescription: Git VCS\n"))], Platform::Linux).unwrap();
    let meta = index.components.get("core/git").expect("core/git must be in index");
    assert_eq!(meta.mode, ComponentMode::Declarative);
    assert_eq!(meta.description.as_deref(), Some("Git VCS"));
    assert!(meta.spec.is_none());
}

#[test]
fn build_declarative_component() {
    let index = build(&[("core", "/t", one("jq", "component.yaml", SIMPLE_DECLARATIVE))], Platform::Linux).unwrap();
    let meta = index.components.get("core/jq").unwrap();
    assert_eq!(meta.mode, ComponentMode::Declarative);
    let spec = meta.spec.as_ref().unwrap();
    assert_eq!(spec.resources.len(), 1);
    assert_eq!(spec.resources[0].id, "pkg:jq");
}

#[test]
fn build_source_dir_set_correctly() {
    let index = build(&[("core", "/t", one("git", "component.yaml", SIMPLE_SCRIPT))], Platform::Linux).unwrap();
    assert_eq!(index.components.get("core/git").unwrap().source_dir, "/t/git");
}

#[test]
fn bare_depends_normalized_to_same_source() {
    let index = build(&[("core", "/t", one("neovim", "component.yaml", "spec_version: 1\ndepends:\n  - git\n"))], Platform::Linux).unwrap();
    assert_eq!(depends(&index, "core/neovim"), vec!["core/git".to_string()]);
}

#[test]
fn canonical_depends_preserved() {
    let yaml = "spec_version: 1\ndepends:\n  - community/plugin\n";
    let index = build(&[("core", "/t", one("neovim", "component.yaml", yaml))], Platform::Linux).unwrap();
    assert_eq!(depends(&index, "core/neovim"), vec!["community/plugin".to_string()]);
}

fn mise_with_linux_override() -> Option<SourceTree> {
    Some(vec![("mise".to_string(), vec![
        ("component.yaml".to_string(), "spec_version: 1\ndescription: Base desc\ndepends:\n  - brew\n".to_string()),
        ("component.linux.yaml".to_string(), "depends:\n  - apt\n".to_string()),
    ])])
}

#[test]
fn platform_override_replaces_depends() {
    let index = build(&[("core", "/t", mise_with_linux_override())], Platform::Linux).unwrap();
    assert_eq!(depends(&index, "core/mise"), vec!["core/apt".to_string()]);
}

#[test]
fn platform_override_not_applied_on_different_platform() {
    let index = build(&[("core", "/t", mise_with_linux_override())], Platform::Windows).unwrap();
    assert_eq!(depends(&index, "core/mise"), vec!["core/brew".to_string()]);
}

#[test]
fn platform_override_inherits_base_fields() {
    let index = build(&[("core", "/t", mise_with_linux_override())], Platform::Linux).unwrap();
    let meta = index.components.get("core/mise").unwrap();
    assert_eq!(meta.description.as_deref(), Some("Base desc"));
    assert_eq!(meta.dep.depends, vec!["core/apt".to_string()]);
}

#[test]
fn missing_spec_version_is_error() {
    let err = build(&[("core", "/t", one("bad", "component.yaml", "description: no version\n"))], Platform::Linux).unwrap_err();
    assert!(matches!(err, ComponentIndexError::UnsupportedSpecVersion { .. }));
}

#[test]
fn wrong_spec_version_is_error() {
    let err = build(&[("core", "/t", one("bad", "component.yaml", "spec_version: 99\n"))], Platform::Linux).unwrap_err();
    assert!(matches!(err, ComponentIndexError::UnsupportedSpecVersion { .. }));
}

#[test]
fn declarative_with_no_resources_is_error() {
    let err = build(&[("core", "/t", one("nodecl", "component.yaml", "spec_version: 1\nmode: declarative\n"))], Platform::Linux).unwrap_err();
    assert!(matches!(err, ComponentIndexError::DeclarativeMissingResources { .. }));
}

#[test]
fn declarative_with_empty_resources_is_error() {
    let yaml = "spec_version: 1\nmode: declarative\nresources: []\n";
    let err = build(&[("core", "/t", one("empty", "component.yaml", yaml))], Platform::Linux).unwrap_err();
    assert!(matches!(err, ComponentIndexError::DeclarativeMissingResources { .. }));
}

#[test]
fn invalid_multi_slash_depends_is_error() {
    let err = build(&[("core", "/t", one("bad", "component.yaml", "spec_version: 1\ndepends:\n  - a/b/c\n"))], Platform::Linux).unwrap_err();
    assert!(matches!(err, ComponentIndexError::InvalidDependsEntry { .. }));
}

#[test]
fn multiple_sources_merged_into_one_index() {
    let index = build(
        &[
            ("core", "/t/core", one("git", "component.yaml", SIMPLE_SCRIPT)),
            ("local", "/t/local", one("myvim", "component.yaml", SIMPLE_SCRIPT)),
        ],
        Platform::Linux,
    )
    .unwrap();
    assert!(index.components.contains_key("core/git"));
    assert!(index.components.contains_key("local/myvim"));
}

#[test]
fn capabilities_parsed_correctly() {
    let yaml = "spec_version: 1\nprovides:\n  - name: runtime_manager\n  - name: package_manager\nrequires:\n  - name: shell\n";
    let index = build(&[("core", "/t", one("mise", "component.yaml", yaml))], Platform::Linux).unwrap();
    let dep = &index.components.get("core/mise").unwrap().dep;
    assert_eq!(dep.provides.len(), 2);
    assert_eq!(dep.provides[0].name, "runtime_manager");
    assert_eq!(dep.provides[1].name, "package_manager");
    assert_eq!(dep.requires.len(), 1);
    assert_eq!(dep.requires[0].name, "shell");
}

const BREW_TOOL: &str = "resources:\n  - id: tool:brew\n    kind: tool\n    name: brew\n    verify:\n      identity:\n        type: resolved_command\n        command: brew\n        expected_path:\n          one_of:\n            - /home/linuxbrew/.linuxbrew/bin/brew\n";

#[test]
fn managed_script_component_parsed() {
    let yaml = format!("spec_version: 1\nmode: managed_script\nscripts:\n  install: install.sh\n  uninstall: uninstall.sh\n{BREW_TOOL}");
    let index = build(&[("core", "/t", one("brew", "component.yaml", &yaml))], Platform::Linux).unwrap();
    let meta = index.components.get("core/brew").unwrap();
    assert_eq!(meta.mode, ComponentMode::ManagedScript);
    let scripts = meta.scripts.as_ref().unwrap();
    assert_eq!(scripts.install, "install.sh");
    assert_eq!(scripts.uninstall, "uninstall.sh");
    let spec = meta.spec.as_ref().unwrap();
    assert_eq!(spec.resources.len(), 1);
    assert_eq!(spec.resources[0].id, "tool:brew");
    assert!(matches!(spec.resources[0].kind, SpecResourceKind::Tool { .. }));
}

#[test]
fn managed_script_missing_scripts_is_error() {
    let yaml = format!("spec_version: 1\nmode: managed_script\n{BREW_TOOL}");
    let err = build(&[("core", "/t", one("brew", "component.yaml", &yaml))], Platform::Linux).unwrap_err();
    assert!(matches!(err, ComponentIndexError::ScriptsMissing { .. }));
}

#[test]
fn managed_script_missing_resources_is_error() {
    let yaml = "spec_version: 1\nmode: managed_script\nscripts:\n  install: install.sh\n  uninstall: uninstall.sh\n";
    let err = build(&[("core", "/t", one("brew", "component.yaml", yaml))], Platform::Linux).unwrap_err();
    assert!(matches!(err, ComponentIndexError::ManagedScriptMissingResources { .. }));
}

#[test]
fn managed_script_non_tool_resource_is_error() {
    let yaml = "spec_version: 1\nmode: managed_script\nscripts:\n  install: install.sh\n  uninstall: uninstall.sh\nresources:\n  - id: pkg:git\n    kind: package\n    name: git\n";
    let err = build(&[("core", "/t", one("brew", "component.yaml", yaml))], Platform::Linux).unwrap_err();
    assert!(matches!(err, ComponentIndexError::ManagedScriptInvalidResourceKind { .. }));
}

// ── Feature index ───────────────────────────────────────────────────────────

#[test]
fn lib_build_empty_source_dir() {
    let index = build_features(&[("core", "/src/core/features", Some(vec![]))], Platform::Linux).unwrap();
    assert_eq!(index.features.len(), 0);
}

#[test]
fn lib_build_missing_source_dir_is_skipped() {
    let index = build_features(&[("local", "/src/missing", None)], Platform::Linux).unwrap();
    assert_eq!(index.features.len(), 0);
}

#[test]
fn lib_build_default_mode_is_declarative() {
    let index = build_features(&[("core", "/t", one("git", "feature.yaml", "spec_version: 1\ndescription: Git VCS\n"))], Platform::Linux).unwrap();
    let meta = index.features.get("core/git").expect("core/git must be in index");
    assert_eq!(meta.mode, FeatureMode::Declarative);
    assert_eq!(meta.description.as_deref(), Some("Git VCS"));
    assert!(meta.spec.is_none());
}

#[test]
fn build_declarative_feature() {
    let index = build_features(&[("core", "/t", one("jq", "feature.yaml", SIMPLE_DECLARATIVE))], Platform::Linux).unwrap();
    let meta = index.features.get("core/jq").unwrap();
    assert_eq!(meta.mode, FeatureMode::Declarative);
    let spec = meta.spec.as_ref().unwrap();
    assert_eq!(spec.resources.len(), 1);
    assert_eq!(spec.resources[0].id, "pkg:jq");
}

#[test]
fn lib_build_source_dir_set_correctly() {
    let index = build_features(&[("core", "/t", one("git", "feature.yaml", SIMPLE_SCRIPT))], Platform::Linux).unwrap();
    assert_eq!(index.features.get("core/git").unwrap().source_dir, "/t/git");
}

#[test]
fn lib_bare_depends_normalized_to_same_source() {
    let index = build_features(&[("core", "/t", one("neovim", "feature.yaml", "spec_version: 1\ndepends:\n  - git\n"))], Platform::Linux).unwrap();
    assert_eq!(feature_depends(&index, "core/neovim"), vec!["core/git".to_string()]);
}

#[test]
fn lib_canonical_depends_preserved() {
    let yaml = "spec_version: 1\ndepends:\n  - community/plugin\n";
    let index = build_features(&[("core", "/t", one("neovim", "feature.yaml", yaml))], Platform::Linux).unwrap();
    assert_eq!(feature_depends(&index, "core/neovim"), vec!["community/plugin".to_string()]);
}

fn mise_feature_with_linux_override() -> Option<SourceTree> {
    Some(vec![("mise".to_string(), vec![
        ("feature.yaml".to_string(), "spec_version: 1\ndescription: Base desc\ndepends:\n  - brew\n".to_string()),
        ("feature.linux.yaml".to_string(), "depends:\n  - apt\n".to_string()),
    ])])
}

#[test]
fn lib_platform_override_replaces_depends() {
    let index = build_features(&[("core", "/t", mise_feature_with_linux_override())], Platform::Linux).unwrap();
    assert_eq!(feature_depends(&index, "core/mise"), vec!["core/apt".to_string()]);
}

#[test]
fn lib_platform_override_not_applied_on_different_platform() {
    let index = build_features(&[("core", "/t", mise_feature_with_linux_override())], Platform::Windows).unwrap();
    assert_eq!(feature_depends(&index, "core/mise"), vec!["core/brew".to_string()]);
}

#[test]
fn lib_platform_override_inherits_base_fields() {
    let index = build_features(&[("core", "/t", mise_feature_with_linux_override())], Platform::Linux).unwrap();
    let meta = index.features.get("core/mise").unwrap();
    assert_eq!(meta.description.as_deref(), Some("Base desc"));
    assert_eq!(meta.dep.depends, vec!["core/apt".to_string()]);
}

#[test]
fn lib_missing_spec_version_is_error() {
    let err = build_features(&[("core", "/t", one("bad", "feature.yaml", "description: no version\n"))], Platform::Linux).unwrap_err();
    assert!(matches!(err, FeatureIndexError::UnsupportedSpecVersion { .. }));
}

#[test]
fn lib_wrong_spec_version_is_error() {
    let err = build_features(&[("core", "/t", one("bad", "feature.yaml", "spec_version: 99\n"))], Platform::Linux).unwrap_err();
    assert!(matches!(err, FeatureIndexError::UnsupportedSpecVersion { .. }));
}

#[test]
fn lib_declarative_with_no_resources_is_error() {
    let err = build_features(&[("core", "/t", one("nodecl", "feature.yaml", "spec_version: 1\nmode: declarative\n"))], Platform::Linux).unwrap_err();
    assert!(matches!(err, FeatureIndexError::DeclarativeMissingResources { .. }));
}

#[test]
fn lib_declarative_with_empty_resources_is_error() {
    let yaml = "spec_version: 1\nmode: declarative\nresources: []\n";
    let err = build_features(&[("core", "/t", one("empty", "feature.yaml", yaml))], Platform::Linux).unwrap_err();
    assert!(matches!(err, FeatureIndexError::DeclarativeMissingResources { .. }));
}

#[test]
fn lib_invalid_multi_slash_depends_is_error() {
    let err = build_features(&[("core", "/t", one("bad", "feature.yaml", "spec_version: 1\ndepends:\n  - a/b/c\n"))], Platform::Linux).unwrap_err();
    assert!(matches!(err, FeatureIndexError::InvalidDependsEntry { .. }));
}

#[test]
fn lib_multiple_sources_merged_into_one_index() {
    let index = build_features(
        &[
            ("core", "/t/core", one("git", "feature.yaml", SIMPLE_SCRIPT)),
            ("local", "/t/local", one("myvim", "feature.yaml", SIMPLE_SCRIPT)),
        ],
        Platform::Linux,
    )
    .unwrap();
    assert!(index.features.contains_key("core/git"));
    assert!(index.features.contains_key("local/myvim"));
}

#[test]
fn lib_capabilities_parsed_correctly() {
    let yaml = "spec_version: 1\nprovides:\n  - name: runtime_manager\n  - name: package_manager\nrequires:\n  - name: shell\n";
    let index = build_features(&[("core", "/t", one("mise", "feature.yaml", yaml))], Platform::Linux).unwrap();
    let dep = &index.features.get("core/mise").unwrap().dep;
    assert_eq!(dep.provides.len(), 2);
    assert_eq!(dep.provides[0].name, "runtime_manager");
    assert_eq!(dep.provides[1].name, "package_manager");
    assert_eq!(dep.requires.len(), 1);
    assert_eq!(dep.requires[0].name, "shell");
}
