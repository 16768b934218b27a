use loadout::component_index::{ComponentMode, SpecResource, SpecResourceKind};
use loadout::component_index_builder::{build_one, merge, normalize_depends, override_file_name, ComponentIndexError, RawComponentYaml, RawScriptSpec};
use loadout::feature_index::FeatureMode;
use loadout::feature_index_builder::{build_feature, feature_override_file_name, FeatureIndexError, RawFeatureYaml};
use loadout::platform::Platform;
use loadout::tool::{ToolIdentityVerify, ToolVerifyContract};

fn raw() -> RawComponentYaml {
    RawComponentYaml {
        spec_version: Some(1),
        mode: None,
        description: None,
        depends: None,
        requires: None,
        provides: None,
        resources: None,
        scripts: None,
    }
}

fn package(id: &str) -> SpecResource {
    SpecResource { id: id.to_string(), kind: SpecResourceKind::Package { name: "git".to_string(), version: None }, for_each: None }
}

fn tool(id: &str) -> SpecResource {
    SpecResource {
        id: id.to_string(),
        kind: SpecResourceKind::Tool {
            name: "t".to_string(),
            verify: ToolVerifyContract { identity: ToolIdentityVerify::Directory { path: "/opt".to_string() }, version: None },
        },
        for_each: None,
    }
}

fn scripts() -> Option<RawScriptSpec> {
    Some(RawScriptSpec { install: Some("install.sh".to_string()), uninstall: Some("uninstall.sh".to_string()) })
}

#[test]
fn script_component_builds_with_normalized_depends() {
    let mut base = raw();
    base.mode = Some("script".to_string());
    base.depends = Some(vec!["git".to_string(), "core/zsh".to_string()]);
    base.requires = Some(vec!["package_manager".to_string()]);
    let meta = build_one("local/dots", "/src/dots", "local", base, None).unwrap();
    assert_eq!(meta.mode, ComponentMode::Script);
    assert_eq!(meta.dep.depends, vec!["local/git".to_string(), "core/zsh".to_string()]);
    assert_eq!(meta.dep.requires[0].name, "package_manager");
    assert_eq!(meta.source_dir, "/src/dots");
    assert!(meta.scripts.is_none());
}

#[test]
fn unsupported_spec_version_is_rejected() {
    let mut base = raw();
    base.spec_version = None;
    let e = build_one("core/x", "/d", "core", base, None).unwrap_err();
    assert_eq!(e.message(), "component 'core/x': unsupported spec_version (found None, expected 1)");
    let mut base = raw();
    base.spec_version = Some(2);
    let e = build_one("core/x", "/d", "core", base, None).unwrap_err();
    assert_eq!(e.message(), "component 'core/x': unsupported spec_version (found Some(2), expected 1)");
}

#[test]
fn platform_override_replaces_fields() {
    let mut base = raw();
    base.description = Some("base".to_string());
    base.depends = Some(vec!["a".to_string()]);
    let mut overlay = raw();
    overlay.spec_version = None;
    overlay.depends = Some(vec!["b".to_string()]);
    let merged = merge(base, overlay);
    assert_eq!(merged.description, Some("base".to_string()));
    assert_eq!(merged.depends, Some(vec!["b".to_string()]));
    assert_eq!(merged.spec_version, Some(1));
    assert_eq!(override_file_name(&Platform::Wsl), "component.wsl.yaml");
    assert_eq!(feature_override_file_name(&Platform::Linux), "feature.linux.yaml");
}

#[test]
fn multi_slash_depends_is_rejected() {
    let r = normalize_depends("core/x", "core", vec!["a/b/c".to_string()]);
    assert_eq!(r, Err(ComponentIndexError::InvalidDependsEntry { component_id: "core/x".to_string(), entry: "a/b/c".to_string() }));
}

#[test]
fn declarative_without_resources_is_rejected_only_when_explicit() {
    let mut base = raw();
    base.mode = Some("declarative".to_string());
    assert_eq!(
        build_one("core/x", "/d", "core", base, None).unwrap_err(),
        ComponentIndexError::DeclarativeMissingResources { component_id: "core/x".to_string() }
    );
    let meta = build_one("core/x", "/d", "core", raw(), None).unwrap();
    assert_eq!(meta.mode, ComponentMode::Declarative);
    assert!(meta.spec.is_none());
}

#[test]
fn managed_script_checks() {
    let mut base = raw();
    base.mode = Some("managed_script".to_string());
    base.resources = Some(vec![tool("tool:t")]);
    let e = build_one("core/m", "/d", "core", base, None).unwrap_err();
    assert_eq!(e.message(), "component 'core/m': mode is managed_script but 'scripts.install' and 'scripts.uninstall' are required");

    let mut base = raw();
    base.mode = Some("managed_script".to_string());
    base.scripts = scripts();
    assert_eq!(
        build_one("core/m", "/d", "core", base, None).unwrap_err(),
        ComponentIndexError::ManagedScriptMissingResources { component_id: "core/m".to_string() }
    );

    let mut base = raw();
    base.mode = Some("managed_script".to_string());
    base.scripts = scripts();
    base.resources = Some(vec![tool("tool:t"), package("package:git")]);
    let e = build_one("core/m", "/d", "core", base, None).unwrap_err();
    assert_eq!(
        e.message(),
        "component 'core/m': mode is managed_script but resource 'package:git' has kind 'package' (only 'tool' is allowed in managed_script components)"
    );

    let mut base = raw();
    base.mode = Some("managed_script".to_string());
    base.scripts = scripts();
    base.resources = Some(vec![tool("tool:t")]);
    let meta = build_one("core/m", "/d", "core", base, None).unwrap();
    assert_eq!(meta.mode, ComponentMode::ManagedScript);
    assert_eq!(meta.scripts.unwrap().install, "install.sh");
}

#[test]
fn feature_builds_and_validates() {
    let base = RawFeatureYaml {
        spec_version: Some(1),
        mode: Some("script".to_string()),
        description: Some("Git".to_string()),
        depends: Some(vec!["zsh".to_string()]),
        requires: None,
        provides: None,
        resources: None,
    };
    let meta = build_feature("core/git", "/f/git", "core", base, None).unwrap();
    assert_eq!(meta.mode, FeatureMode::Script);
    assert_eq!(meta.dep.depends, vec!["core/zsh".to_string()]);
    let bad = RawFeatureYaml {
        spec_version: Some(1),
        mode: Some("declarative".to_string()),
        description: None,
        depends: None,
        requires: None,
        provides: None,
        resources: None,
    };
    let e = build_feature("core/x", "/f/x", "core", bad, None).unwrap_err();
    assert_eq!(e, FeatureIndexError::DeclarativeMissingResources { feature_id: "core/x".to_string() });
    assert_eq!(e.message(), "feature 'core/x': mode is declarative but no resources are declared");
}
