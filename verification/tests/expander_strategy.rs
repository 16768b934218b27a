use loadout::component_index::{FsOp, SpecFsEntryType, SpecResource, SpecResourceKind};
use loadout::for_each_expander::{expand, ExpanderError};
use loadout::params::{MaterializedComponentSpec, ParamValue, ResolvedParams};
use loadout::strategy::{FingerprintPolicy, MatchKind, MatchSelector, StrategyGroup};
use loadout::strmap::StrMap;

fn resolved(pairs: Vec<(&str, ParamValue)>) -> ResolvedParams {
    let mut values = StrMap::new();
    for (k, v) in pairs {
        values.insert(k.to_string(), v);
    }
    ResolvedParams { values }
}

fn array_param(items: &[&str]) -> ParamValue {
    ParamValue::Array(items.iter().map(|s| ParamValue::String(s.to_string())).collect())
}

fn runtime_resource(id: &str, name: &str, version: &str, for_each: Option<&str>) -> SpecResource {
    SpecResource {
        id: id.to_string(),
        kind: SpecResourceKind::Runtime { name: name.to_string(), version: version.to_string() },
        for_each: for_each.map(str::to_string),
    }
}

fn package_resource(id: &str, name: &str, for_each: Option<&str>) -> SpecResource {
    SpecResource {
        id: id.to_string(),
        kind: SpecResourceKind::Package { name: name.to_string(), version: None },
        for_each: for_each.map(str::to_string),
    }
}

#[test]
fn no_for_each_passes_through() {
    let spec = MaterializedComponentSpec { resources: vec![runtime_resource("rt:node", "node", "22.17.1", None)] };
    let params = ResolvedParams::default();
    let expanded = expand("core/node", &spec, &params).unwrap();
    assert_eq!(expanded.resources.len(), 1);
    assert_eq!(expanded.resources[0].id, "rt:node");
    assert!(expanded.resources[0].for_each.is_none());
    assert_eq!(expanded.resources[0], spec.resources[0]);
}

#[test]
fn empty_resources_ok() {
    let spec = MaterializedComponentSpec { resources: vec![] };
    let params = ResolvedParams::default();
    let expanded = expand("core/empty", &spec, &params).unwrap();
    assert!(expanded.resources.is_empty());
}

#[test]
fn expands_runtime_over_array() {
    let spec = MaterializedComponentSpec {
        resources: vec![runtime_resource("rt:node@${item}", "node", "${item}", Some("params.versions"))],
    };
    let params = resolved(vec![("versions", array_param(&["18.20.0", "22.17.1"]))]);
    let expanded = expand("core/node", &spec, &params).unwrap();
    assert_eq!(expanded.resources.len(), 2);
    assert_eq!(expanded.resources[0].id, "rt:node@18.20.0");
    assert_eq!(expanded.resources[1].id, "rt:node@22.17.1");
    match &expanded.resources[0].kind {
        SpecResourceKind::Runtime { version, .. } => assert_eq!(version, "18.20.0"),
        _ => panic!("expected Runtime"),
    }
    match &expanded.resources[1].kind {
        SpecResourceKind::Runtime { version, .. } => assert_eq!(version, "22.17.1"),
        _ => panic!("expected Runtime"),
    }
}

#[test]
fn single_element_array_yields_one_resource() {
    let spec = MaterializedComponentSpec {
        resources: vec![runtime_resource("rt:node@${item}", "node", "${item}", Some("params.versions"))],
    };
    let params = resolved(vec![("versions", array_param(&["20.0.0"]))]);
    let expanded = expand("core/node", &spec, &params).unwrap();
    assert_eq!(expanded.resources.len(), 1);
    assert_eq!(expanded.resources[0].id, "rt:node@20.0.0");
}

#[test]
fn empty_array_yields_zero_resources() {
    let spec = MaterializedComponentSpec {
        resources: vec![runtime_resource("rt:node@${item}", "node", "${item}", Some("params.versions"))],
    };
    let params = resolved(vec![("versions", ParamValue::Array(vec![]))]);
    let expanded = expand("core/node", &spec, &params).unwrap();
    assert!(expanded.resources.is_empty());
}

#[test]
fn mixed_for_each_and_plain_resources() {
    let spec = MaterializedComponentSpec {
        resources: vec![
            package_resource("pkg:git", "git", None),
            runtime_resource("rt:node@${item}", "node", "${item}", Some("params.versions")),
        ],
    };
    let params = resolved(vec![("versions", array_param(&["18.0", "22.0"]))]);
    let expanded = expand("core/mixed", &spec, &params).unwrap();
    assert_eq!(expanded.resources.len(), 3);
    assert_eq!(expanded.resources[0].id, "pkg:git");
    assert_eq!(expanded.resources[1].id, "rt:node@18.0");
    assert_eq!(expanded.resources[2].id, "rt:node@22.0");
}

#[test]
fn for_each_consumes_field_in_output() {
    let spec = MaterializedComponentSpec {
        resources: vec![runtime_resource("rt:node@${item}", "node", "${item}", Some("params.versions"))],
    };
    let params = resolved(vec![("versions", array_param(&["20.0"]))]);
    let expanded = expand("core/node", &spec, &params).unwrap();
    assert!(expanded.resources[0].for_each.is_none());
}

#[test]
fn for_each_path_without_params_prefix_names_key_directly() {
    let spec = MaterializedComponentSpec {
        resources: vec![runtime_resource("rt:node@${item}", "node", "${item}", Some("versions"))],
    };
    let params = resolved(vec![("versions", array_param(&["1", "2"]))]);
    let expanded = expand("core/node", &spec, &params).unwrap();
    assert_eq!(expanded.resources.len(), 2);
}

#[test]
fn item_not_in_id_error() {
    let spec = MaterializedComponentSpec {
        resources: vec![runtime_resource("rt:node", "node", "${item}", Some("params.versions"))],
    };
    let params = resolved(vec![("versions", array_param(&["20.0"]))]);
    let err = expand("core/node", &spec, &params).unwrap_err();
    assert!(matches!(err, ExpanderError::ItemNotInId { .. }));
    assert_eq!(
        err.message(),
        "component 'core/node': resource 'rt:node': for_each resource id must contain '${item}'"
    );
}

#[test]
fn unknown_param_key_error() {
    let spec = MaterializedComponentSpec {
        resources: vec![runtime_resource("rt:node@${item}", "node", "${item}", Some("params.typo"))],
    };
    let params = resolved(vec![("versions", array_param(&["20.0"]))]);
    let err = expand("core/node", &spec, &params).unwrap_err();
    assert!(matches!(err, ExpanderError::UnknownParam { ref key, .. } if key == "typo"));
}

#[test]
fn not_an_array_error() {
    let spec = MaterializedComponentSpec {
        resources: vec![runtime_resource("rt:node@${item}", "node", "${item}", Some("params.versions"))],
    };
    let params = resolved(vec![("versions", ParamValue::String("not-an-array".into()))]);
    let err = expand("core/node", &spec, &params).unwrap_err();
    assert!(matches!(err, ExpanderError::NotAnArray { .. }));
}

#[test]
fn non_string_item_error() {
    let spec = MaterializedComponentSpec {
        resources: vec![runtime_resource("rt:node@${item}", "node", "${item}", Some("params.versions"))],
    };
    let params = resolved(vec![(
        "versions",
        ParamValue::Array(vec![ParamValue::String("20.0".into()), ParamValue::Array(vec![])]),
    )]);
    let err = expand("core/node", &spec, &params).unwrap_err();
    assert!(matches!(err, ExpanderError::NonStringItem { index: 1, .. }), "expected NonStringItem at index 1");
    assert_eq!(
        err.message(),
        "component 'core/node': resource 'rt:node@${item}': for_each param 'versions' element [1] must be a string"
    );
}

#[test]
fn duplicate_id_error() {
    let spec = MaterializedComponentSpec {
        resources: vec![
            runtime_resource("rt:node@${item}", "node", "${item}", Some("params.v1")),
            runtime_resource("rt:node@${item}", "node", "${item}", Some("params.v2")),
        ],
    };
    let params = resolved(vec![("v1", array_param(&["20.0"])), ("v2", array_param(&["20.0"]))]);
    let err = expand("core/node", &spec, &params).unwrap_err();
    assert!(matches!(err, ExpanderError::DuplicateId { .. }));
    assert_eq!(err.message(), "component 'core/node': for_each expansion produced duplicate resource id 'rt:node@20.0'");
}

#[test]
fn fs_resource_item_replaced_in_path() {
    let spec = MaterializedComponentSpec {
        resources: vec![SpecResource {
            id: "fs:config-${item}".to_string(),
            kind: SpecResourceKind::Fs {
                source: None,
                path: "~/.config/${item}/rc".to_string(),
                entry_type: SpecFsEntryType::File,
                op: FsOp::Link,
            },
            for_each: Some("params.tools".to_string()),
        }],
    };
    let params = resolved(vec![("tools", array_param(&["bash", "zsh"]))]);
    let expanded = expand("core/shells", &spec, &params).unwrap();
    assert_eq!(expanded.resources.len(), 2);
    match &expanded.resources[0].kind {
        SpecResourceKind::Fs { path, .. } => assert_eq!(path, "~/.config/bash/rc"),
        _ => panic!("expected Fs"),
    }
    match &expanded.resources[1].kind {
        SpecResourceKind::Fs { path, .. } => assert_eq!(path, "~/.config/zsh/rc"),
        _ => panic!("expected Fs"),
    }
}

// --- strategy ---

#[test]
fn group_names_for_kind_returns_slice() {
    let mut inner = StrMap::new();
    inner.insert("package".to_string(), vec!["eslint".to_string(), "prettier".to_string()]);
    let group = StrategyGroup(inner);
    assert_eq!(
        group.names_for_kind("package").map(|v| v.as_slice()),
        Some(["eslint".to_string(), "prettier".to_string()].as_slice())
    );
    assert_eq!(group.names_for_kind("runtime"), None);
}

#[test]
fn match_kind_as_str() {
    assert_eq!(MatchKind::Package.as_str(), "package");
    assert_eq!(MatchKind::Runtime.as_str(), "runtime");
}

#[test]
fn specificity_all_none_is_zero() {
    let s = MatchSelector::default();
    assert_eq!(s.specificity(), (0, 0, 0, 0));
}

#[test]
fn specificity_kind_only() {
    let s = MatchSelector { kind: Some(MatchKind::Package), ..Default::default() };
    assert_eq!(s.specificity(), (0, 1, 0, 0));
}

#[test]
fn specificity_component_dominates_name() {
    let with_component = MatchSelector {
        component: Some("core/cli-tools".to_string()),
        kind: Some(MatchKind::Package),
        ..Default::default()
    };
    let with_name = MatchSelector { kind: Some(MatchKind::Package), name: Some("git".to_string()), ..Default::default() };
    assert!(with_component.specificity() > with_name.specificity());
}

#[test]
fn specificity_full_selector() {
    let s = MatchSelector {
        component: Some("core/cli-tools".to_string()),
        kind: Some(MatchKind::Package),
        name: Some("eslint".to_string()),
        group: Some("npm_global".to_string()),
    };
    assert_eq!(s.specificity(), (1, 1, 1, 1));
}

#[test]
fn matches_empty_selector_matches_everything() {
    let s = MatchSelector::default();
    assert!(s.matches(&MatchKind::Package, "git", "core/cli-tools", false));
    assert!(s.matches(&MatchKind::Runtime, "node", "core/node", true));
}

#[test]
fn matches_kind_filters_correctly() {
    let s = MatchSelector { kind: Some(MatchKind::Package), ..Default::default() };
    assert!(s.matches(&MatchKind::Package, "git", "core/git", false));
    assert!(!s.matches(&MatchKind::Runtime, "node", "core/node", false));
}

#[test]
fn matches_name_filters_correctly() {
    let s = MatchSelector { name: Some("git".to_string()), ..Default::default() };
    assert!(s.matches(&MatchKind::Package, "git", "core/git", false));
    assert!(!s.matches(&MatchKind::Package, "ripgrep", "core/rg", false));
}

#[test]
fn matches_component_filters_correctly() {
    let s = MatchSelector {
        component: Some("core/cli-tools".to_string()),
        kind: Some(MatchKind::Package),
        ..Default::default()
    };
    assert!(s.matches(&MatchKind::Package, "eslint", "core/cli-tools", false));
    assert!(!s.matches(&MatchKind::Package, "eslint", "core/other", false));
}

#[test]
fn matches_group_requires_member() {
    let s = MatchSelector {
        kind: Some(MatchKind::Package),
        group: Some("npm_global".to_string()),
        ..Default::default()
    };
    assert!(s.matches(&MatchKind::Package, "eslint", "core/node", true));
    assert!(!s.matches(&MatchKind::Package, "eslint", "core/node", false));
}

#[test]
fn fingerprint_policy_default_is_all_copy() {
    assert_eq!(FingerprintPolicy::default(), FingerprintPolicy::AllCopy);
}
