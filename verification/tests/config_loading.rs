//! Config, profile, strategy and sources loading on YAML inputs: the YAML is
//! parsed here and handed to the library's loading steps; config files live
//! in an in-memory directory so that imports can be followed.
use std::collections::HashMap;

use loadout::config::{
    enter_import, expand_bundles, import_target, merge_into_acc, profile_from_grouped, require_profile,
    strategy_or_default, validate_and_resolve_sources, validate_strategy, ConfigError, ImportKind, MergedConfig,
    RawBundle, RawBundleRef, RawComponentConfig, RawConfig, RawImportEntry, RawParamValue, RawProfile,
    IMPORT_DEPTH_LIMIT,
};
use loadout::params::ParamValue;
use loadout::profile::Profile;
use loadout::sources::{AllowSpec, DetailedAllow, SourceEntry, SourceRef, SourceType, SourcesSpec, WildcardAll};
use loadout::strategy::{MatchKind, MatchSelector, Strategy, StrategyGroup, StrategyRule};
use loadout::strmap::StrMap;
use serde_yaml::Value;

// ── Reading YAML values ─────────────────────────────────────────────────────

fn parse(yaml: &str) -> Value {
    serde_yaml::from_str(yaml).unwrap()
}

fn field<'a>(v: &'a Value, key: &str) -> Option<&'a Value> {
    v.as_mapping().and_then(|m| m.get(Value::String(key.to_string()))).filter(|x| !x.is_null())
}

fn text(v: Option<&Value>) -> Option<String> {
    v.and_then(|x| x.as_str()).map(str::to_string)
}

fn entries(v: Option<&Value>) -> Vec<(String, Value)> {
    match v.and_then(|x| x.as_mapping()) {
        Some(m) => m.iter().map(|(k, x)| (k.as_str().unwrap().to_string(), x.clone())).collect(),
        None => Vec::new(),
    }
}

fn raw_param(v: &Value) -> RawParamValue {
    match v {
        Value::String(s) => RawParamValue::Text(s.clone()),
        Value::Number(n) => RawParamValue::Number(n.to_string()),
        Value::Mapping(m) => {
            let get = |k: &str| m.get(Value::String(k.to_string())).map(|x| x.as_str().map(str::to_string));
            RawParamValue::Mapping { kind: get("kind"), path: get("path") }
        }
        _ => RawParamValue::Other,
    }
}

fn grouped(v: Option<&Value>) -> StrMap<StrMap<RawComponentConfig>> {
    let mut g = StrMap::new();
    for (source, names) in entries(v) {
        let mut inner = StrMap::new();
        for (name, c) in entries(Some(&names)) {
            let params = field(&c, "params").map(|p| {
                let mut m = StrMap::new();
                for (k, x) in entries(Some(p)) {
                    m.insert(k, raw_param(&x));
                }
                m
            });
            inner.insert(name, RawComponentConfig { params });
        }
        g.insert(source, inner);
    }
    g
}

fn match_kind(v: Option<&Value>) -> Option<MatchKind> {
    match v.and_then(|x| x.as_str()) {
        Some("package") => Some(MatchKind::Package),
        Some("runtime") => Some(MatchKind::Runtime),
        _ => None,
    }
}

fn strategy(v: &Value) -> Strategy {
    let mut groups = StrMap::new();
    for (name, kinds) in entries(field(v, "groups")) {
        let mut inner = StrMap::new();
        for (kind, names) in entries(Some(&kinds)) {
            let list: Vec<String> =
                names.as_sequence().unwrap().iter().map(|n| n.as_str().unwrap().to_string()).collect();
            inner.insert(kind, list);
        }
        groups.insert(name, StrategyGroup(inner));
    }
    let rules = match field(v, "rules").and_then(|r| r.as_sequence()) {
        Some(rs) => rs
            .iter()
            .map(|r| {
                let m = field(r, "match").unwrap();
                StrategyRule {
                    selector: MatchSelector {
                        kind: match_kind(field(m, "kind")),
                        name: text(field(m, "name")),
                        component: text(field(m, "component")),
                        group: text(field(m, "group")),
                    },
                    use_backend: text(field(r, "use")).unwrap(),
                }
            })
            .collect(),
        None => Vec::new(),
    };
    Strategy { strategy: text(field(v, "strategy")), groups, rules, fs: None }
}

fn sources(v: &Value) -> SourcesSpec {
    let list = match field(v, "sources").and_then(|s| s.as_sequence()) {
        Some(l) => l.clone(),
        None => Vec::new(),
    };
    SourcesSpec {
        sources: list
            .iter()
            .map(|e| SourceEntry {
                id: text(field(e, "id")).unwrap(),
                source_type: match text(field(e, "type")).as_deref() {
                    Some("path") => SourceType::Path,
                    _ => SourceType::Git,
                },
                url: text(field(e, "url")),
                source_ref: field(e, "ref").map(|r| SourceRef {
                    branch: text(field(r, "branch")),
                    tag: text(field(r, "tag")),
                    commit: text(field(r, "commit")),
                }),
                path: text(field(e, "path")),
                allow: field(e, "allow").map(|a| match a.as_str() {
                    Some(s) => AllowSpec::All(WildcardAll::try_from_str(s).unwrap()),
                    None => AllowSpec::Detailed(DetailedAllow { features: None, backends: None }),
                }),
            })
            .collect(),
    }
}

fn raw_config(v: &Value) -> RawConfig {
    let imports = match field(v, "imports").and_then(|i| i.as_sequence()) {
        Some(list) => list
            .iter()
            .map(|e| match e.as_str() {
                Some(p) => RawImportEntry::Shorthand(p.to_string()),
                None => RawImportEntry::Explicit {
                    path: text(field(e, "path")).unwrap(),
                    kind: if text(field(e, "kind")).as_deref() == Some("home") {
                        ImportKind::Home
                    } else {
                        ImportKind::Relative
                    },
                },
            })
            .collect(),
        None => Vec::new(),
    };
    let mut bundles = StrMap::new();
    for (name, b) in entries(field(v, "bundles")) {
        bundles.insert(name, RawBundle { components: grouped(field(&b, "components")) });
    }
    let use_list = match field(v, "bundle").and_then(|b| field(b, "use")).and_then(|u| u.as_sequence()) {
        Some(l) => l.iter().map(|n| n.as_str().unwrap().to_string()).collect(),
        None => Vec::new(),
    };
    RawConfig {
        imports,
        profile: field(v, "profile").map(|p| RawProfile { components: grouped(field(p, "components")) }),
        strategy: field(v, "strategy").map(strategy),
        bundle: RawBundleRef { use_list },
        bundles,
    }
}

// ── Loading ─────────────────────────────────────────────────────────────────

fn load_profile(yaml: &str) -> Result<Profile, ConfigError> {
    profile_from_grouped(grouped(field(&parse(yaml), "components")))
}

fn load_strategy(yaml: &str) -> Result<Strategy, ConfigError> {
    validate_strategy(strategy(&parse(yaml)))
}

fn load_sources(yaml: &str) -> Result<SourcesSpec, ConfigError> {
    validate_and_resolve_sources(sources(&parse(yaml)), "/work/cfg", Some("/home/u"))
}

/// An in-memory directory of config files.
struct Disk(HashMap<String, String>);

impl Disk {
    fn new(files: &[(&str, &str)]) -> Self {
        Disk(files.iter().map(|(p, c)| (p.to_string(), c.to_string())).collect())
    }
}

fn parent(path: &str) -> String {
    match path.rfind('/') {
        Some(0) => "/".to_string(),
        Some(i) => path[..i].to_string(),
        None => ".".to_string(),
    }
}

fn expand_imports(
    disk: &Disk,
    path: &str,
    home: &str,
    from: &str,
    depth: usize,
    stack: &mut Vec<String>,
) -> Result<RawConfig, ConfigError> {
    enter_import(path, from, depth, disk.0.contains_key(path), path, stack)?;
    stack.push(path.to_string());
    let result = expand_imports_inner(disk, path, home, depth, stack);
    stack.pop();
    result
}

fn expand_imports_inner(
    disk: &Disk,
    path: &str,
    home: &str,
    depth: usize,
    stack: &mut Vec<String>,
) -> Result<RawConfig, ConfigError> {
    let mut raw = raw_config(&parse(&disk.0[path]));
    let mut acc = MergedConfig::default();
    let imports = std::mem::take(&mut raw.imports);
    for entry in &imports {
        let target = import_target(entry, &parent(path), home)?;
        let imported = expand_imports(disk, &target, home, path, depth + 1, stack)?;
        merge_into_acc(&mut acc, imported);
    }
    merge_into_acc(&mut acc, raw);
    Ok(acc.into_raw_config())
}

fn load_config_from(disk: &Disk, path: &str) -> Result<(Profile, Strategy), ConfigError> {
    let mut stack = Vec::new();
    let raw = expand_imports(disk, path, "/home/u", "<root>", 0, &mut stack)?;
    let RawConfig { imports: _, profile, strategy, bundle, bundles } = raw;
    let p = require_profile(profile)?;
    let merged = expand_bundles(&bundle, &bundles, p.components)?;
    let profile = profile_from_grouped(merged)?;
    let strategy = strategy_or_default(strategy)?;
    Ok((profile, strategy))
}

fn load_config(yaml: &str) -> Result<(Profile, Strategy), ConfigError> {
    load_config_from(&Disk::new(&[("/work/config.yaml", yaml)]), "/work/config.yaml")
}

fn string_param(profile: &Profile, id: &str, key: &str) -> String {
    match profile.components.get(id).unwrap().params.as_ref().unwrap().get(key).unwrap() {
        ParamValue::String(s) => s.clone(),
        other => panic!("unexpected param {other:?}"),
    }
}

fn strategy_reason(e: ConfigError) -> String {
    match e {
        ConfigError::InvalidStrategy { reason } => reason,
        other => panic!("unexpected error {other:?}"),
    }
}

// ── Profile (grouping) ──────────────────────────────────────────────────────

#[test]
fn grouped_components_normalized_to_canonical() {
    let profile = load_profile("components:\n  core:\n    git: {}\n  local:\n    nvim: {}\n").unwrap();
    assert!(profile.components.contains_key("core/git"), "core/git must be present");
    assert!(profile.components.contains_key("local/nvim"), "local/nvim must be present");
    assert_eq!(profile.components.len(), 2);
}

#[test]
fn profile_empty_components_ok() {
    let profile = load_profile("components: {}\n").unwrap();
    assert_eq!(profile.components.len(), 0);
}

#[test]
fn profile_params_forwarded_through_grouping() {
    let profile =
        load_profile("components:\n  local:\n    node:\n      params:\n        version: \"20\"\n").unwrap();
    assert_eq!(string_param(&profile, "local/node", "version"), "20");
}

#[test]
fn profile_empty_source_id_rejected() {
    let err = load_profile("components:\n  \"\":\n    git: {}\n").unwrap_err();
    assert!(matches!(err, ConfigError::InvalidProfile { .. }));
}

#[test]
fn profile_empty_component_name_rejected() {
    let err = load_profile("components:\n  core:\n    \"\": {}\n").unwrap_err();
    assert!(matches!(err, ConfigError::InvalidProfile { .. }));
}

#[test]
fn profile_duplicate_canonical_rejected() {
    let profile = load_profile("components:\n  core:\n    git: {}\n    bash: {}\n").unwrap();
    assert!(profile.components.contains_key("core/git"));
    assert!(profile.components.contains_key("core/bash"));
}

#[test]
fn profile_bare_name_at_top_level_rejected() {
    let profile = load_profile("components:\n  git: {}\n").unwrap();
    assert!(!profile.components.contains_key("git"), "bare 'git' must not appear as canonical");
    assert!(!profile.components.contains_key("core/git"), "must not auto-prefix to core/git");
    assert_eq!(profile.components.len(), 0, "source 'git' has no declared components");
}

// ── Strategy ────────────────────────────────────────────────────────────────

#[test]
fn strategy_empty_is_valid() {
    let strategy = load_strategy("{}\n").unwrap();
    assert!(strategy.rules.is_empty());
    assert_eq!(strategy.groups.len(), 0);
}

#[test]
fn strategy_simple_rule_loads() {
    let strategy = load_strategy("rules:\n  - match:\n      kind: package\n    use: core/brew\n").unwrap();
    assert_eq!(strategy.rules.len(), 1);
    assert_eq!(strategy.rules[0].use_backend, "core/brew");
}

#[test]
fn strategy_empty_use_rejected() {
    let err = load_strategy("rules:\n  - match:\n      kind: package\n    use: \"\"\n").unwrap_err();
    assert!(strategy_reason(err).contains("rules[0].use"));
}

#[test]
fn strategy_component_without_kind_rejected() {
    let err = load_strategy("rules:\n  - match:\n      component: core/cli-tools\n    use: core/npm\n").unwrap_err();
    assert!(strategy_reason(err).contains("component-only"));
}

#[test]
fn strategy_component_with_kind_is_valid() {
    let yaml = "rules:\n  - match:\n      component: core/cli-tools\n      kind: package\n    use: core/npm\n";
    let strategy = load_strategy(yaml).unwrap();
    assert_eq!(strategy.rules.len(), 1);
}

#[test]
fn strategy_group_without_kind_rejected() {
    let yaml = "groups:\n  npm_global:\n    package:\n      - eslint\nrules:\n  - match:\n      group: npm_global\n    use: core/npm\n";
    let err = load_strategy(yaml).unwrap_err();
    assert!(strategy_reason(err).contains("'group' requires 'kind'"));
}

#[test]
fn strategy_undefined_group_rejected() {
    let yaml = "rules:\n  - match:\n      kind: package\n      group: npm_global\n    use: core/npm\n";
    let err = load_strategy(yaml).unwrap_err();
    assert!(strategy_reason(err).contains("npm_global"));
}

#[test]
fn strategy_group_and_rule_consistent_kind_is_valid() {
    let yaml = "groups:\n  npm_global:\n    package:\n      - eslint\nrules:\n  - match:\n      kind: package\n      group: npm_global\n    use: core/npm\n";
    let strategy = load_strategy(yaml).unwrap();
    assert_eq!(strategy.rules.len(), 1);
}

#[test]
fn strategy_runtime_rule_referencing_package_group_rejected() {
    let yaml = "groups:\n  my_group:\n    package:\n      - eslint\nrules:\n  - match:\n      kind: runtime\n      group: my_group\n    use: core/mise\n";
    let err = load_strategy(yaml).unwrap_err();
    assert!(strategy_reason(err).contains("runtime"));
}

#[test]
fn strategy_group_invalid_kind_key_rejected() {
    let err = load_strategy("groups:\n  my_group:\n    tool:\n      - something\n").unwrap_err();
    assert!(strategy_reason(err).contains("tool"));
}

// ── Sources ─────────────────────────────────────────────────────────────────

#[test]
fn sources_valid_external_source() {
    let spec = load_sources("sources:\n  - id: community\n    type: git\n    url: https://github.com/ex/repo\n").unwrap();
    assert_eq!(spec.sources[0].id, "community");
}

#[test]
fn sources_reserved_id_rejected() {
    for reserved in &["core", "local", "official"] {
        let yaml = format!("sources:\n  - id: {reserved}\n    type: git\n    url: https://x.com\n");
        let err = load_sources(&yaml).unwrap_err();
        assert!(matches!(err, ConfigError::InvalidSources { .. }), "expected error for reserved id '{reserved}'");
    }
}

#[test]
fn sources_duplicate_id_rejected() {
    let yaml = "sources:\n  - id: tools\n    type: git\n    url: https://a.com\n  - id: tools\n    type: git\n    url: https://b.com\n";
    assert!(matches!(load_sources(yaml).unwrap_err(), ConfigError::InvalidSources { .. }));
}

#[test]
fn sources_empty_url_rejected() {
    let yaml = "sources:\n  - id: tools\n    type: git\n    url: \"\"\n";
    assert!(matches!(load_sources(yaml).unwrap_err(), ConfigError::InvalidSources { .. }));
}

#[test]
fn sources_empty_list_ok() {
    let spec = load_sources("{}\n").unwrap();
    assert!(spec.sources.is_empty());
}

#[test]
fn sources_allow_wildcard_ok() {
    let spec = load_sources("sources:\n  - id: ext\n    type: git\n    url: https://x.com\n    allow: \"*\"\n").unwrap();
    assert!(matches!(spec.sources[0].allow, Some(AllowSpec::All(_))));
}

#[test]
fn sources_type_git_with_ref_ok() {
    let yaml = "sources:\n  - id: ext\n    type: git\n    url: https://x.com\n    ref:\n      branch: main\n";
    let spec = load_sources(yaml).unwrap();
    let r = spec.sources[0].source_ref.as_ref().unwrap();
    assert_eq!(r.branch.as_deref(), Some("main"));
    assert!(r.tag.is_none());
    assert!(r.commit.is_none());
}

#[test]
fn sources_type_git_ref_multiple_fields_rejected() {
    let yaml = "sources:\n  - id: ext\n    type: git\n    url: https://x.com\n    ref:\n      branch: main\n      tag: v1\n";
    assert!(matches!(load_sources(yaml).unwrap_err(), ConfigError::InvalidSources { .. }));
}

#[test]
fn sources_type_git_dotdot_subpath_rejected() {
    let yaml = "sources:\n  - id: ext\n    type: git\n    url: https://x.com\n    path: ../sibling\n";
    assert!(matches!(load_sources(yaml).unwrap_err(), ConfigError::InvalidSources { .. }));
}

#[test]
fn sources_type_git_absolute_subpath_rejected() {
    let yaml = "sources:\n  - id: ext\n    type: git\n    url: https://x.com\n    path: /absolute\n";
    assert!(matches!(load_sources(yaml).unwrap_err(), ConfigError::InvalidSources { .. }));
}

#[test]
fn sources_type_path_valid() {
    let spec = load_sources("sources:\n  - id: mylab\n    type: path\n    path: /srv/mylab\n").unwrap();
    assert_eq!(spec.sources[0].source_type, SourceType::Path);
    assert!(spec.sources[0].path.as_deref().unwrap().starts_with('/'));
}

#[test]
fn sources_type_path_no_path_rejected() {
    let yaml = "sources:\n  - id: mylab\n    type: path\n";
    assert!(matches!(load_sources(yaml).unwrap_err(), ConfigError::InvalidSources { .. }));
}

#[test]
fn sources_type_path_with_url_rejected() {
    let yaml = "sources:\n  - id: mylab\n    type: path\n    path: /srv/mylab\n    url: https://x.com\n";
    assert!(matches!(load_sources(yaml).unwrap_err(), ConfigError::InvalidSources { .. }));
}

#[test]
fn sources_type_path_relative_resolved_against_sources_dir() {
    let spec = load_sources("sources:\n  - id: mylab\n    type: path\n    path: ./subdir\n").unwrap();
    assert_eq!(spec.sources[0].path.as_deref().unwrap(), "/work/cfg/subdir");
}

// ── Config files ────────────────────────────────────────────────────────────

#[test]
fn config_profile_and_strategy_parsed() {
    let yaml = "profile:\n  components:\n    core:\n      git: {}\n    local:\n      myapp: {}\n\nstrategy:\n  rules:\n    - match:\n        kind: package\n      use: local/brew\n";
    let (profile, strategy) = load_config(yaml).unwrap();
    assert!(profile.components.contains_key("core/git"), "core/git must be present");
    assert!(profile.components.contains_key("local/myapp"), "local/myapp must be present");
    assert_eq!(strategy.rules.len(), 1);
    assert_eq!(strategy.rules[0].use_backend, "local/brew");
}

#[test]
fn config_strategy_optional_defaults_to_empty() {
    let (profile, strategy) = load_config("profile:\n  components:\n    core:\n      git: {}\n").unwrap();
    assert!(profile.components.contains_key("core/git"));
    assert!(strategy.rules.is_empty());
    assert_eq!(strategy.groups.len(), 0);
}

#[test]
fn config_empty_profile_components_ok() {
    let (profile, _) = load_config("profile:\n  components: {}\n").unwrap();
    assert_eq!(profile.components.len(), 0);
}

#[test]
fn config_extra_unknown_keys_ignored() {
    let yaml = "profile:\n  components:\n    core:\n      git: {}\nfuture_section:\n  some_key: value\nanother_unknown: 42\n";
    assert!(load_config(yaml).is_ok());
}

#[test]
fn config_missing_profile_section_errors() {
    let yaml = "strategy:\n  rules:\n    - match:\n        kind: package\n      use: local/brew\n";
    assert!(matches!(load_config(yaml).unwrap_err(), ConfigError::InvalidProfile { .. }));
}

#[test]
fn config_invalid_strategy_propagates_error() {
    let yaml = "profile:\n  components:\n    core:\n      git: {}\nstrategy:\n  rules:\n    - match:\n        component: core/cli-tools\n      use: core/npm\n";
    assert!(matches!(load_config(yaml).unwrap_err(), ConfigError::InvalidStrategy { .. }));
}

#[test]
fn config_params_config_forwarded() {
    let yaml = "profile:\n  components:\n    local:\n      node:\n        params:\n          version: \"20\"\n";
    let (profile, _) = load_config(yaml).unwrap();
    assert_eq!(string_param(&profile, "local/node", "version"), "20");
}

// ── Bundles ─────────────────────────────────────────────────────────────────

#[test]
fn bundle_components_merged_into_profile() {
    let yaml = "bundle:\n  use:\n    - base\n\nbundles:\n  base:\n    components:\n      core:\n        git: {}\n\nprofile:\n  components:\n    local:\n      nvim: {}\n";
    let (profile, _) = load_config(yaml).unwrap();
    assert!(profile.components.contains_key("core/git"), "bundle component must be merged");
    assert!(profile.components.contains_key("local/nvim"), "profile component must be present");
    assert_eq!(profile.components.len(), 2);
}

#[test]
fn bundle_use_order_last_wins() {
    let yaml = "bundle:\n  use:\n    - base\n    - lang\n\nbundles:\n  base:\n    components:\n      core:\n        git:\n          params:\n            version: \"1.0\"\n  lang:\n    components:\n      core:\n        git:\n          params:\n            version: \"2.0\"\n\nprofile:\n  components: {}\n";
    let (profile, _) = load_config(yaml).unwrap();
    assert_eq!(string_param(&profile, "core/git", "version"), "2.0", "last bundle in use list must win");
}

#[test]
fn bundle_profile_components_override_bundle() {
    let yaml = "bundle:\n  use:\n    - base\n\nbundles:\n  base:\n    components:\n      core:\n        git:\n          params:\n            version: \"1.0\"\n\nprofile:\n  components:\n    core:\n      git:\n        params:\n          version: \"override\"\n";
    let (profile, _) = load_config(yaml).unwrap();
    assert_eq!(string_param(&profile, "core/git", "version"), "override", "profile.components must override bundle");
}

#[test]
fn bundle_undefined_reference_rejected() {
    let yaml = "bundle:\n  use:\n    - nonexistent\n\nprofile:\n  components: {}\n";
    assert!(matches!(load_config(yaml).unwrap_err(), ConfigError::InvalidProfile { .. }));
}

#[test]
fn bundle_section_absent_ok() {
    let (profile, _) = load_config("profile:\n  components:\n    core:\n      git: {}\n").unwrap();
    assert!(profile.components.contains_key("core/git"));
    assert_eq!(profile.components.len(), 1);
}

#[test]
fn bundle_params_only_no_profile_params() {
    let yaml = "bundle:\n  use:\n    - base\n\nbundles:\n  base:\n    components:\n      core:\n        git:\n          params:\n            version: \"2.40\"\n\nprofile:\n  components:\n    core:\n      git: {}\n";
    let (profile, _) = load_config(yaml).unwrap();
    assert_eq!(string_param(&profile, "core/git", "version"), "2.40");
}

#[test]
fn bundle_params_shallow_merge_preserves_unspecified_keys() {
    let yaml = "bundle:\n  use:\n    - base\n\nbundles:\n  base:\n    components:\n      core:\n        git:\n          params:\n            a: \"1\"\n            b: \"2\"\n\nprofile:\n  components:\n    core:\n      git:\n        params:\n          b: \"override\"\n";
    let (profile, _) = load_config(yaml).unwrap();
    assert_eq!(string_param(&profile, "core/git", "a"), "1", "key only in bundle must be preserved");
    assert_eq!(string_param(&profile, "core/git", "b"), "override", "profile key must override bundle");
}

#[test]
fn bundle_inter_bundle_params_shallow_merge() {
    let yaml = "bundle:\n  use:\n    - base\n    - lang\n\nbundles:\n  base:\n    components:\n      core:\n        git:\n          params:\n            a: \"1\"\n            b: \"2\"\n  lang:\n    components:\n      core:\n        git:\n          params:\n            b: \"3\"\n            c: \"4\"\n\nprofile:\n  components: {}\n";
    let (profile, _) = load_config(yaml).unwrap();
    assert_eq!(string_param(&profile, "core/git", "a"), "1");
    assert_eq!(string_param(&profile, "core/git", "b"), "3", "later bundle must win");
    assert_eq!(string_param(&profile, "core/git", "c"), "4");
}

#[test]
fn empty_params_does_not_clear_bundle_params() {
    let yaml = "bundle:\n  use:\n    - base\n\nbundles:\n  base:\n    components:\n      core:\n        git:\n          params:\n            version: \"2.40\"\n\nprofile:\n  components:\n    core:\n      git:\n        params: {}\n";
    let (profile, _) = load_config(yaml).unwrap();
    assert_eq!(string_param(&profile, "core/git", "version"), "2.40");
}

// ── Imports ─────────────────────────────────────────────────────────────────

#[test]
fn import_single_file_bundles_available() {
    let disk = Disk::new(&[
        ("/work/base.yaml", "bundles:\n  base:\n    components:\n      core:\n        git: {}\n"),
        ("/work/config.yaml", "imports:\n  - base.yaml\n\nbundle:\n  use:\n    - base\n\nprofile:\n  components:\n    local:\n      nvim: {}\n"),
    ]);
    let (profile, _) = load_config_from(&disk, "/work/config.yaml").unwrap();
    assert!(profile.components.contains_key("core/git"), "imported bundle must be applied");
    assert!(profile.components.contains_key("local/nvim"), "main profile must be present");
}

#[test]
fn import_multiple_files_last_wins() {
    let disk = Disk::new(&[
        ("/work/a.yaml", "bundles:\n  base:\n    components:\n      core:\n        git: {}\n"),
        ("/work/b.yaml", "bundles:\n  base:\n    components:\n      core:\n        bash: {}\n"),
        ("/work/config.yaml", "imports:\n  - a.yaml\n  - b.yaml\n\nbundle:\n  use:\n    - base\n\nprofile:\n  components: {}\n"),
    ]);
    let (profile, _) = load_config_from(&disk, "/work/config.yaml").unwrap();
    assert!(profile.components.contains_key("core/bash"), "later import must win");
    assert!(!profile.components.contains_key("core/git"), "earlier bundle must be replaced");
}

#[test]
fn import_main_overrides_imported_profile() {
    let disk = Disk::new(&[
        ("/work/imported.yaml", "profile:\n  components:\n    core:\n      git:\n        params:\n          version: \"2.40\"\n"),
        ("/work/config.yaml", "imports:\n  - imported.yaml\n\nprofile:\n  components:\n    core:\n      git:\n        params:\n          version: \"2.44\"\n"),
    ]);
    let (profile, _) = load_config_from(&disk, "/work/config.yaml").unwrap();
    assert_eq!(string_param(&profile, "core/git", "version"), "2.44", "main file must override imported file");
}

#[test]
fn import_profile_merge_different_sources() {
    let disk = Disk::new(&[
        ("/work/imported.yaml", "profile:\n  components:\n    core:\n      git: {}\n"),
        ("/work/config.yaml", "imports:\n  - imported.yaml\n\nprofile:\n  components:\n    local:\n      nvim: {}\n"),
    ]);
    let (profile, _) = load_config_from(&disk, "/work/config.yaml").unwrap();
    assert!(profile.components.contains_key("core/git"), "imported component must be present");
    assert!(profile.components.contains_key("local/nvim"), "main component must be present");
    assert_eq!(profile.components.len(), 2);
}

#[test]
fn import_recursive_a_b_c() {
    let disk = Disk::new(&[
        ("/work/b.yaml", "profile:\n  components:\n    core:\n      bash: {}\n"),
        ("/work/a.yaml", "imports:\n  - b.yaml\n\nprofile:\n  components:\n    core:\n      git: {}\n"),
        ("/work/config.yaml", "imports:\n  - a.yaml\n\nprofile:\n  components:\n    local:\n      nvim: {}\n"),
    ]);
    let (profile, _) = load_config_from(&disk, "/work/config.yaml").unwrap();
    assert!(profile.components.contains_key("core/bash"), "b.yaml component must be present");
    assert!(profile.components.contains_key("core/git"), "a.yaml component must be present");
    assert!(profile.components.contains_key("local/nvim"), "main component must be present");
}

#[test]
fn import_diamond_allowed() {
    let disk = Disk::new(&[
        ("/work/shared.yaml", "profile:\n  components:\n    core:\n      git: {}\n"),
        ("/work/a.yaml", "imports:\n  - shared.yaml\nprofile:\n  components:\n    local:\n      tool-a: {}\n"),
        ("/work/b.yaml", "imports:\n  - shared.yaml\nprofile:\n  components:\n    local:\n      tool-b: {}\n"),
        ("/work/config.yaml", "imports:\n  - a.yaml\n  - b.yaml\nprofile:\n  components: {}\n"),
    ]);
    let (profile, _) = load_config_from(&disk, "/work/config.yaml").unwrap();
    assert!(profile.components.contains_key("core/git"));
    assert!(profile.components.contains_key("local/tool-a"));
    assert!(profile.components.contains_key("local/tool-b"));
}

#[test]
fn import_cycle_detected() {
    let disk = Disk::new(&[
        ("/work/b.yaml", "imports:\n  - a.yaml\nprofile:\n  components: {}\n"),
        ("/work/a.yaml", "imports:\n  - b.yaml\nprofile:\n  components: {}\n"),
        ("/work/config.yaml", "imports:\n  - a.yaml\nprofile:\n  components:\n    local:\n      nvim: {}\n"),
    ]);
    let err = load_config_from(&disk, "/work/config.yaml").unwrap_err();
    assert!(matches!(err, ConfigError::ImportCycle { .. }), "expected ImportCycle error, got: {err:?}");
}

#[test]
fn import_depth_exceeded() {
    let limit = IMPORT_DEPTH_LIMIT + 2;
    let mut files: Vec<(String, String)> = Vec::new();
    for i in (1..limit).rev() {
        let next = format!("file{}.yaml", i + 1);
        files.push((format!("/work/file{i}.yaml"), format!("imports:\n  - {next}\nprofile:\n  components: {{}}\n")));
    }
    files.push((format!("/work/file{limit}.yaml"), "profile:\n  components: {}\n".to_string()));
    files.push(("/work/config.yaml".to_string(), "imports:\n  - file1.yaml\nprofile:\n  components: {}\n".to_string()));
    let disk = Disk(files.into_iter().collect());
    let err = load_config_from(&disk, "/work/config.yaml").unwrap_err();
    assert!(matches!(err, ConfigError::ImportDepthExceeded { .. }), "expected ImportDepthExceeded, got: {err:?}");
}

#[test]
fn import_not_found_error() {
    let err = load_config("imports:\n  - nonexistent.yaml\nprofile:\n  components:\n    local:\n      nvim: {}\n").unwrap_err();
    assert!(matches!(err, ConfigError::ImportNotFound { .. }), "expected ImportNotFound, got: {err:?}");
}

#[test]
fn import_absolute_path_rejected() {
    let err =
        load_config("imports:\n  - /etc/loadout/base.yaml\nprofile:\n  components:\n    local:\n      nvim: {}\n").unwrap_err();
    assert!(matches!(err, ConfigError::ImportAbsolutePath { .. }), "expected ImportAbsolutePath, got: {err:?}");
}

#[test]
fn import_object_form_accepted() {
    let disk = Disk::new(&[
        ("/work/base.yaml", "profile:\n  components:\n    core:\n      git: {}\n"),
        ("/work/config.yaml", "imports:\n  - path: base.yaml\nprofile:\n  components:\n    local:\n      nvim: {}\n"),
    ]);
    let (profile, _) = load_config_from(&disk, "/work/config.yaml").unwrap();
    assert!(profile.components.contains_key("core/git"));
    assert!(profile.components.contains_key("local/nvim"));
}

#[test]
fn import_kind_home_resolves_against_injected_home() {
    let disk = Disk::new(&[
        ("/home/u/shared.yaml", "profile:\n  components:\n    core:\n      git: {}\n"),
        ("/cfg/config.yaml", "imports:\n  - path: shared.yaml\n    kind: home\nprofile:\n  components:\n    local:\n      nvim: {}\n"),
    ]);
    let mut stack = Vec::new();
    let raw = expand_imports(&disk, "/cfg/config.yaml", "/home/u", "<test>", 0, &mut stack).unwrap();
    let merged = raw.profile.unwrap().components;
    assert!(merged.get("core").and_then(|m| m.get("git")).is_some());
    assert!(merged.get("local").and_then(|m| m.get("nvim")).is_some());
}

#[test]
fn import_strategy_field_level_merge() {
    let disk = Disk::new(&[
        ("/work/base.yaml", "strategy:\n  rules:\n    - match:\n        kind: package\n      use: local/brew\nprofile:\n  components: {}\n"),
        ("/work/config.yaml", "imports:\n  - base.yaml\nprofile:\n  components:\n    local:\n      nvim: {}\nstrategy:\n  rules:\n    - match:\n        kind: runtime\n      use: local/mise\n"),
    ]);
    let (_, strategy) = load_config_from(&disk, "/work/config.yaml").unwrap();
    assert_eq!(strategy.rules.len(), 1);
    assert!(matches!(strategy.rules[0].selector.kind, Some(MatchKind::Runtime)), "runtime rule from main must win");
    assert_eq!(strategy.rules[0].use_backend, "local/mise");
}

#[test]
fn import_with_no_imports_field_unchanged() {
    let (profile, _) = load_config("profile:\n  components:\n    core:\n      git: {}\n").unwrap();
    assert!(profile.components.contains_key("core/git"));
    assert_eq!(profile.components.len(), 1);
}
