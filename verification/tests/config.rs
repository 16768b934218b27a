use loadout::config::{
    convert_one_param_value, convert_raw_params, enter_import, expand_bundles, expand_grouped_components, import_target,
    merge_into_acc, merge_raw_component_config, profile_from_grouped, require_profile, resolve_source_path, strategy_or_default,
    validate_and_resolve_sources, validate_and_resolve_sources_on, validate_strategy, ConfigError, ImportKind, MergedConfig, RawBundle, RawBundleRef,
    RawComponentConfig, RawConfig, RawImportEntry, RawParamValue, RawProfile,
};
use loadout::fs::FsSourceKind;
use loadout::params::ParamValue;
use loadout::sources::{AllowList, AllowSpec, DetailedAllow, SourceEntry, SourceRef, SourceType, SourcesSpec};
use loadout::strategy::{MatchKind, MatchSelector, Strategy, StrategyGroup, StrategyRule};
use loadout::strmap::StrMap;

fn cfg(params: &[(&str, &str)]) -> RawComponentConfig {
    if params.is_empty() {
        return RawComponentConfig { params: None };
    }
    let mut m = StrMap::new();
    for (k, v) in params {
        m.insert(k.to_string(), RawParamValue::Text(v.to_string()));
    }
    RawComponentConfig { params: Some(m) }
}

fn grouped(entries: Vec<(&str, Vec<(&str, RawComponentConfig)>)>) -> StrMap<StrMap<RawComponentConfig>> {
    let mut g = StrMap::new();
    for (sid, names) in entries {
        let mut inner = StrMap::new();
        for (name, c) in names {
            inner.insert(name.to_string(), c);
        }
        g.insert(sid.to_string(), inner);
    }
    g
}

fn text_param(g: &StrMap<StrMap<RawComponentConfig>>, sid: &str, name: &str, key: &str) -> Option<String> {
    match g.get(sid)?.get(name)?.params.as_ref()?.get(key)? {
        RawParamValue::Text(t) => Some(t.clone()),
        _ => None,
    }
}

fn invalid_profile(r: &ConfigError) -> &str {
    match r {
        ConfigError::InvalidProfile { reason } => reason.as_str(),
        other => panic!("unexpected: {other:?}"),
    }
}

#[test]
fn grouped_components_expand_to_canonical_ids() {
    let g = grouped(vec![("core", vec![("git", cfg(&[]))]), ("local", vec![("nvim", cfg(&[])), ("python", cfg(&[("version", "3.12")]))])]);
    let flat = expand_grouped_components(g).unwrap();
    assert_eq!(flat.len(), 3);
    assert!(flat.contains_key("core/git"));
    assert!(flat.get("core/git").unwrap().params.is_none());
    let p = flat.get("local/python").unwrap().params.as_ref().unwrap();
    assert_eq!(p.get("version"), Some(&ParamValue::String("3.12".to_string())));
}

#[test]
fn grouped_components_reject_empty_names_and_duplicates() {
    let g = grouped(vec![("", vec![])]);
    assert_eq!(invalid_profile(&expand_grouped_components(g).unwrap_err()), "source_id must not be empty");
    let g = grouped(vec![("core", vec![("", cfg(&[]))])]);
    assert_eq!(invalid_profile(&expand_grouped_components(g).unwrap_err()), "component name under source 'core' must not be empty");
    let g = grouped(vec![("a", vec![("b/c", cfg(&[]))]), ("a/b", vec![("c", cfg(&[]))])]);
    assert_eq!(invalid_profile(&expand_grouped_components(g).unwrap_err()), "duplicate component 'a/b/c'");
}

#[test]
fn param_values_convert() {
    assert_eq!(convert_one_param_value("v", RawParamValue::Number("20".to_string())), Ok(ParamValue::String("20".to_string())));
    let src = RawParamValue::Mapping { kind: Some(Some("home_relative".to_string())), path: Some(Some(".ssh/config".to_string())) };
    match convert_one_param_value("src", src).unwrap() {
        ParamValue::Source(s) => {
            assert_eq!(s.kind, FsSourceKind::HomeRelative);
            assert_eq!(s.path, ".ssh/config");
        }
        other => panic!("unexpected: {other:?}"),
    }
    let bad_kind = RawParamValue::Mapping { kind: Some(Some("weird".to_string())), path: Some(Some("p".to_string())) };
    assert_eq!(
        invalid_profile(&convert_one_param_value("src", bad_kind).unwrap_err()),
        "param 'src': invalid source kind 'weird'; expected one of: home_relative, component_relative, absolute"
    );
    let no_path = RawParamValue::Mapping { kind: Some(Some("absolute".to_string())), path: None };
    assert_eq!(invalid_profile(&convert_one_param_value("x", no_path).unwrap_err()), "param 'x': object value must have 'path' field");
    assert_eq!(
        invalid_profile(&convert_one_param_value("x", RawParamValue::Other).unwrap_err()),
        "param 'x': unsupported value type; expected string or object"
    );
    assert_eq!(convert_raw_params(Some(StrMap::new())).unwrap().is_none(), true);
}

#[test]
fn bundles_merge_in_order_and_profile_wins() {
    let mut bundles = StrMap::new();
    bundles.insert("base".to_string(), RawBundle { components: grouped(vec![("core", vec![("git", cfg(&[("a", "1"), ("b", "1")]))])]) });
    bundles.insert("work".to_string(), RawBundle { components: grouped(vec![("core", vec![("git", cfg(&[("b", "2")]))])]) });
    let bref = RawBundleRef { use_list: vec!["base".to_string(), "work".to_string()] };
    let profile = grouped(vec![("core", vec![("git", cfg(&[("c", "3")]))]), ("local", vec![("nvim", cfg(&[]))])]);
    let merged = expand_bundles(&bref, &bundles, profile).unwrap();
    assert_eq!(text_param(&merged, "core", "git", "a"), Some("1".to_string()));
    assert_eq!(text_param(&merged, "core", "git", "b"), Some("2".to_string()));
    assert_eq!(text_param(&merged, "core", "git", "c"), Some("3".to_string()));
    assert!(merged.get("local").unwrap().contains_key("nvim"));
    let bad = RawBundleRef { use_list: vec!["missing".to_string()] };
    assert_eq!(
        invalid_profile(&expand_bundles(&bad, &bundles, StrMap::new()).unwrap_err()),
        "undefined bundle 'missing': not found in 'bundles:' section"
    );
}

#[test]
fn component_config_merge_keeps_existing_params() {
    let mut target = StrMap::new();
    target.insert("git".to_string(), cfg(&[("a", "1")]));
    merge_raw_component_config(&mut target, "git".to_string(), RawComponentConfig { params: None });
    assert!(target.get("git").unwrap().params.as_ref().unwrap().contains_key("a"));
}

#[test]
fn imports_merge_later_file_wins() {
    let mut acc = MergedConfig::default();
    let first = RawConfig {
        imports: vec![],
        profile: Some(RawProfile { components: grouped(vec![("core", vec![("git", cfg(&[("a", "1")]))])]) }),
        strategy: None,
        bundle: RawBundleRef { use_list: vec!["base".to_string()] },
        bundles: StrMap::new(),
    };
    merge_into_acc(&mut acc, first);
    let second = RawConfig {
        imports: vec![],
        profile: Some(RawProfile { components: grouped(vec![("core", vec![("git", cfg(&[("b", "2")]))])]) }),
        strategy: None,
        bundle: RawBundleRef { use_list: vec![] },
        bundles: StrMap::new(),
    };
    merge_into_acc(&mut acc, second);
    let comps = acc.profile_components.as_ref().unwrap();
    assert_eq!(text_param(comps, "core", "git", "a"), None);
    assert_eq!(text_param(comps, "core", "git", "b"), Some("2".to_string()));
    assert_eq!(acc.bundle_use, vec!["base".to_string()]);
    let raw = acc.into_raw_config();
    assert!(require_profile(raw.profile).is_ok());
    assert_eq!(
        invalid_profile(&require_profile(None).unwrap_err()),
        "config.yaml must contain a 'profile' section"
    );
}

#[test]
fn import_paths_and_guards() {
    let e = RawImportEntry::Shorthand("bundles/./base.yaml".to_string());
    assert_eq!(import_target(&e, "/cfg", "/home/u"), Ok("/cfg/bundles/base.yaml".to_string()));
    let e = RawImportEntry::Explicit { path: "dot/shared.yaml".to_string(), kind: ImportKind::Home };
    assert_eq!(import_target(&e, "/cfg", "/home/u"), Ok("/home/u/dot/shared.yaml".to_string()));
    let e = RawImportEntry::Shorthand("/etc/x.yaml".to_string());
    assert_eq!(import_target(&e, "/cfg", "/h"), Err(ConfigError::ImportAbsolutePath { path: "/etc/x.yaml".to_string() }));
    let stack = vec!["/a.yaml".to_string(), "/b.yaml".to_string()];
    assert_eq!(
        enter_import("/a.yaml", "/b.yaml", 2, true, "/a.yaml", &stack),
        Err(ConfigError::ImportCycle { chain: "/a.yaml \u{2192} /b.yaml \u{2192} /a.yaml".to_string() })
    );
    assert_eq!(
        enter_import("/c.yaml", "/b.yaml", 9, true, "/c.yaml", &stack),
        Err(ConfigError::ImportDepthExceeded { limit: 8, path: "/c.yaml".to_string() })
    );
    assert_eq!(
        enter_import("/c.yaml", "<root>", 0, false, "/c.yaml", &stack),
        Err(ConfigError::ImportNotFound { path: "/c.yaml".to_string(), from: "<root>".to_string() })
    );
    assert_eq!(enter_import("/c.yaml", "/b.yaml", 1, true, "/c.yaml", &stack), Ok(()));
    assert_eq!(
        ConfigError::ImportDepthExceeded { limit: 8, path: "/x".to_string() }.message(),
        "import depth limit (8) exceeded at: /x"
    );
}

fn rule(kind: Option<MatchKind>, component: Option<&str>, group: Option<&str>, backend: &str) -> StrategyRule {
    StrategyRule {
        selector: MatchSelector { kind, name: None, component: component.map(|s| s.to_string()), group: group.map(|s| s.to_string()) },
        use_backend: backend.to_string(),
    }
}

fn strategy(groups: Vec<(&str, Vec<&str>)>, rules: Vec<StrategyRule>) -> Strategy {
    let mut gs = StrMap::new();
    for (name, kinds) in groups {
        let mut m = StrMap::new();
        for k in kinds {
            m.insert(k.to_string(), vec!["x".to_string()]);
        }
        gs.insert(name.to_string(), StrategyGroup(m));
    }
    Strategy { strategy: None, groups: gs, rules, fs: None }
}

fn invalid_strategy(r: Result<Strategy, ConfigError>) -> String {
    match r {
        Err(ConfigError::InvalidStrategy { reason }) => reason,
        other => panic!("unexpected: {other:?}"),
    }
}

#[test]
fn strategy_validation_rules() {
    assert!(validate_strategy(strategy(vec![("cli", vec!["package"])], vec![rule(Some(MatchKind::Package), None, Some("cli"), "local/brew")])).is_ok());
    assert_eq!(
        invalid_strategy(validate_strategy(strategy(vec![("cli", vec!["fs"])], vec![]))),
        "groups.cli: invalid kind 'fs'; must be 'package' or 'runtime'"
    );
    assert_eq!(invalid_strategy(validate_strategy(strategy(vec![], vec![rule(None, None, None, "")]))), "rules[0].use must not be empty");
    assert!(invalid_strategy(validate_strategy(strategy(vec![], vec![rule(None, Some("core/git"), None, "b")]))).starts_with("rules[0]: component-only rule is forbidden"));
    assert!(invalid_strategy(validate_strategy(strategy(vec![], vec![rule(None, None, Some("g"), "b")]))).starts_with("rules[0]: 'group' requires 'kind'"));
    assert_eq!(
        invalid_strategy(validate_strategy(strategy(vec![], vec![rule(Some(MatchKind::Package), None, Some("g"), "b")]))),
        "rules[0]: group 'g' is not defined in 'groups'"
    );
    assert_eq!(
        invalid_strategy(validate_strategy(strategy(vec![("g", vec!["package"])], vec![
            rule(Some(MatchKind::Package), None, None, "a"),
            rule(Some(MatchKind::Runtime), None, Some("g"), "b")
        ]))),
        "rules[1]: match.kind is 'runtime' but group 'g' has no 'runtime' entries"
    );
    let d = strategy_or_default(None).unwrap();
    assert!(d.rules.is_empty());
}

fn entry(id: &str, t: SourceType, url: Option<&str>, path: Option<&str>) -> SourceEntry {
    SourceEntry {
        id: id.to_string(),
        source_type: t,
        url: url.map(|s| s.to_string()),
        source_ref: None,
        path: path.map(|s| s.to_string()),
        allow: None,
    }
}

fn sources_err(spec: SourcesSpec) -> String {
    match validate_and_resolve_sources(spec, "/cfg", Some("/home/u")) {
        Err(ConfigError::InvalidSources { reason }) => reason,
        other => panic!("unexpected: {other:?}"),
    }
}

#[test]
fn sources_validation_and_resolution() {
    let spec = SourcesSpec {
        sources: vec![
            entry("dots", SourceType::Path, None, Some("./dotfiles/.")),
            entry("home", SourceType::Path, None, Some("~/repo")),
            entry("abs", SourceType::Path, None, Some("/opt/./src")),
            entry("remote", SourceType::Git, Some("https://example.com/r.git"), Some("sub/dir")),
        ],
    };
    let out = validate_and_resolve_sources(spec, "/cfg", Some("/home/u")).unwrap();
    assert_eq!(out.sources[0].path.as_deref(), Some("/cfg/dotfiles"));
    assert_eq!(out.sources[1].path.as_deref(), Some("/home/u/repo"));
    assert_eq!(out.sources[2].path.as_deref(), Some("/opt/src"));
    assert_eq!(out.sources[3].path.as_deref(), Some("sub/dir"));

    assert_eq!(
        sources_err(SourcesSpec { sources: vec![entry("core", SourceType::Path, None, Some("x"))] }),
        "source id 'core' is reserved and must not appear in sources.yaml"
    );
    assert_eq!(
        sources_err(SourcesSpec { sources: vec![entry("a", SourceType::Path, None, Some("x")), entry("a", SourceType::Path, None, Some("y"))] }),
        "duplicate source id 'a'"
    );
    assert_eq!(sources_err(SourcesSpec { sources: vec![entry("g", SourceType::Git, None, None)] }), "source 'g': url is required for type: git");
    assert_eq!(
        sources_err(SourcesSpec { sources: vec![entry("g", SourceType::Git, Some("u"), Some("/abs"))] }),
        "source 'g': path must be relative (no absolute paths in git repo subpath)"
    );
    assert_eq!(
        sources_err(SourcesSpec { sources: vec![entry("g", SourceType::Git, Some("u"), Some("a/../b"))] }),
        "source 'g': path must not contain '..' components"
    );
    let mut with_ref = entry("g", SourceType::Git, Some("u"), None);
    with_ref.source_ref = Some(SourceRef { branch: Some("main".to_string()), tag: Some("v1".to_string()), commit: None });
    assert_eq!(sources_err(SourcesSpec { sources: vec![with_ref] }), "source 'g': ref must specify exactly one of branch, tag, or commit");
    assert_eq!(
        sources_err(SourcesSpec { sources: vec![entry("p", SourceType::Path, Some("u"), Some("x"))] }),
        "source 'p': url must not be specified for type: path"
    );
    assert_eq!(sources_err(SourcesSpec { sources: vec![entry("p", SourceType::Path, None, None)] }), "source 'p': path is required for type: path");
    let mut allow = entry("p", SourceType::Path, None, Some("x"));
    allow.allow = Some(AllowSpec::Detailed(DetailedAllow { features: Some(AllowList::Names(vec!["".to_string()])), backends: None }));
    assert_eq!(sources_err(SourcesSpec { sources: vec![allow] }), "source 'p': allow.components contains empty name");
}

#[test]
fn source_path_resolution_cases() {
    assert_eq!(resolve_source_path("~", "/cfg", Some("/home/u")), "/home/u");
    assert_eq!(resolve_source_path("~", "/cfg", None), "/cfg/~");
    assert_eq!(resolve_source_path("rel/./x", "/cfg", None), "/cfg/rel/x");
    assert_eq!(resolve_source_path("../up", "/cfg", None), "/cfg/../up");
}

#[test]
fn profile_from_grouped_components() {
    let p = profile_from_grouped(grouped(vec![("core", vec![("git", cfg(&[]))])])).unwrap();
    assert!(p.components.contains_key("core/git"));
}

fn git_subpath_result(path: &str, windows: bool) -> Result<SourcesSpec, ConfigError> {
    let spec = SourcesSpec { sources: vec![entry("remote", SourceType::Git, Some("https://example.com/r.git"), Some(path))] };
    validate_and_resolve_sources_on(spec, "/cfg", Some("/home/u"), windows)
}

fn git_subpath_reason(path: &str, windows: bool) -> String {
    match git_subpath_result(path, windows) {
        Err(ConfigError::InvalidSources { reason }) => reason,
        other => panic!("unexpected: {other:?}"),
    }
}

#[test]
fn git_subpath_read_as_on_windows() {
    assert_eq!(
        git_subpath_reason("C:\\x", true),
        "source 'remote': path must be relative (no absolute paths in git repo subpath)"
    );
    assert_eq!(git_subpath_reason("a\\..\\b", true), "source 'remote': path must not contain '..' components");
    assert_eq!(git_subpath_reason("C:..\\b", true), "source 'remote': path must not contain '..' components");
    // A drive without a separator after it is not absolute.
    assert!(git_subpath_result("C:sub", true).is_ok());
}

#[test]
fn git_subpath_read_as_on_unix() {
    assert!(git_subpath_result("C:\\x", false).is_ok());
    assert!(git_subpath_result("a\\..\\b", false).is_ok());
    assert_eq!(git_subpath_reason("a/../b", false), "source 'remote': path must not contain '..' components");
    assert_eq!(
        git_subpath_reason("\\x", false),
        "source 'remote': path must be relative (no absolute paths in git repo subpath)"
    );
}
