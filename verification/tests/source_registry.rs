use loadout::id::{CanonicalBackendId, CanonicalFeatureId};
use loadout::source_registry::{RegistryError, SourceRegistry};
use loadout::sources::{AllowList, AllowSpec, DetailedAllow, SourceEntry, SourceType, SourcesSpec, WildcardAll};

fn feature(s: &str) -> CanonicalFeatureId {
    CanonicalFeatureId::new(s).unwrap()
}

fn backend(s: &str) -> CanonicalBackendId {
    CanonicalBackendId::new(s).unwrap()
}

fn registry_with(sources: SourcesSpec) -> SourceRegistry {
    SourceRegistry::new(sources, "/repo", "/cfg", "/data")
}

fn empty_registry() -> SourceRegistry {
    registry_with(SourcesSpec::default())
}

fn source_entry(id: &str, allow: Option<AllowSpec>) -> SourceEntry {
    SourceEntry {
        id: id.into(),
        source_type: SourceType::Git,
        url: Some(format!("https://example.com/{id}")),
        source_ref: None,
        path: None,
        allow,
    }
}

fn spec_with(entries: Vec<SourceEntry>) -> SourcesSpec {
    SourcesSpec { sources: entries }
}

// ── feature_dir ───────────────────────────────────────────────────────────

#[test]
fn feature_dir_core() {
    let r = empty_registry();
    let dir = r.feature_dir(&feature("core/git")).unwrap();
    assert_eq!(dir, "/repo/features/git");
}

#[test]
fn feature_dir_user() {
    let r = empty_registry();
    let dir = r.feature_dir(&feature("user/myvim")).unwrap();
    assert_eq!(dir, "/cfg/features/myvim");
}

#[test]
fn feature_dir_external() {
    let r = registry_with(spec_with(vec![source_entry("community", None)]));
    let dir = r.feature_dir(&feature("community/node")).unwrap();
    assert_eq!(dir, "/data/sources/community/features/node");
}

#[test]
fn feature_dir_unknown_source_errors() {
    let r = empty_registry();
    let err = r.feature_dir(&feature("unknown/node")).unwrap_err();
    assert!(matches!(err, RegistryError::UnknownSource { .. }));
}

// ── backend_dir ───────────────────────────────────────────────────────────

#[test]
fn backend_dir_core() {
    let r = empty_registry();
    let dir = r.backend_dir(&backend("core/brew")).unwrap();
    assert_eq!(dir, "/repo/backends/brew");
}

#[test]
fn backend_dir_user() {
    let r = empty_registry();
    let dir = r.backend_dir(&backend("user/mypkg")).unwrap();
    assert_eq!(dir, "/cfg/backends/mypkg");
}

#[test]
fn backend_dir_external() {
    let r = registry_with(spec_with(vec![source_entry("tools", None)]));
    let dir = r.backend_dir(&backend("tools/npm")).unwrap();
    assert_eq!(dir, "/data/sources/tools/backends/npm");
}

// ── check_feature_allowed ─────────────────────────────────────────────────

#[test]
fn core_feature_always_allowed() {
    let r = empty_registry();
    r.check_feature_allowed(&feature("core/git")).unwrap();
}

#[test]
fn user_feature_always_allowed() {
    let r = empty_registry();
    r.check_feature_allowed(&feature("user/myfeature")).unwrap();
}

#[test]
fn external_no_allow_is_deny_all() {
    let r = registry_with(spec_with(vec![source_entry("community", None)]));
    let err = r
        .check_feature_allowed(&feature("community/node"))
        .unwrap_err();
    assert!(matches!(
        err,
        RegistryError::FeatureDeniedNoAllowList { .. }
    ));
}

#[test]
fn external_allow_star_permits_all_features() {
    let r = registry_with(spec_with(vec![source_entry(
        "community",
        Some(AllowSpec::All(WildcardAll)),
    )]));
    r.check_feature_allowed(&feature("community/node")).unwrap();
    r.check_feature_allowed(&feature("community/python"))
        .unwrap();
}

#[test]
fn external_allow_detailed_features_star_permits_all() {
    let r = registry_with(spec_with(vec![source_entry(
        "tools",
        Some(AllowSpec::Detailed(DetailedAllow {
            features: Some(AllowList::All(WildcardAll)),
            backends: None,
        })),
    )]));
    r.check_feature_allowed(&feature("tools/node")).unwrap();
}

#[test]
fn external_allow_detailed_features_list_permits_listed() {
    let r = registry_with(spec_with(vec![source_entry(
        "tools",
        Some(AllowSpec::Detailed(DetailedAllow {
            features: Some(AllowList::Names(vec!["node".into(), "python".into()])),
            backends: None,
        })),
    )]));
    r.check_feature_allowed(&feature("tools/node")).unwrap();
    r.check_feature_allowed(&feature("tools/python")).unwrap();
}

#[test]
fn external_allow_detailed_features_list_rejects_unlisted() {
    let r = registry_with(spec_with(vec![source_entry(
        "tools",
        Some(AllowSpec::Detailed(DetailedAllow {
            features: Some(AllowList::Names(vec!["node".into()])),
            backends: None,
        })),
    )]));
    let err = r.check_feature_allowed(&feature("tools/ruby")).unwrap_err();
    assert!(matches!(err, RegistryError::FeatureNotAllowed { .. }));
}

#[test]
fn external_allow_detailed_no_features_key_denies_feature() {
    // `allow: { backends: ... }` with no `features:` key — features are denied.
    let r = registry_with(spec_with(vec![source_entry(
        "tools",
        Some(AllowSpec::Detailed(DetailedAllow {
            features: None,
            backends: Some(AllowList::All(WildcardAll)),
        })),
    )]));
    let err = r.check_feature_allowed(&feature("tools/node")).unwrap_err();
    assert!(matches!(err, RegistryError::FeatureNotAllowed { .. }));
}

// ── check_backend_allowed ─────────────────────────────────────────────────

#[test]
fn core_backend_always_allowed() {
    let r = empty_registry();
    r.check_backend_allowed(&backend("core/brew")).unwrap();
}

#[test]
fn user_backend_always_allowed() {
    let r = empty_registry();
    r.check_backend_allowed(&backend("user/mypkg")).unwrap();
}

#[test]
fn external_no_allow_denies_backend() {
    let r = registry_with(spec_with(vec![source_entry("community", None)]));
    let err = r
        .check_backend_allowed(&backend("community/brew"))
        .unwrap_err();
    assert!(matches!(
        err,
        RegistryError::BackendDeniedNoAllowList { .. }
    ));
}

#[test]
fn external_allow_star_permits_all_backends() {
    let r = registry_with(spec_with(vec![source_entry(
        "community",
        Some(AllowSpec::All(WildcardAll)),
    )]));
    r.check_backend_allowed(&backend("community/npm")).unwrap();
}

#[test]
fn external_allow_detailed_backends_list_permits_listed() {
    let r = registry_with(spec_with(vec![source_entry(
        "tools",
        Some(AllowSpec::Detailed(DetailedAllow {
            features: None,
            backends: Some(AllowList::Names(vec!["npm".into(), "uv".into()])),
        })),
    )]));
    r.check_backend_allowed(&backend("tools/npm")).unwrap();
    r.check_backend_allowed(&backend("tools/uv")).unwrap();
}

#[test]
fn external_allow_detailed_backends_list_rejects_unlisted() {
    let r = registry_with(spec_with(vec![source_entry(
        "tools",
        Some(AllowSpec::Detailed(DetailedAllow {
            features: None,
            backends: Some(AllowList::Names(vec!["npm".into()])),
        })),
    )]));
    let err = r.check_backend_allowed(&backend("tools/brew")).unwrap_err();
    assert!(matches!(err, RegistryError::BackendNotAllowed { .. }));
}

#[test]
fn external_allow_detailed_no_backends_key_denies_backend() {
    let r = registry_with(spec_with(vec![source_entry(
        "tools",
        Some(AllowSpec::Detailed(DetailedAllow {
            features: Some(AllowList::All(WildcardAll)),
            backends: None,
        })),
    )]));
    let err = r.check_backend_allowed(&backend("tools/npm")).unwrap_err();
    assert!(matches!(err, RegistryError::BackendNotAllowed { .. }));
}

#[test]
fn unknown_source_in_check_backend_errors() {
    let r = empty_registry();
    let err = r.check_backend_allowed(&backend("ghost/brew")).unwrap_err();
    assert!(matches!(err, RegistryError::UnknownSource { .. }));
}

#[test]
fn registry_error_messages() {
    let r = empty_registry();
    let err = r.feature_dir(&feature("ghost/x")).unwrap_err();
    assert_eq!(err.message(), "unknown source 'ghost': not declared in sources.yaml");
    let r = registry_with(spec_with(vec![source_entry("community", None)]));
    let err = r.check_feature_allowed(&feature("community/node")).unwrap_err();
    assert_eq!(
        err.message(),
        "feature 'community/node' is not allowed by source 'community': source has no allow-list (deny-all)"
    );
    let err = r.check_backend_allowed(&backend("community/npm")).unwrap_err();
    assert_eq!(
        err.message(),
        "backend 'community/npm' is not allowed by source 'community': source has no allow-list (deny-all)"
    );
    let r = registry_with(spec_with(vec![source_entry(
        "tools",
        Some(AllowSpec::Detailed(DetailedAllow { features: None, backends: None })),
    )]));
    assert_eq!(
        r.check_feature_allowed(&feature("tools/x")).unwrap_err().message(),
        "feature 'tools/x' is not in the allow-list of source 'tools'"
    );
    assert_eq!(
        r.check_backend_allowed(&backend("tools/y")).unwrap_err().message(),
        "backend 'tools/y' is not in the allow-list of source 'tools'"
    );
}

#[test]
fn wildcard_parses_only_star() {
    assert!(WildcardAll::try_from_str("*").is_ok());
    assert_eq!(WildcardAll::try_from_str("all").unwrap_err(), "expected \"*\", got \"all\"");
    assert_eq!(WildcardAll.as_str(), "*");
}
