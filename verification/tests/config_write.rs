use loadout::config::ConfigError;
use loadout::config_write::{
    add_feature, blank_document, load_document, raw_set, raw_unset, remove_feature, rewrite_backend_source,
    rewrite_feature_source, validate_non_empty, CONFIG_TEMPLATE,
};
use loadout::yaml::{strip_null_values, YamlValue};

fn t(s: &str) -> YamlValue {
    YamlValue::Text(s.to_string())
}

fn m(entries: Vec<(&str, YamlValue)>) -> YamlValue {
    YamlValue::Mapping(entries.into_iter().map(|(k, v)| (t(k), v)).collect())
}

fn empty() -> YamlValue {
    YamlValue::Mapping(Vec::new())
}

fn show(v: &YamlValue) -> String {
    format!("{:?}", v)
}

fn reason(e: ConfigError) -> String {
    match e {
        ConfigError::InvalidProfile { reason } => reason,
        other => panic!("unexpected error: {:?}", other),
    }
}

#[test]
fn add_feature_creates_missing_levels() {
    let doc = add_feature(empty(), "local", "git").unwrap();
    let expected = m(vec![("profile", m(vec![("features", m(vec![("local", m(vec![("git", empty())]))]))]))]);
    assert_eq!(show(&doc), show(&expected));
}

#[test]
fn add_feature_twice_is_idempotent() {
    let once = add_feature(empty(), "local", "git").unwrap();
    let twice = add_feature(add_feature(empty(), "local", "git").unwrap(), "local", "git").unwrap();
    assert_eq!(show(&once), show(&twice));
}

#[test]
fn add_feature_appends_new_source_after_existing() {
    let doc = m(vec![("profile", m(vec![("features", m(vec![("core", m(vec![("node", empty())]))]))]))]);
    let doc = add_feature(doc, "local", "git").unwrap();
    let expected = m(vec![(
        "profile",
        m(vec![("features", m(vec![("core", m(vec![("node", empty())])), ("local", m(vec![("git", empty())]))]))]),
    )]);
    assert_eq!(show(&doc), show(&expected));
}

#[test]
fn add_feature_treats_null_level_as_empty_mapping() {
    let doc = m(vec![("profile", YamlValue::Null)]);
    let doc = add_feature(doc, "local", "git").unwrap();
    let expected = m(vec![("profile", m(vec![("features", m(vec![("local", m(vec![("git", empty())]))]))]))]);
    assert_eq!(show(&doc), show(&expected));
}

#[test]
fn add_feature_rejects_scalar_level() {
    let doc = m(vec![("profile", t("oops"))]);
    let e = add_feature(doc, "local", "git").unwrap_err();
    assert_eq!(reason(e), "'profile' is not a mapping");
}

#[test]
fn add_feature_rejects_non_mapping_document() {
    let e = add_feature(YamlValue::Sequence(vec![]), "local", "git").unwrap_err();
    assert_eq!(reason(e), "expected a YAML mapping at this path");
}

#[test]
fn add_feature_rejects_empty_arguments() {
    assert_eq!(reason(add_feature(empty(), "", "git").unwrap_err()), "source must not be empty");
    assert_eq!(reason(add_feature(empty(), "local", "").unwrap_err()), "name must not be empty");
    assert_eq!(reason(validate_non_empty("field", "").unwrap_err()), "field must not be empty");
    assert!(validate_non_empty("field", "x").is_ok());
}

#[test]
fn add_feature_into_tagged_mapping_keeps_tag() {
    let doc = m(vec![("profile", YamlValue::Tagged("!t".to_string(), Box::new(empty())))]);
    let doc = add_feature(doc, "local", "git").unwrap();
    let expected = m(vec![(
        "profile",
        YamlValue::Tagged(
            "!t".to_string(),
            Box::new(m(vec![("features", m(vec![("local", m(vec![("git", empty())]))]))])),
        ),
    )]);
    assert_eq!(show(&doc), show(&expected));
}

#[test]
fn remove_feature_reports_presence() {
    let doc = add_feature(empty(), "local", "git").unwrap();
    let (doc, found) = remove_feature(doc, "local", "git").unwrap();
    assert!(found);
    let expected = m(vec![("profile", m(vec![("features", m(vec![("local", empty())]))]))]);
    assert_eq!(show(&doc), show(&expected));
    let (_, found_again) = remove_feature(doc, "local", "git").unwrap();
    assert!(!found_again);
}

#[test]
fn remove_feature_swaps_last_entry_into_place() {
    let doc = m(vec![("profile", m(vec![(
        "features",
        m(vec![("local", m(vec![("a", empty()), ("b", empty()), ("c", empty())]))]),
    )]))]);
    let (doc, found) = remove_feature(doc, "local", "a").unwrap();
    assert!(found);
    let expected = m(vec![("profile", m(vec![(
        "features",
        m(vec![("local", m(vec![("c", empty()), ("b", empty())]))]),
    )]))]);
    assert_eq!(show(&doc), show(&expected));
}

#[test]
fn remove_feature_rejects_empty_arguments() {
    assert_eq!(reason(remove_feature(empty(), "", "git").unwrap_err()), "source must not be empty");
}

#[test]
fn raw_set_creates_nested_value() {
    let doc = raw_set(empty(), "strategy.package.backend", "local/mise").unwrap();
    let expected = m(vec![("strategy", m(vec![("package", m(vec![("backend", t("local/mise"))]))]))]);
    assert_eq!(show(&doc), show(&expected));
}

#[test]
fn raw_set_overwrites_in_place() {
    let doc = m(vec![("a", t("1")), ("b", t("2"))]);
    let doc = raw_set(doc, "a", "true").unwrap();
    assert_eq!(show(&doc), show(&m(vec![("a", YamlValue::Bool(true)), ("b", t("2"))])));
}

#[test]
fn raw_set_errors() {
    assert_eq!(reason(raw_set(empty(), "", "x").unwrap_err()), "key path must not be empty");
    assert_eq!(reason(raw_set(empty(), "a", "{").unwrap_err()), "cannot parse '{' as YAML");
}

#[test]
fn raw_set_keeps_empty_segments() {
    let doc = raw_set(empty(), "a..b", "1").unwrap();
    let expected = m(vec![("a", m(vec![("", m(vec![("b", YamlValue::Number("1".to_string()))]))]))]);
    assert_eq!(show(&doc), show(&expected));
}

#[test]
fn raw_unset_removes_and_reports() {
    let doc = m(vec![("a", m(vec![("b", t("x"))]))]);
    let (doc, found) = raw_unset(doc, "a.b").unwrap();
    assert!(found);
    assert_eq!(show(&doc), show(&m(vec![("a", empty())])));
    let (_, found) = raw_unset(doc, "a.c").unwrap();
    assert!(!found);
    assert_eq!(reason(raw_unset(empty(), "").unwrap_err()), "key path must not be empty");
}

#[test]
fn rewrite_feature_source_moves_in_profile_and_bundles() {
    let doc = m(vec![
        ("profile", m(vec![("features", m(vec![("local", m(vec![("git", empty())]))]))])),
        ("bundles", m(vec![("dev", m(vec![("features", m(vec![("local", m(vec![("git", t("cfg"))]))]))]))])),
    ]);
    let (doc, changed) = rewrite_feature_source(doc, "local", "git", "core");
    assert!(changed);
    let expected = m(vec![
        ("profile", m(vec![("features", m(vec![("core", m(vec![("git", empty())]))]))])),
        ("bundles", m(vec![("dev", m(vec![("features", m(vec![("core", m(vec![("git", t("cfg"))]))]))]))])),
    ]);
    assert_eq!(show(&doc), show(&expected));
}

#[test]
fn rewrite_feature_source_keeps_nonempty_old_source() {
    let doc = m(vec![(
        "profile",
        m(vec![("features", m(vec![
            ("local", m(vec![("git", empty()), ("zsh", empty())])),
            ("core", m(vec![("node", empty())])),
        ]))]),
    )]);
    let (doc, changed) = rewrite_feature_source(doc, "local", "git", "core");
    assert!(changed);
    let expected = m(vec![(
        "profile",
        m(vec![("features", m(vec![
            ("local", m(vec![("zsh", empty())])),
            ("core", m(vec![("node", empty()), ("git", empty())])),
        ]))]),
    )]);
    assert_eq!(show(&doc), show(&expected));
}

#[test]
fn rewrite_feature_source_absent_is_unchanged() {
    let doc = m(vec![("profile", m(vec![("features", m(vec![("local", m(vec![("zsh", empty())]))]))]))]);
    let before = show(&doc);
    let (doc, changed) = rewrite_feature_source(doc, "local", "git", "core");
    assert!(!changed);
    assert_eq!(show(&doc), before);
}

#[test]
fn rewrite_backend_source_renames_ids() {
    let doc = m(vec![(
        "strategy",
        m(vec![(
            "package",
            m(vec![
                ("default_backend", t("local/mise")),
                ("overrides", m(vec![("rg", m(vec![("backend", t("local/mise"))])), ("fd", m(vec![("backend", t("core/brew"))]))])),
            ]),
        )]),
    )]);
    let (doc, changed) = rewrite_backend_source(doc, "local", "mise", "community");
    assert!(changed);
    let expected = m(vec![(
        "strategy",
        m(vec![(
            "package",
            m(vec![
                ("default_backend", t("community/mise")),
                ("overrides", m(vec![("rg", m(vec![("backend", t("community/mise"))])), ("fd", m(vec![("backend", t("core/brew"))]))])),
            ]),
        )]),
    )]);
    assert_eq!(show(&doc), show(&expected));
}

#[test]
fn rewrite_backend_source_without_strategy_is_unchanged() {
    let (doc, changed) = rewrite_backend_source(m(vec![("profile", empty())]), "local", "mise", "core");
    assert!(!changed);
    assert_eq!(show(&doc), show(&m(vec![("profile", empty())])));
}

#[test]
fn strip_null_values_drops_null_keys_recursively() {
    let doc = m(vec![
        ("profile", m(vec![("features", YamlValue::Null), ("x", t("1"))])),
        ("strategy", YamlValue::Null),
        ("tagged_null", YamlValue::Tagged("!n".to_string(), Box::new(YamlValue::Null))),
        ("list", YamlValue::Sequence(vec![YamlValue::Null])),
    ]);
    let doc = strip_null_values(doc);
    let expected = m(vec![
        ("profile", m(vec![("x", t("1"))])),
        ("list", YamlValue::Sequence(vec![YamlValue::Null])),
    ]);
    assert_eq!(show(&doc), show(&expected));
}

#[test]
fn blank_document_detection() {
    assert!(blank_document(""));
    assert!(blank_document("  \n\t"));
    assert!(!blank_document("a: 1"));
}

#[test]
fn config_template_mentions_sections() {
    assert!(CONFIG_TEMPLATE.starts_with("# loadout config\n"));
    assert!(CONFIG_TEMPLATE.contains("profile:\n  features:\n"));
    assert!(CONFIG_TEMPLATE.contains("strategy:\n"));
}

#[test]
fn raw_set_parses_structured_values() {
    let doc = raw_set(empty(), "profile.features.local.git", "{}").unwrap();
    let expected = m(vec![("profile", m(vec![("features", m(vec![("local", m(vec![("git", empty())]))]))]))]);
    assert_eq!(show(&doc), show(&expected));
    let doc = raw_set(empty(), "x", "[a, 2, ~]").unwrap();
    let expected = m(vec![("x", YamlValue::Sequence(vec![t("a"), YamlValue::Number("2".to_string()), YamlValue::Null]))]);
    assert_eq!(show(&doc), show(&expected));
    let doc = raw_set(empty(), "x", "!tag v").unwrap();
    let expected = m(vec![("x", YamlValue::Tagged("!tag".to_string(), Box::new(t("v"))))]);
    assert_eq!(show(&doc), show(&expected));
}

#[test]
fn load_document_parses_and_strips() {
    assert_eq!(show(&load_document("  \n").unwrap()), show(&empty()));
    let doc = load_document("profile:\n  features:\nstrategy:\n").unwrap();
    assert_eq!(show(&doc), show(&m(vec![("profile", empty())])));
    let doc = load_document("a: 1\nb: text\n").unwrap();
    assert_eq!(show(&doc), show(&m(vec![("a", YamlValue::Number("1".to_string())), ("b", t("text"))])));
    assert!(load_document("a: [").is_err());
}
