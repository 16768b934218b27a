use loadout::fs::FsSourceKind;
use loadout::params::{ParamProperty, ParamType, ParamValue, ParamsSchema, SourceParamValue};
use loadout::params_validator::{validate_and_resolve, ParamsValidationError};
use loadout::strmap::StrMap;

fn map<V>(pairs: Vec<(&str, V)>) -> StrMap<V> {
    let mut m = StrMap::new();
    for (k, v) in pairs {
        m.insert(k.to_string(), v);
    }
    m
}

fn schema_with_version() -> ParamsSchema {
    ParamsSchema {
        properties: map(vec![("version", ParamProperty { param_type: ParamType::String, default: None })]),
        required: vec!["version".to_string()],
        additional_properties: false,
    }
}

fn schema_with_default_version() -> ParamsSchema {
    ParamsSchema {
        properties: map(vec![(
            "version",
            ParamProperty { param_type: ParamType::String, default: Some(ParamValue::String("22.17.1".to_string())) },
        )]),
        required: vec![],
        additional_properties: false,
    }
}

fn enum_schema() -> ParamsSchema {
    ParamsSchema {
        properties: map(vec![(
            "op",
            ParamProperty { param_type: ParamType::Enum { values: vec!["copy".into(), "link".into()] }, default: None },
        )]),
        required: vec!["op".to_string()],
        additional_properties: false,
    }
}

fn object_schema() -> ParamsSchema {
    ParamsSchema {
        properties: map(vec![(
            "source",
            ParamProperty { param_type: ParamType::Object { properties: None }, default: None },
        )]),
        required: vec!["source".to_string()],
        additional_properties: false,
    }
}

#[test]
fn all_required_provided() {
    let schema = schema_with_version();
    let params = map(vec![("version", ParamValue::String("20.0".into()))]);
    let resolved = validate_and_resolve("core/node", Some(&schema), Some(&params)).unwrap();
    assert_eq!(resolved.values.get("version"), Some(&ParamValue::String("20.0".into())));
}

#[test]
fn default_applied_when_omitted() {
    let schema = schema_with_default_version();
    let resolved = validate_and_resolve("core/node", Some(&schema), None).unwrap();
    assert_eq!(resolved.values.get("version"), Some(&ParamValue::String("22.17.1".into())));
}

#[test]
fn no_schema_no_params_ok() {
    let resolved = validate_and_resolve("core/git", None, None).unwrap();
    assert_eq!(resolved.values.len(), 0);
}

#[test]
fn no_schema_empty_params_ok() {
    let resolved = validate_and_resolve("core/git", None, Some(&StrMap::new())).unwrap();
    assert_eq!(resolved.values.len(), 0);
}

#[test]
fn enum_valid_value() {
    let schema = enum_schema();
    let params = map(vec![("op", ParamValue::String("copy".into()))]);
    let resolved = validate_and_resolve("core/git", Some(&schema), Some(&params)).unwrap();
    assert_eq!(resolved.values.get("op"), Some(&ParamValue::String("copy".into())));
}

#[test]
fn object_source_valid() {
    let schema = object_schema();
    let params = map(vec![(
        "source",
        ParamValue::Source(SourceParamValue { kind: FsSourceKind::HomeRelative, path: "~/dotfiles/.gitconfig".into() }),
    )]);
    let resolved = validate_and_resolve("core/git", Some(&schema), Some(&params)).unwrap();
    assert!(matches!(resolved.values.get("source"), Some(ParamValue::Source(_))));
}

#[test]
fn additional_properties_true_passes_extra_keys() {
    let schema = ParamsSchema { properties: StrMap::new(), required: vec![], additional_properties: true };
    let params = map(vec![("custom", ParamValue::String("val".into()))]);
    let resolved = validate_and_resolve("core/x", Some(&schema), Some(&params)).unwrap();
    assert_eq!(resolved.values.get("custom"), Some(&ParamValue::String("val".into())));
}

#[test]
fn array_values_are_copied_whole() {
    let schema = ParamsSchema { properties: StrMap::new(), required: vec![], additional_properties: true };
    let v = ParamValue::Array(vec![ParamValue::String("a".into()), ParamValue::Array(vec![])]);
    let params = map(vec![("xs", v)]);
    let resolved = validate_and_resolve("core/x", Some(&schema), Some(&params)).unwrap();
    assert_eq!(
        resolved.values.get("xs"),
        Some(&ParamValue::Array(vec![ParamValue::String("a".into()), ParamValue::Array(vec![])]))
    );
}

#[test]
fn no_schema_with_params_rejected() {
    let params = map(vec![("version", ParamValue::String("1.0".into()))]);
    let err = validate_and_resolve("core/git", None, Some(&params)).unwrap_err();
    assert!(matches!(err, ParamsValidationError::ParamsNotAccepted { .. }));
    assert_eq!(err.message(), "component 'core/git': params are not accepted (no params_schema declared)");
}

#[test]
fn missing_required_rejected() {
    let schema = schema_with_version();
    let err = validate_and_resolve("core/node", Some(&schema), None).unwrap_err();
    assert!(matches!(err, ParamsValidationError::MissingRequired { ref key, .. } if key == "version"));
    assert_eq!(err.message(), "component 'core/node': required param 'version' is missing");
}

#[test]
fn unknown_key_rejected() {
    let schema = schema_with_version();
    let params = map(vec![
        ("version", ParamValue::String("20".into())),
        ("typo", ParamValue::String("oops".into())),
    ]);
    let err = validate_and_resolve("core/node", Some(&schema), Some(&params)).unwrap_err();
    assert!(matches!(err, ParamsValidationError::UnknownKey { ref key, .. } if key == "typo"));
    assert_eq!(err.message(), "component 'core/node': unknown param 'typo'");
}

#[test]
fn type_mismatch_string_expects_source() {
    let schema = schema_with_version();
    let params = map(vec![(
        "version",
        ParamValue::Source(SourceParamValue { kind: FsSourceKind::Absolute, path: "/a".into() }),
    )]);
    let err = validate_and_resolve("core/node", Some(&schema), Some(&params)).unwrap_err();
    assert!(matches!(err, ParamsValidationError::TypeMismatch { .. }));
    assert_eq!(
        err.message(),
        "component 'core/node': param 'version' type mismatch: expected string, found object (source)"
    );
}

#[test]
fn type_mismatch_object_expects_string() {
    let schema = object_schema();
    let params = map(vec![("source", ParamValue::String("wrong".into()))]);
    let err = validate_and_resolve("core/git", Some(&schema), Some(&params)).unwrap_err();
    assert!(matches!(err, ParamsValidationError::TypeMismatch { .. }));
}

#[test]
fn enum_invalid_value_rejected() {
    let schema = enum_schema();
    let params = map(vec![("op", ParamValue::String("move".into()))]);
    let err = validate_and_resolve("core/git", Some(&schema), Some(&params)).unwrap_err();
    assert!(matches!(err, ParamsValidationError::InvalidEnumValue { ref value, .. } if value == "move"));
    assert_eq!(
        err.message(),
        "component 'core/git': param 'op' value 'move' is not in allowed values: [\"copy\", \"link\"]"
    );
}

#[test]
fn default_overridden_by_explicit_value() {
    let schema = schema_with_default_version();
    let params = map(vec![("version", ParamValue::String("18.0".into()))]);
    let resolved = validate_and_resolve("core/node", Some(&schema), Some(&params)).unwrap();
    assert_eq!(
        resolved.values.get("version"),
        Some(&ParamValue::String("18.0".into())),
        "explicit value must override default"
    );
}
