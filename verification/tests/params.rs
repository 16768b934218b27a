use loadout::component_index::{FsOp, SpecFsEntryType, SpecResource, SpecResourceKind};
use loadout::fs::FsSourceKind;
use loadout::params::{ParamValue, ResolvedParams, SourceParamValue};
use loadout::params_materializer::{materialize, materialize_within, MaterializeError};
use loadout::strmap::StrMap;
use loadout::tool::{OneOf, ToolIdentityVerify, ToolVerifyContract, ToolVersionVerify, VersionParseRule};

fn resolved(entries: Vec<(&str, ParamValue)>) -> ResolvedParams {
    let mut values = StrMap::new();
    for (k, v) in entries {
        values.insert(k.to_string(), v);
    }
    ResolvedParams { values }
}

fn runtime(version: &str) -> Vec<SpecResource> {
    vec![SpecResource {
        id: "rt:node".into(),
        kind: SpecResourceKind::Runtime { name: "node".into(), version: version.into() },
        for_each: None,
    }]
}

fn runtime_version(r: &SpecResource) -> String {
    match &r.kind {
        SpecResourceKind::Runtime { version, .. } => version.clone(),
        _ => panic!("expected Runtime"),
    }
}

#[test]
fn runtime_version_resolved() {
    let resources = runtime("${params.version}");
    let params = resolved(vec![("version", ParamValue::String("22.17.1".into()))]);
    let mat = materialize("core/node", &resources, &params).unwrap();
    assert_eq!(mat.resources.len(), 1);
    assert_eq!(runtime_version(&mat.resources[0]), "22.17.1");
}

#[test]
fn fs_path_resolved() {
    let resources = vec![SpecResource {
        id: "fs:gitconfig".into(),
        kind: SpecResourceKind::Fs {
            source: None,
            path: "${params.path}".into(),
            entry_type: SpecFsEntryType::File,
            op: FsOp::Link,
        },
        for_each: None,
    }];
    let params = resolved(vec![("path", ParamValue::String("~/.gitconfig".into()))]);
    let mat = materialize("core/git", &resources, &params).unwrap();
    match &mat.resources[0].kind {
        SpecResourceKind::Fs { path, .. } => assert_eq!(path, "~/.gitconfig"),
        _ => panic!("expected Fs"),
    }
}

#[test]
fn literal_values_pass_through() {
    let resources = vec![SpecResource {
        id: "pkg:jq".into(),
        kind: SpecResourceKind::Package { name: "jq".into(), version: None },
        for_each: None,
    }];
    let params = ResolvedParams::default();
    let mat = materialize("core/jq", &resources, &params).unwrap();
    match &mat.resources[0].kind {
        SpecResourceKind::Package { name, .. } => assert_eq!(name, "jq"),
        _ => panic!("expected Package"),
    }
}

#[test]
fn runtime_literal_version_passes_through() {
    let resources = vec![SpecResource {
        id: "rt:python".into(),
        kind: SpecResourceKind::Runtime { name: "python".into(), version: "3.12".into() },
        for_each: None,
    }];
    let params = ResolvedParams::default();
    let mat = materialize("core/python", &resources, &params).unwrap();
    assert_eq!(runtime_version(&mat.resources[0]), "3.12");
}

#[test]
fn embedded_param_in_string() {
    let resources = runtime("v${params.version}-lts");
    let params = resolved(vec![("version", ParamValue::String("20".into()))]);
    let mat = materialize("core/node", &resources, &params).unwrap();
    assert_eq!(runtime_version(&mat.resources[0]), "v20-lts");
}

#[test]
fn multiple_params_in_one_field() {
    let resources = runtime("${params.major}.${params.minor}");
    let params = resolved(vec![
        ("major", ParamValue::String("22".into())),
        ("minor", ParamValue::String("17".into())),
    ]);
    let mat = materialize("core/node", &resources, &params).unwrap();
    assert_eq!(runtime_version(&mat.resources[0]), "22.17");
}

#[test]
fn fs_source_string_resolved() {
    let resources = vec![SpecResource {
        id: "fs:gitconfig".into(),
        kind: SpecResourceKind::Fs {
            source: Some("${params.source_path}".into()),
            path: "~/.gitconfig".into(),
            entry_type: SpecFsEntryType::File,
            op: FsOp::Link,
        },
        for_each: None,
    }];
    let params = resolved(vec![("source_path", ParamValue::String("files/custom.conf".into()))]);
    let mat = materialize("core/git", &resources, &params).unwrap();
    match &mat.resources[0].kind {
        SpecResourceKind::Fs { source, .. } => assert_eq!(source.as_deref(), Some("files/custom.conf")),
        _ => panic!("expected Fs"),
    }
}

#[test]
fn unresolved_param_error() {
    let resources = runtime("${params.version}");
    let params = ResolvedParams::default();
    let err = materialize("core/node", &resources, &params).unwrap_err();
    assert!(matches!(err, MaterializeError::UnresolvedParam { ref key, .. } if key == "version"));
    assert_eq!(
        err.message(),
        "component 'core/node': resource 'rt:node' field 'version' references unresolved param 'version'"
    );
}

#[test]
fn source_value_in_string_field_error() {
    let resources = runtime("${params.src}");
    let params = resolved(vec![(
        "src",
        ParamValue::Source(SourceParamValue { kind: FsSourceKind::HomeRelative, path: "~/x".into() }),
    )]);
    let err = materialize("core/node", &resources, &params).unwrap_err();
    assert!(matches!(err, MaterializeError::InvalidParamValue { .. }));
    assert_eq!(
        err.message(),
        "component 'core/node': resource 'rt:node' field 'version': param 'src' is a source object but field 'version' expects a string"
    );
}

#[test]
fn array_value_in_string_field_error() {
    let resources = runtime("${params.vs}");
    let params = resolved(vec![("vs", ParamValue::Array(vec![]))]);
    let err = materialize("core/node", &resources, &params).unwrap_err();
    assert_eq!(
        err.message(),
        "component 'core/node': resource 'rt:node' field 'version': param 'vs' is an array; use for_each to expand over an array"
    );
}

#[test]
fn unclosed_template_error() {
    let resources = runtime("${params.version");
    let params = resolved(vec![("version", ParamValue::String("20".into()))]);
    let err = materialize("core/node", &resources, &params).unwrap_err();
    assert!(matches!(err, MaterializeError::InvalidParamValue { .. }));
}

#[test]
fn unclosed_template_reports_byte_position() {
    let resources = runtime("é-${params.a}-${params.b");
    let params = resolved(vec![("a", ParamValue::String("xyz".into()))]);
    let err = materialize("core/node", &resources, &params).unwrap_err();
    match err {
        MaterializeError::InvalidParamValue { reason, .. } => {
            assert_eq!(reason, "malformed template reference: unclosed '{' at position 7")
        }
        _ => panic!("expected InvalidParamValue"),
    }
}

#[test]
fn empty_params_no_templates_ok() {
    let resources = vec![
        SpecResource {
            id: "pkg:git".into(),
            kind: SpecResourceKind::Package { name: "git".into(), version: None },
            for_each: None,
        },
        SpecResource {
            id: "rt:python".into(),
            kind: SpecResourceKind::Runtime { name: "python".into(), version: "3.12".into() },
            for_each: None,
        },
    ];
    let params = ResolvedParams::default();
    let mat = materialize("core/git", &resources, &params).unwrap();
    assert_eq!(mat.resources.len(), 2);
}

#[test]
fn resolved_params_default_is_empty() {
    let rp = ResolvedParams::default();
    assert_eq!(rp.values.len(), 0);
}

#[test]
fn materialized_component_spec_holds_resources() {
    let spec = loadout::params::MaterializedComponentSpec {
        resources: vec![SpecResource {
            id: "rt:node".to_string(),
            kind: SpecResourceKind::Runtime { name: "node".to_string(), version: "22.17.1".to_string() },
            for_each: None,
        }],
    };
    assert_eq!(spec.resources.len(), 1);
}

#[test]
fn package_version_resolved() {
    let resources = vec![SpecResource {
        id: "pkg:git".into(),
        kind: SpecResourceKind::Package { name: "git".into(), version: Some("${params.v}".into()) },
        for_each: None,
    }];
    let params = resolved(vec![("v", ParamValue::String("2.40".into()))]);
    let mat = materialize("core/git", &resources, &params).unwrap();
    match &mat.resources[0].kind {
        SpecResourceKind::Package { name, version } => {
            assert_eq!(name, "git");
            assert_eq!(version.as_deref(), Some("2.40"));
        }
        _ => panic!("expected Package"),
    }
}

#[test]
fn tool_fields_resolved() {
    let resources = vec![SpecResource {
        id: "tool:rg".into(),
        kind: SpecResourceKind::Tool {
            name: "rg".into(),
            verify: ToolVerifyContract {
                identity: ToolIdentityVerify::ResolvedCommand {
                    command: "rg".into(),
                    expected_path: OneOf { one_of: vec!["${params.bin}/rg".into(), "/usr/bin/rg".into()] },
                },
                version: Some(ToolVersionVerify {
                    command: "rg".into(),
                    args: vec!["--version".into()],
                    parse: VersionParseRule { first_line_regex: "ripgrep (\\S+)".into() },
                    constraint: Some(">=${params.min}".into()),
                }),
            },
        },
        for_each: None,
    }];
    let params = resolved(vec![
        ("bin", ParamValue::String("/opt/bin".into())),
        ("min", ParamValue::String("14".into())),
    ]);
    let mat = materialize("core/rg", &resources, &params).unwrap();
    match &mat.resources[0].kind {
        SpecResourceKind::Tool { name, verify } => {
            assert_eq!(name, "rg");
            match &verify.identity {
                ToolIdentityVerify::ResolvedCommand { command, expected_path } => {
                    assert_eq!(command, "rg");
                    assert_eq!(expected_path.one_of, vec!["/opt/bin/rg".to_string(), "/usr/bin/rg".to_string()]);
                }
                _ => panic!("expected ResolvedCommand"),
            }
            let v = verify.version.as_ref().unwrap();
            assert_eq!(v.args, vec!["--version".to_string()]);
            assert_eq!(v.parse.first_line_regex, "ripgrep (\\S+)");
            assert_eq!(v.constraint.as_deref(), Some(">=14"));
        }
        _ => panic!("expected Tool"),
    }
}

#[test]
fn tool_field_unresolved_names_the_field() {
    let resources = vec![SpecResource {
        id: "tool:x".into(),
        kind: SpecResourceKind::Tool {
            name: "x".into(),
            verify: ToolVerifyContract {
                identity: ToolIdentityVerify::File { path: "${params.dir}/x".into(), executable: true },
                version: None,
            },
        },
        for_each: None,
    }];
    let err = materialize("core/x", &resources, &ResolvedParams::default()).unwrap_err();
    assert_eq!(
        err.message(),
        "component 'core/x': resource 'tool:x' field 'verify.identity.path' references unresolved param 'dir'"
    );
}

#[test]
fn param_value_holding_a_reference_is_resolved_too() {
    let resources = runtime("${params.a}");
    let params = resolved(vec![
        ("a", ParamValue::String("v${params.b}".into())),
        ("b", ParamValue::String("7".into())),
    ]);
    let mat = materialize("core/node", &resources, &params).unwrap();
    assert_eq!(runtime_version(&mat.resources[0]), "v7");
}

#[test]
fn runtime_name_resolved() {
    let resources = vec![SpecResource {
        id: "rt:x".into(),
        kind: SpecResourceKind::Runtime { name: "${params.rt}".into(), version: "1".into() },
        for_each: None,
    }];
    let params = resolved(vec![("rt", ParamValue::String("node".into()))]);
    let mat = materialize("core/x", &resources, &params).unwrap();
    match &mat.resources[0].kind {
        SpecResourceKind::Runtime { name, version } => {
            assert_eq!(name, "node");
            assert_eq!(version, "1");
        }
        _ => panic!("expected Runtime"),
    }
}

#[test]
fn materialize_within_refuses_a_param_that_leads_back_to_itself() {
    let resources = runtime("${params.x}");
    let params = resolved(vec![("x", ParamValue::String("v${params.x}".into()))]);
    assert!(materialize_within("core/node", &resources, &params, 100).is_none());
}

#[test]
fn materialize_within_gives_what_materialize_gives() {
    let resources = runtime("${params.a}");
    let params = resolved(vec![
        ("a", ParamValue::String("v${params.b}".into())),
        ("b", ParamValue::String("7".into())),
    ]);
    let mat = materialize_within("core/node", &resources, &params, 2).unwrap().unwrap();
    assert_eq!(runtime_version(&mat.resources[0]), "v7");
    // Two replacements are needed: one is not enough.
    assert!(materialize_within("core/node", &resources, &params, 1).is_none());
    let err = materialize_within("core/node", &runtime("${params.missing}"), &params, 2).unwrap().unwrap_err();
    assert!(matches!(err, MaterializeError::UnresolvedParam { .. }));
}

#[test]
fn materialize_within_stops_looking_after_a_failing_resource() {
    // The second resource would loop forever, but the first one fails before it is reached.
    let mut resources = runtime("${params.missing}");
    resources.extend(runtime("${params.x}"));
    let params = resolved(vec![("x", ParamValue::String("${params.x}".into()))]);
    let r = materialize_within("core/node", &resources, &params, 10).unwrap();
    assert!(matches!(r, Err(MaterializeError::UnresolvedParam { .. })));
}
