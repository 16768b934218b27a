use loadout::env::{EnvEvidence, EnvMutation, ExecutionEnvContext, ExecutionEnvDelta, PathEntry};
use loadout::platform::{detect_platform_from_env, resolve_dirs_from_env, Arch, Platform, PlatformError};
use loadout::strmap::StrMap;

fn linux() -> Platform {
    Platform::Linux
}
fn windows() -> Platform {
    Platform::Windows
}
fn pe(s: &str) -> PathEntry {
    PathEntry::new(s)
}

fn set_delta(key: &str, value: &str) -> ExecutionEnvDelta {
    ExecutionEnvDelta {
        mutations: vec![EnvMutation::SetVar { key: key.into(), value: value.into() }],
        evidence: EnvEvidence::StaticDefault,
    }
}

fn prepend_delta(key: &str, entries: Vec<PathEntry>) -> ExecutionEnvDelta {
    ExecutionEnvDelta {
        mutations: vec![EnvMutation::PrependPath { key: key.into(), entries }],
        evidence: EnvEvidence::StaticDefault,
    }
}

fn append_delta(key: &str, entries: Vec<PathEntry>) -> ExecutionEnvDelta {
    ExecutionEnvDelta {
        mutations: vec![EnvMutation::AppendPath { key: key.into(), entries }],
        evidence: EnvEvidence::StaticDefault,
    }
}

fn remove_delta(key: &str, entries: Vec<PathEntry>) -> ExecutionEnvDelta {
    ExecutionEnvDelta {
        mutations: vec![EnvMutation::RemovePath { key: key.into(), entries }],
        evidence: EnvEvidence::StaticDefault,
    }
}

fn var(ctx: &ExecutionEnvContext, k: &str) -> String {
    ctx.vars.get(k).unwrap().clone()
}

#[test]
fn normalize_strips_trailing_forward_slash() {
    assert_eq!(pe("/usr/bin/").normalize(), "/usr/bin");
    assert_eq!(pe("/usr/bin").normalize(), "/usr/bin");
}

#[test]
fn normalize_strips_trailing_backslash() {
    assert_eq!(pe("C:\\Windows\\").normalize(), "C:\\Windows");
}

#[test]
fn set_inserts_new_variable() {
    let mut ctx = ExecutionEnvContext::new();
    ctx.merge(&set_delta("FOO", "bar"), linux());
    assert_eq!(var(&ctx, "FOO"), "bar");
}

#[test]
fn set_overwrites_previous_value() {
    let mut ctx = ExecutionEnvContext::new();
    ctx.merge(&set_delta("FOO", "first"), linux());
    ctx.merge(&set_delta("FOO", "second"), linux());
    assert_eq!(var(&ctx, "FOO"), "second");
}

#[test]
fn unset_removes_existing_variable() {
    let mut ctx = ExecutionEnvContext::new();
    ctx.vars.insert("FOO".into(), "bar".into());
    ctx.merge(
        &ExecutionEnvDelta {
            mutations: vec![EnvMutation::Unset { key: "FOO".into() }],
            evidence: EnvEvidence::StaticDefault,
        },
        linux(),
    );
    assert!(!ctx.vars.contains_key("FOO"));
}

#[test]
fn unset_is_noop_when_absent() {
    let mut ctx = ExecutionEnvContext::new();
    ctx.merge(
        &ExecutionEnvDelta {
            mutations: vec![EnvMutation::Unset { key: "FOO".into() }],
            evidence: EnvEvidence::StaticDefault,
        },
        linux(),
    );
    assert_eq!(ctx.vars.len(), 0);
}

#[test]
fn prepend_to_empty_path() {
    let mut ctx = ExecutionEnvContext::new();
    ctx.merge(&prepend_delta("PATH", vec![pe("/usr/local/bin"), pe("/opt/bin")]), linux());
    assert_eq!(var(&ctx, "PATH"), "/usr/local/bin:/opt/bin");
}

#[test]
fn prepend_goes_before_existing() {
    let mut ctx = ExecutionEnvContext::new();
    ctx.vars.insert("PATH".into(), "/usr/bin:/bin".into());
    ctx.merge(&prepend_delta("PATH", vec![pe("/opt/brew/bin")]), linux());
    assert_eq!(var(&ctx, "PATH"), "/opt/brew/bin:/usr/bin:/bin");
}

#[test]
fn prepend_deduplicates_trailing_slash() {
    let mut ctx = ExecutionEnvContext::new();
    ctx.vars.insert("PATH".into(), "/opt/brew/bin:/usr/bin".into());
    ctx.merge(&prepend_delta("PATH", vec![pe("/opt/brew/bin/")]), linux());
    let v = var(&ctx, "PATH");
    let parts: Vec<&str> = v.split(':').collect();
    let count = parts.iter().filter(|&&p| p.trim_end_matches('/') == "/opt/brew/bin").count();
    assert_eq!(count, 1, "duplicate entry must be collapsed");
}

#[test]
fn append_goes_after_existing() {
    let mut ctx = ExecutionEnvContext::new();
    ctx.vars.insert("PATH".into(), "/usr/bin".into());
    ctx.merge(&append_delta("PATH", vec![pe("/opt/extra/bin")]), linux());
    assert_eq!(var(&ctx, "PATH"), "/usr/bin:/opt/extra/bin");
}

#[test]
fn append_deduplicates_existing() {
    let mut ctx = ExecutionEnvContext::new();
    ctx.vars.insert("PATH".into(), "/usr/bin:/opt/extra".into());
    ctx.merge(&append_delta("PATH", vec![pe("/opt/extra")]), linux());
    assert_eq!(var(&ctx, "PATH"), "/usr/bin:/opt/extra");
}

#[test]
fn remove_path_removes_matching_entry() {
    let mut ctx = ExecutionEnvContext::new();
    ctx.vars.insert("PATH".into(), "/usr/bin:/opt/brew/bin:/bin".into());
    ctx.merge(&remove_delta("PATH", vec![pe("/opt/brew/bin")]), linux());
    assert_eq!(var(&ctx, "PATH"), "/usr/bin:/bin");
}

#[test]
fn remove_path_normalizes_trailing_slash() {
    let mut ctx = ExecutionEnvContext::new();
    ctx.vars.insert("PATH".into(), "/opt/brew/bin:/usr/bin".into());
    ctx.merge(&remove_delta("PATH", vec![pe("/opt/brew/bin/")]), linux());
    assert_eq!(var(&ctx, "PATH"), "/usr/bin");
}

#[test]
fn remove_all_entries_drops_key() {
    let mut ctx = ExecutionEnvContext::new();
    ctx.vars.insert("PATH".into(), "/only/path".into());
    ctx.merge(&remove_delta("PATH", vec![pe("/only/path")]), linux());
    assert!(!ctx.vars.contains_key("PATH"));
}

#[test]
fn remove_path_on_unset_variable_is_noop() {
    let mut ctx = ExecutionEnvContext::new();
    ctx.merge(&remove_delta("PATH", vec![pe("/x")]), linux());
    assert!(!ctx.vars.contains_key("PATH"));
}

#[test]
fn windows_uses_semicolon_separator() {
    let mut ctx = ExecutionEnvContext::new();
    ctx.merge(&prepend_delta("PATH", vec![pe("C:\\tools\\bin"), pe("C:\\more")]), windows());
    assert_eq!(var(&ctx, "PATH"), "C:\\tools\\bin;C:\\more");
}

#[test]
fn windows_path_comparison_is_case_insensitive() {
    let mut ctx = ExecutionEnvContext::new();
    ctx.vars.insert("PATH".into(), "C:\\Windows".into());
    ctx.merge(&prepend_delta("PATH", vec![pe("C:\\WINDOWS")]), windows());
    let v = var(&ctx, "PATH");
    let parts: Vec<&str> = v.split(';').collect();
    assert_eq!(parts.len(), 1, "case-insensitive duplicate must be collapsed");
}

#[test]
fn linux_path_comparison_is_case_sensitive() {
    let mut ctx = ExecutionEnvContext::new();
    ctx.vars.insert("PATH".into(), "/Opt".into());
    ctx.merge(&prepend_delta("PATH", vec![pe("/opt"), pe("/opt/")]), linux());
    assert_eq!(var(&ctx, "PATH"), "/opt:/Opt");
}

#[test]
fn to_plan_mirrors_current_vars() {
    let mut ctx = ExecutionEnvContext::new();
    ctx.vars.insert("FOO".into(), "bar".into());
    let plan = ctx.to_plan();
    assert_eq!(plan.vars.get("FOO").unwrap(), "bar");
}

#[test]
fn multiple_mutations_applied_in_order() {
    let mut ctx = ExecutionEnvContext::new();
    let delta = ExecutionEnvDelta {
        mutations: vec![
            EnvMutation::SetVar { key: "FOO".into(), value: "a".into() },
            EnvMutation::PrependPath { key: "PATH".into(), entries: vec![pe("/opt/bin")] },
            EnvMutation::SetVar { key: "FOO".into(), value: "b".into() },
        ],
        evidence: EnvEvidence::Probed { command: "brew --prefix".into() },
    };
    ctx.merge(&delta, linux());
    assert_eq!(var(&ctx, "FOO"), "b");
    assert_eq!(var(&ctx, "PATH"), "/opt/bin");
}

#[test]
fn empty_delta_changes_nothing() {
    let mut ctx = ExecutionEnvContext::new();
    ctx.vars.insert("A".into(), "1".into());
    ctx.merge(&ExecutionEnvDelta::empty(), linux());
    assert_eq!(ctx.vars.len(), 1);
    assert_eq!(var(&ctx, "A"), "1");
}

// --- platform ---

fn env_map(pairs: &[(&str, &str)]) -> StrMap<String> {
    let mut m = StrMap::new();
    for (k, v) in pairs {
        m.insert(k.to_string(), v.to_string());
    }
    m
}

#[test]
fn detect_wsl_when_distro_name_set() {
    let p = detect_platform_from_env(&env_map(&[("WSL_DISTRO_NAME", "Ubuntu")]), false);
    assert_eq!(p, Platform::Wsl);
}

#[test]
fn detect_linux_when_no_wsl_var() {
    // A Linux build (the test host) without WSL_DISTRO_NAME is Linux.
    let p = detect_platform_from_env(&env_map(&[]), false);
    assert_eq!(p, Platform::Linux);
}

#[test]
fn wsl_takes_priority_over_linux_cfg() {
    let p = detect_platform_from_env(&env_map(&[("WSL_DISTRO_NAME", "Debian")]), false);
    assert_eq!(p, Platform::Wsl);
}

#[test]
fn windows_target_without_wsl_var_is_windows() {
    assert_eq!(detect_platform_from_env(&env_map(&[]), true), Platform::Windows);
}

#[test]
fn platform_as_str() {
    assert_eq!(Platform::Linux.as_str(), "linux");
    assert_eq!(Platform::Windows.as_str(), "windows");
    assert_eq!(Platform::Wsl.as_str(), "wsl");
}

#[test]
fn platform_display() {
    assert_eq!(Platform::Linux.as_str().to_string(), "linux");
    assert_eq!(Platform::Wsl.as_str().to_string(), "wsl");
}

#[test]
fn arch_display() {
    assert_eq!(Arch::X86_64.name(), "x86_64");
    assert_eq!(Arch::Aarch64.name(), "aarch64");
    assert_eq!(Arch::Other("riscv64".to_string()).name(), "riscv64");
}

#[test]
fn xdg_uses_defaults_when_vars_absent() {
    let dirs = resolve_dirs_from_env(&Platform::Linux, &env_map(&[("HOME", "/home/user")])).unwrap();
    assert_eq!(dirs.config_home, "/home/user/.config/loadout");
    assert_eq!(dirs.data_home, "/home/user/.local/share/loadout");
    assert_eq!(dirs.state_home, "/home/user/.local/state/loadout");
    assert_eq!(dirs.cache_home, "/home/user/.cache/loadout");
}

#[test]
fn xdg_uses_override_vars_when_set() {
    let dirs = resolve_dirs_from_env(
        &Platform::Linux,
        &env_map(&[
            ("HOME", "/home/user"),
            ("XDG_CONFIG_HOME", "/custom/cfg"),
            ("XDG_DATA_HOME", "/custom/data"),
            ("XDG_STATE_HOME", "/custom/state"),
            ("XDG_CACHE_HOME", "/custom/cache"),
        ]),
    )
    .unwrap();
    assert_eq!(dirs.config_home, "/custom/cfg/loadout");
    assert_eq!(dirs.data_home, "/custom/data/loadout");
    assert_eq!(dirs.state_home, "/custom/state/loadout");
    assert_eq!(dirs.cache_home, "/custom/cache/loadout");
}

#[test]
fn xdg_partial_override_falls_back_for_missing() {
    let dirs = resolve_dirs_from_env(
        &Platform::Linux,
        &env_map(&[("HOME", "/home/user"), ("XDG_CONFIG_HOME", "/custom/cfg")]),
    )
    .unwrap();
    assert_eq!(dirs.config_home, "/custom/cfg/loadout");
    assert_eq!(dirs.data_home, "/home/user/.local/share/loadout");
    assert_eq!(dirs.state_home, "/home/user/.local/state/loadout");
    assert_eq!(dirs.cache_home, "/home/user/.cache/loadout");
}

#[test]
fn xdg_missing_home_returns_error() {
    let err = resolve_dirs_from_env(&Platform::Linux, &env_map(&[])).unwrap_err();
    assert!(matches!(err, PlatformError::HomeDirNotFound));
    assert_eq!(err.message(), "home directory not found (HOME is not set)");
}

#[test]
fn wsl_uses_same_xdg_logic() {
    let dirs = resolve_dirs_from_env(&Platform::Wsl, &env_map(&[("HOME", "/home/wsluser")])).unwrap();
    assert_eq!(dirs.config_home, "/home/wsluser/.config/loadout");
    assert_eq!(dirs.cache_home, "/home/wsluser/.cache/loadout");
}

#[test]
fn appdata_sets_all_four_to_same_base() {
    let dirs = resolve_dirs_from_env(
        &Platform::Windows,
        &env_map(&[("APPDATA", r"C:\Users\user\AppData\Roaming")]),
    )
    .unwrap();
    let expected = std::path::PathBuf::from(r"C:\Users\user\AppData\Roaming").join("loadout");
    let expected = expected.to_str().unwrap();
    assert_eq!(dirs.config_home, expected);
    assert_eq!(dirs.data_home, expected);
    assert_eq!(dirs.state_home, expected);
    assert_eq!(dirs.cache_home, expected);
}

#[test]
fn appdata_missing_returns_error() {
    let err = resolve_dirs_from_env(&Platform::Windows, &env_map(&[])).unwrap_err();
    assert!(matches!(err, PlatformError::AppDataNotFound));
    assert_eq!(err.message(), "APPDATA directory not found (APPDATA is not set)");
}

#[test]
fn all_dirs_end_with_loadout() {
    let dirs = resolve_dirs_from_env(&Platform::Linux, &env_map(&[("HOME", "/home/u")])).unwrap();
    for path in [&dirs.config_home, &dirs.data_home, &dirs.state_home, &dirs.cache_home] {
        assert_eq!(
            std::path::Path::new(path).file_name().and_then(|n| n.to_str()),
            Some("loadout"),
            "{path:?} should end with 'loadout'"
        );
    }
}
