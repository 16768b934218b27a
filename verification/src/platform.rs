//! Platform detection and base directory resolution.
//!
//! The decisions are made here from values handed in by the caller (the
//! environment variables that were read, and whether the binary targets
//! Windows); reading them is left to the caller.
use vstd::prelude::*;
use crate::strmap::StrMap;
use crate::path::{path_join, path_join_exec};

verus! {

/// Host platform.
///
/// WSL is Linux with `WSL_DISTRO_NAME` set; it is treated separately because
/// path conventions (Windows mounts, interop) differ from plain Linux.
#[derive(Debug, Clone, Copy, PartialEq, Eq)]
pub enum Platform {
    Linux,
    Windows,
    Wsl,
}

impl Platform {
    /// Lowercase name used in file name suffixes (e.g. `component.linux.yaml`).
    pub open spec fn name_spec(&self) -> Seq<char> {
        match self {
            Platform::Linux => "linux"@,
            Platform::Windows => "windows"@,
            Platform::Wsl => "wsl"@,
        }
    }

    /// Lowercase string representation used in file name suffixes.
    pub fn as_str(&self) -> (r: &'static str)
        ensures
            r@ == self.name_spec(),
    {
        match self {
            Platform::Linux => "linux",
            Platform::Windows => "windows",
            Platform::Wsl => "wsl",
        }
    }

    /// The platform suffix used in `component.<platform>.yaml` and
    /// `feature.<platform>.yaml` file names.
    pub fn file_suffix(&self) -> (r: &'static str)
        ensures
            r@ == self.name_spec(),
    {
        self.as_str()
    }
}

/// CPU architecture.
#[derive(Debug, Clone, PartialEq, Eq)]
pub enum Arch {
    X86_64,
    Aarch64,
    /// Any architecture not explicitly enumerated.
    Other(String),
}

impl Arch {
    /// The architecture's name.
    pub open spec fn name_spec(&self) -> Seq<char> {
        match self {
            Arch::X86_64 => "x86_64"@,
            Arch::Aarch64 => "aarch64"@,
            Arch::Other(s) => s@,
        }
    }

    /// The architecture's name (`x86_64`, `aarch64`, or the name carried by `Other`).
    pub fn name(&self) -> (r: String)
        ensures
            r@ == self.name_spec(),
    {
        match self {
            Arch::X86_64 => "x86_64".to_owned(),
            Arch::Aarch64 => "aarch64".to_owned(),
            Arch::Other(s) => s.clone(),
        }
    }
}

/// Resolved base directories for a loadout installation.
///
/// All paths include the `loadout` namespace suffix.
#[derive(Debug, Clone, PartialEq, Eq)]
pub struct Dirs {
    /// Configuration home: profile, strategy, sources.yaml.
    pub config_home: String,
    /// Data home: external source caches, backend data.
    pub data_home: String,
    /// State home: authoritative state.json.
    pub state_home: String,
    /// Cache home: ephemeral execution artifacts.
    pub cache_home: String,
}

/// Errors from directory resolution.
#[derive(Debug, Clone, Copy, PartialEq, Eq)]
pub enum PlatformError {
    /// The user home directory could not be determined (`HOME` is absent).
    HomeDirNotFound,
    /// The Windows `APPDATA` environment variable is absent.
    AppDataNotFound,
}

impl PlatformError {
    /// The message of each error.
    pub open spec fn message_spec(&self) -> Seq<char> {
        match self {
            PlatformError::HomeDirNotFound => "home directory not found (HOME is not set)"@,
            PlatformError::AppDataNotFound => "APPDATA directory not found (APPDATA is not set)"@,
        }
    }

    /// The human-readable message.
    pub fn message(&self) -> (r: &'static str)
        ensures
            r@ == self.message_spec(),
    {
        match self {
            PlatformError::HomeDirNotFound => "home directory not found (HOME is not set)",
            PlatformError::AppDataNotFound => "APPDATA directory not found (APPDATA is not set)",
        }
    }
}

/// The platform for an environment: WSL when `WSL_DISTRO_NAME` is set,
/// else Windows for a Windows build, else Linux.
pub open spec fn platform_for(env: Map<Seq<char>, String>, target_is_windows: bool) -> Platform {
    if env.contains_key("WSL_DISTRO_NAME"@) {
        Platform::Wsl
    } else if target_is_windows {
        Platform::Windows
    } else {
        Platform::Linux
    }
}

/// Detect the platform from the environment variables `env` and whether the
/// binary was built for Windows.
pub fn detect_platform_from_env(env: &StrMap<String>, target_is_windows: bool) -> (p: Platform)
    ensures
        p == platform_for(env@, target_is_windows),
{
    if env.contains_key("WSL_DISTRO_NAME") {
        return Platform::Wsl;
    }
    if target_is_windows {
        return Platform::Windows;
    }
    Platform::Linux
}

/// The base for one XDG directory: the variable's value when set, else the
/// fallback below `home`.
pub open spec fn xdg_base(env: Map<Seq<char>, String>, var: Seq<char>, home: Seq<char>, fallback: Seq<char>) -> Seq<char> {
    if env.contains_key(var) {
        env[var]@
    } else {
        path_join(home, fallback)
    }
}

/// The directories a platform resolves to, when the needed variable is set.
pub open spec fn dirs_for(platform: Platform, env: Map<Seq<char>, String>) -> Result<(Seq<char>, Seq<char>, Seq<char>, Seq<char>), PlatformError> {
    match platform {
        Platform::Windows => {
            if env.contains_key("APPDATA"@) {
                let base = path_join(env["APPDATA"@]@, "loadout"@);
                Ok((base, base, base, base))
            } else {
                Err(PlatformError::AppDataNotFound)
            }
        },
        _ => {
            if env.contains_key("HOME"@) {
                let home = env["HOME"@]@;
                Ok((
                    path_join(xdg_base(env, "XDG_CONFIG_HOME"@, home, ".config"@), "loadout"@),
                    path_join(xdg_base(env, "XDG_DATA_HOME"@, home, ".local/share"@), "loadout"@),
                    path_join(xdg_base(env, "XDG_STATE_HOME"@, home, ".local/state"@), "loadout"@),
                    path_join(xdg_base(env, "XDG_CACHE_HOME"@, home, ".cache"@), "loadout"@),
                ))
            } else {
                Err(PlatformError::HomeDirNotFound)
            }
        },
    }
}

/// One XDG base: the variable's value, or `home` joined with `fallback`.
fn xdg_base_exec(env: &StrMap<String>, var: &str, home: &str, fallback: &str) -> (r: String)
    ensures
        r@ == xdg_base(env@, var@, home@, fallback@),
{
    match env.get(var) {
        Some(v) => v.clone(),
        None => path_join_exec(home, fallback),
    }
}

/// Resolve XDG-based directories (Linux / WSL), falling back to
/// `~/.config`, `~/.local/share`, `~/.local/state` and `~/.cache`.
fn resolve_xdg_dirs(env: &StrMap<String>) -> (r: Result<Dirs, PlatformError>)
    ensures
        match (r, dirs_for(Platform::Linux, env@)) {
            (Ok(d), Ok(s)) => d.config_home@ == s.0 && d.data_home@ == s.1 && d.state_home@ == s.2 && d.cache_home@ == s.3,
            (Err(e), Err(f)) => e == f,
            _ => false,
        },
{
    let home = match env.get("HOME") {
        Some(h) => h,
        None => { return Err(PlatformError::HomeDirNotFound); },
    };
    let config_base = xdg_base_exec(env, "XDG_CONFIG_HOME", home.as_str(), ".config");
    let local = path_join_exec(home.as_str(), ".local");
    let data_base = match env.get("XDG_DATA_HOME") {
        Some(v) => v.clone(),
        None => path_join_exec(local.as_str(), "share"),
    };
    let state_base = match env.get("XDG_STATE_HOME") {
        Some(v) => v.clone(),
        None => path_join_exec(local.as_str(), "state"),
    };
    let cache_base = xdg_base_exec(env, "XDG_CACHE_HOME", home.as_str(), ".cache");
    proof {
        let h = home@;
        assert(path_join(path_join(h, ".local"@), "share"@) =~= path_join(h, ".local/share"@)) by {
            reveal_strlit(".local");
            reveal_strlit("share");
            reveal_strlit(".local/share");
            reveal_strlit("/");
        }
        assert(path_join(path_join(h, ".local"@), "state"@) =~= path_join(h, ".local/state"@)) by {
            reveal_strlit(".local");
            reveal_strlit("state");
            reveal_strlit(".local/state");
            reveal_strlit("/");
        }
    }
    Ok(Dirs {
        config_home: path_join_exec(config_base.as_str(), "loadout"),
        data_home: path_join_exec(data_base.as_str(), "loadout"),
        state_home: path_join_exec(state_base.as_str(), "loadout"),
        cache_home: path_join_exec(cache_base.as_str(), "loadout"),
    })
}

/// Resolve AppData-based directories (Windows): all four are `%APPDATA%/loadout`.
fn resolve_appdata_dirs(env: &StrMap<String>) -> (r: Result<Dirs, PlatformError>)
    ensures
        match (r, dirs_for(Platform::Windows, env@)) {
            (Ok(d), Ok(s)) => d.config_home@ == s.0 && d.data_home@ == s.1 && d.state_home@ == s.2 && d.cache_home@ == s.3,
            (Err(e), Err(f)) => e == f,
            _ => false,
        },
{
    let appdata = match env.get("APPDATA") {
        Some(a) => a,
        None => { return Err(PlatformError::AppDataNotFound); },
    };
    let base = path_join_exec(appdata.as_str(), "loadout");
    Ok(Dirs {
        config_home: base.clone(),
        data_home: base.clone(),
        state_home: base.clone(),
        cache_home: base,
    })
}

/// Resolve the loadout base directories for `platform` from the environment
/// variables `env`: XDG variables (with `HOME` fallbacks) on Linux and WSL,
/// `APPDATA` on Windows.
pub fn resolve_dirs_from_env(platform: &Platform, env: &StrMap<String>) -> (r: Result<Dirs, PlatformError>)
    ensures
        match (r, dirs_for(*platform, env@)) {
            (Ok(d), Ok(s)) => d.config_home@ == s.0 && d.data_home@ == s.1 && d.state_home@ == s.2 && d.cache_home@ == s.3,
            (Err(e), Err(f)) => e == f,
            _ => false,
        },
{
    match platform {
        Platform::Linux | Platform::Wsl => resolve_xdg_dirs(env),
        Platform::Windows => resolve_appdata_dirs(env),
    }
}

} // verus!
