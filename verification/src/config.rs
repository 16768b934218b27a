//! Configuration validation and normalization.
//!
//! Profiles use namespace grouping (`source_id: { name: config }`), expanded
//! to canonical `source_id/name` ids; bundles supply reusable component sets
//! merged in `use` order under the profile; imported config files are merged
//! before the importing file, which always wins. Strategies and source
//! declarations are validated here, and `type: path` sources are resolved to
//! absolute paths. Reading files and walking imports on disk is the
//! caller's part.
use vstd::prelude::*;
use crate::fs::FsSourceKind;
use crate::params::{ParamValue, SourceParamValue};
use crate::path::{is_abs, is_abs_exec, path_join, path_join_exec, render_path};
use crate::profile::{Profile, ProfileComponentConfig};
use crate::sources::{AllowList, AllowSpec, SourceEntry, SourceType, SourcesSpec};
use crate::strategy::{MatchKind, Strategy, StrategyGroup};
use crate::strmap::StrMap;
use crate::text::{chars_of, concat2, concat3, concat_all, concat_seq, decimal, decimal_string, eq_str, join_strings, join_with, split_nonempty, split_nonempty_exec};

verus! {

// ---------------------------------------------------------------------------
// Errors
// ---------------------------------------------------------------------------

/// Errors produced by configuration loading or validation.
#[derive(Debug, Clone, PartialEq)]
pub enum ConfigError {
    /// Reading, parsing or writing a file failed (the message of the failure).
    Io { message: String },
    InvalidProfile { reason: String },
    InvalidStrategy { reason: String },
    InvalidSources { reason: String },
    AlreadyExists { path: String },
    ImportCycle { chain: String },
    ImportDepthExceeded { limit: usize, path: String },
    ImportNotFound { path: String, from: String },
    ImportAbsolutePath { path: String },
}

/// The message of a configuration error.
pub open spec fn config_error_message(e: ConfigError) -> Seq<char> {
    match e {
        ConfigError::Io { message } => "I/O error: "@ + message@,
        ConfigError::InvalidProfile { reason } => "invalid profile: "@ + reason@,
        ConfigError::InvalidStrategy { reason } => "invalid strategy: "@ + reason@,
        ConfigError::InvalidSources { reason } => "invalid sources: "@ + reason@,
        ConfigError::AlreadyExists { path } => "config file already exists: "@ + path@,
        ConfigError::ImportCycle { chain } => "import cycle detected: "@ + chain@,
        ConfigError::ImportDepthExceeded { limit, path } =>
            "import depth limit ("@ + decimal(limit as nat) + ") exceeded at: "@ + path@,
        ConfigError::ImportNotFound { path, from } =>
            "imported config not found: "@ + path@ + " (referenced from "@ + from@ + ")"@,
        ConfigError::ImportAbsolutePath { path } => "absolute import paths are not allowed: "@ + path@,
    }
}

impl ConfigError {
    /// The human-readable message.
    pub fn message(&self) -> (r: String)
        ensures
            r@ == config_error_message(*self),
    {
        match self {
            ConfigError::Io { message } => concat2("I/O error: ", message.as_str()),
            ConfigError::InvalidProfile { reason } => concat2("invalid profile: ", reason.as_str()),
            ConfigError::InvalidStrategy { reason } => concat2("invalid strategy: ", reason.as_str()),
            ConfigError::InvalidSources { reason } => concat2("invalid sources: ", reason.as_str()),
            ConfigError::AlreadyExists { path } => concat2("config file already exists: ", path.as_str()),
            ConfigError::ImportCycle { chain } => concat2("import cycle detected: ", chain.as_str()),
            ConfigError::ImportDepthExceeded { limit, path } => {
                let n = decimal_string(*limit as u128);
                let parts = vec!["import depth limit (", n.as_str(), ") exceeded at: ", path.as_str()];
                let r = concat_all(&parts);
                proof {
                    reveal_with_fuel(concat_seq, 5);
                    assert(parts@.map_values(|p: &str| p@) =~= seq!["import depth limit ("@, n@, ") exceeded at: "@, path@]);
                }
                r
            },
            ConfigError::ImportNotFound { path, from } => {
                let parts = vec!["imported config not found: ", path.as_str(), " (referenced from ", from.as_str(), ")"];
                let r = concat_all(&parts);
                proof {
                    reveal_with_fuel(concat_seq, 6);
                    assert(parts@.map_values(|p: &str| p@) =~= seq!["imported config not found: "@, path@, " (referenced from "@,
                        from@, ")"@]);
                }
                r
            },
            ConfigError::ImportAbsolutePath { path } => concat2("absolute import paths are not allowed: ", path.as_str()),
        }
    }
}

// ---------------------------------------------------------------------------
// Strategy validation
// ---------------------------------------------------------------------------

/// Whether `k` is a permitted group kind key.
pub open spec fn is_group_kind(k: Seq<char>) -> bool {
    k == "package"@ || k == "runtime"@
}

/// Whether kind key `j` of `g` is not permitted.
pub open spec fn bad_kind_pred(g: StrategyGroup) -> spec_fn(int) -> bool {
    |j: int| !is_group_kind(g.0.keys()[j])
}

/// The first (in ascending key order) kind key of `g` that is not permitted.
pub open spec fn bad_kind_of(g: StrategyGroup) -> Option<int> {
    crate::text::first_where(g.0.keys().len(), bad_kind_pred(g))
}

/// Whether group `i` of `s` has a kind key that is not permitted.
pub open spec fn bad_group_pred(s: &Strategy) -> spec_fn(int) -> bool {
    |i: int| bad_kind_of(s.groups.vals()[i]) is Some
}

/// The first group (ascending name order) with a kind key that is not permitted.
pub open spec fn bad_group(s: &Strategy) -> Option<int> {
    crate::text::first_where(s.groups.keys().len(), bad_group_pred(s))
}

/// Why rule `i` of `s` is invalid, if it is: empty backend; component without
/// kind; group without kind; undefined group; runtime rule on a group with no
/// runtime entries.
pub open spec fn rule_problem(s: &Strategy, i: int) -> Option<Seq<char>> {
    let rule = s.rules@[i];
    let sel = rule.selector;
    let ix = decimal(i as nat);
    if rule.use_backend@.len() == 0 {
        Some("rules["@ + ix + "].use must not be empty"@)
    } else if sel.component is Some && sel.kind is None {
        Some("rules["@ + ix + "]: component-only rule is forbidden because it matches multiple resource kinds; add 'kind' alongside 'component'"@)
    } else if sel.group is Some && sel.kind is None {
        Some("rules["@ + ix + "]: 'group' requires 'kind' to be present; a group-only rule has lower specificity than a kind-only rule and can never be selected"@)
    } else if sel.group is Some && !s.groups@.contains_key(sel.group->0@) {
        Some("rules["@ + ix + "]: group '"@ + sel.group->0@ + "' is not defined in 'groups'"@)
    } else if sel.group is Some && sel.kind == Some(MatchKind::Runtime)
        && !s.groups@[sel.group->0@].0@.contains_key("runtime"@) {
        Some("rules["@ + ix + "]: match.kind is 'runtime' but group '"@ + sel.group->0@ + "' has no 'runtime' entries"@)
    } else {
        None
    }
}

/// Whether rule `i` of `s` is invalid.
pub open spec fn bad_rule_pred(s: &Strategy) -> spec_fn(int) -> bool {
    |i: int| rule_problem(s, i) is Some
}

/// The first invalid rule of `s`.
pub open spec fn bad_rule(s: &Strategy) -> Option<int> {
    crate::text::first_where(s.rules@.len(), bad_rule_pred(s))
}

/// The outcome of validating `s`: the first group with a kind other than
/// `package`/`runtime`, else the first invalid rule, else valid.
pub open spec fn strategy_problem(s: &Strategy) -> Option<Seq<char>> {
    match bad_group(s) {
        Some(i) => {
            let g = s.groups.vals()[i];
            Some("groups."@ + s.groups.keys()[i] + ": invalid kind '"@ + g.0.keys()[bad_kind_of(g)->0]
                + "'; must be 'package' or 'runtime'"@)
        },
        None => match bad_rule(s) {
            Some(i) => rule_problem(s, i),
            None => None,
        },
    }
}

/// The first kind key of `g` that is not permitted (executable).
fn find_bad_kind(g: &StrategyGroup) -> (r: Option<usize>)
    ensures
        match r {
            Some(j) => bad_kind_of(*g) == Some(j as int),
            None => bad_kind_of(*g) is None,
        },
{
    proof { crate::text::lemma_first_where(g.0.keys().len(), bad_kind_pred(*g)); }
    g.0.lemma_shape();
    let n = g.0.len();
    let mut j: usize = 0;
    while j < n
        invariant
            j <= n == g.0.keys().len(),
            forall|k: int| 0 <= k < j ==> is_group_kind(#[trigger] g.0.keys()[k]),
        decreases n - j,
    {
        let key = g.0.key_at(j);
        if !(eq_str(key.as_str(), "package") || eq_str(key.as_str(), "runtime")) {
            proof { crate::text::lemma_first_where_found(g.0.keys().len(), bad_kind_pred(*g), j as int); }
            return Some(j);
        }
        j = j + 1;
    }
    proof { crate::text::lemma_first_where_none(g.0.keys().len(), bad_kind_pred(*g)); }
    None
}

/// Why rule `i` is invalid (executable).
fn check_rule(s: &Strategy, i: usize) -> (r: Option<String>)
    requires
        i < s.rules@.len(),
    ensures
        match r {
            Some(m) => rule_problem(s, i as int) == Some(m@),
            None => rule_problem(s, i as int) is None,
        },
{
    let rule = &s.rules[i];
    let sel = &rule.selector;
    let ix = decimal_string(i as u128);
    if rule.use_backend.unicode_len() == 0 {
        return Some(concat3("rules[", ix.as_str(), "].use must not be empty"));
    }
    if sel.component.is_some() && sel.kind.is_none() {
        return Some(concat3("rules[", ix.as_str(),
            "]: component-only rule is forbidden because it matches multiple resource kinds; add 'kind' alongside 'component'"));
    }
    if sel.group.is_some() && sel.kind.is_none() {
        return Some(concat3("rules[", ix.as_str(),
            "]: 'group' requires 'kind' to be present; a group-only rule has lower specificity than a kind-only rule and can never be selected"));
    }
    if let Some(gname) = &sel.group {
        match s.groups.get(gname.as_str()) {
            None => {
                let parts = vec!["rules[", ix.as_str(), "]: group '", gname.as_str(), "' is not defined in 'groups'"];
                let m = concat_all(&parts);
                proof {
                    reveal_with_fuel(concat_seq, 6);
                    assert(parts@.map_values(|p: &str| p@) =~= seq!["rules["@, ix@, "]: group '"@, gname@, "' is not defined in 'groups'"@]);
                }
                return Some(m);
            },
            Some(group) => {
                let is_runtime = match sel.kind {
                    Some(MatchKind::Runtime) => true,
                    _ => false,
                };
                if is_runtime && group.names_for_kind("runtime").is_none() {
                    let parts = vec!["rules[", ix.as_str(), "]: match.kind is 'runtime' but group '", gname.as_str(),
                        "' has no 'runtime' entries"];
                    let m = concat_all(&parts);
                    proof {
                        reveal_with_fuel(concat_seq, 6);
                        assert(parts@.map_values(|p: &str| p@) =~= seq!["rules["@, ix@, "]: match.kind is 'runtime' but group '"@,
                            gname@, "' has no 'runtime' entries"@]);
                    }
                    return Some(m);
                }
            },
        }
    }
    None
}

/// Validate a strategy: group kind keys must be `package` or `runtime`; every
/// rule needs a backend, `kind` alongside `component` or `group`, a defined
/// group, and runtime entries in its group when it matches runtimes.
pub fn validate_strategy(strategy: Strategy) -> (r: Result<Strategy, ConfigError>)
    ensures
        match strategy_problem(&strategy) {
            None => r is Ok && r->Ok_0 == strategy,
            Some(m) => r is Err && (r->Err_0 matches ConfigError::InvalidStrategy { reason } && reason@ == m),
        },
{
    proof { crate::text::lemma_first_where(strategy.groups.keys().len(), bad_group_pred(&strategy)); }
    strategy.groups.lemma_shape();
    let n = strategy.groups.len();
    let mut i: usize = 0;
    while i < n
        invariant
            i <= n == strategy.groups.keys().len() == strategy.groups.vals().len(),
            forall|k: int| 0 <= k < i ==> (#[trigger] bad_kind_of(strategy.groups.vals()[k])) is None,
        decreases n - i,
    {
        let g = strategy.groups.value_at(i);
        if let Some(j) = find_bad_kind(g) {
            proof { crate::text::lemma_first_where_found(strategy.groups.keys().len(), bad_group_pred(&strategy), i as int); }
            proof { crate::text::lemma_first_where(g.0.keys().len(), bad_kind_pred(*g)); }
            let name = strategy.groups.key_at(i);
            let kind = g.0.key_at(j);
            let parts = vec!["groups.", name.as_str(), ": invalid kind '", kind.as_str(), "'; must be 'package' or 'runtime'"];
            let reason = concat_all(&parts);
            proof {
                reveal_with_fuel(concat_seq, 6);
                assert(parts@.map_values(|p: &str| p@) =~= seq!["groups."@, name@, ": invalid kind '"@, kind@,
                    "'; must be 'package' or 'runtime'"@]);
            }
            return Err(ConfigError::InvalidStrategy { reason });
        }
        i = i + 1;
    }
    proof {
        crate::text::lemma_first_where_none(strategy.groups.keys().len(), bad_group_pred(&strategy));
        crate::text::lemma_first_where(strategy.rules@.len(), bad_rule_pred(&strategy));
    }
    let m = strategy.rules.len();
    let mut i: usize = 0;
    while i < m
        invariant
            i <= m == strategy.rules@.len(),
            bad_group(&strategy) is None,
            forall|k: int| 0 <= k < i ==> (#[trigger] rule_problem(&strategy, k)) is None,
        decreases m - i,
    {
        if let Some(reason) = check_rule(&strategy, i) {
            proof { crate::text::lemma_first_where_found(strategy.rules@.len(), bad_rule_pred(&strategy), i as int); }
            return Err(ConfigError::InvalidStrategy { reason });
        }
        i = i + 1;
    }
    proof { crate::text::lemma_first_where_none(strategy.rules@.len(), bad_rule_pred(&strategy)); }
    Ok(strategy)
}

// ---------------------------------------------------------------------------
// Sources
// ---------------------------------------------------------------------------

/// Source ids reserved for built-in sources.
pub open spec fn is_reserved(id: Seq<char>) -> bool {
    id == "core"@ || id == "local"@ || id == "official"@ || id == "sample"@ || id == "example"@ || id == "external"@
}

/// `components` without the `.` pieces.
pub open spec fn drop_dots(cs: Seq<Seq<char>>) -> Seq<Seq<char>>
    decreases cs.len(),
{
    if cs.len() == 0 {
        Seq::empty()
    } else if cs.last() == "."@ {
        drop_dots(cs.drop_last())
    } else {
        drop_dots(cs.drop_last()).push(cs.last())
    }
}

/// `p` with its `.` components removed (nothing else is resolved).
pub open spec fn dot_free(p: Seq<char>) -> Seq<char> {
    render_path(is_abs(p), drop_dots(split_nonempty(p, '/')))
}

/// Where a `type: path` source path `raw` points: `~` and `~/…` against the
/// home directory (when known), an absolute path as is, anything else
/// relative to `sources_dir`; `.` components are dropped from the latter two.
pub open spec fn resolve_source_spec(raw: Seq<char>, sources_dir: Seq<char>, home: Option<Seq<char>>) -> Seq<char> {
    if raw == "~"@ && home is Some {
        home->0
    } else if raw != "~"@ && crate::text::has_prefix(raw, "~/"@) && home is Some {
        path_join(home->0, raw.skip(2))
    } else if is_abs(raw) {
        dot_free(raw)
    } else {
        dot_free(path_join(sources_dir, raw))
    }
}

/// `p` with its `.` components removed (executable).
pub fn dot_free_exec(p: &str) -> (r: String)
    ensures
        r@ == dot_free(p@),
{
    let pieces = split_nonempty_exec(p, '/');
    let ghost views = pieces@.map_values(|x: String| x@);
    let mut kept: Vec<String> = Vec::new();
    let mut i: usize = 0;
    while i < pieces.len()
        invariant
            i <= pieces.len(),
            views == pieces@.map_values(|x: String| x@),
            kept@.map_values(|x: String| x@) == drop_dots(views.subrange(0, i as int)),
        decreases pieces.len() - i,
    {
        assert(views.subrange(0, i + 1).drop_last() =~= views.subrange(0, i as int));
        if !eq_str(pieces[i].as_str(), ".") {
            let ghost before = kept@.map_values(|x: String| x@);
            kept.push(pieces[i].clone());
            assert(kept@.map_values(|x: String| x@) =~= before.push(views[i as int]));
        }
        i = i + 1;
    }
    assert(views.subrange(0, pieces.len() as int) =~= views);
    let joined = join_strings(&kept, "/");
    if is_abs_exec(p) {
        concat2("/", joined.as_str())
    } else {
        joined
    }
}

/// Resolve a `type: path` source path against `sources_dir` (the directory
/// of `sources.yaml`), expanding `~` with `home` when it is known.
pub fn resolve_source_path(raw: &str, sources_dir: &str, home: Option<&str>) -> (r: String)
    ensures
        r@ == resolve_source_spec(raw@, sources_dir@, match home { Some(h) => Some(h@), None => None }),
{
    proof { reveal_strlit("~"); reveal_strlit("~/"); }
    if eq_str(raw, "~") {
        if let Some(h) = home {
            return h.to_owned();
        }
    } else if let Some(rest) = crate::text::strip_prefix(raw, "~/") {
        if let Some(h) = home {
            return path_join_exec(h, rest.as_str());
        }
    }
    if is_abs_exec(raw) {
        dot_free_exec(raw)
    } else {
        let joined = path_join_exec(sources_dir, raw);
        dot_free_exec(joined.as_str())
    }
}

/// Resolve `raw` relative to the directory of the `sources.yaml` at
/// `sources_yaml_path` (its parent, or the path itself when it has none).
pub fn resolve_path_relative_to_sources(raw: &str, sources_yaml_dir: &str, home: Option<&str>) -> (r: String)
    ensures
        r@ == resolve_source_spec(raw@, sources_yaml_dir@, match home { Some(h) => Some(h@), None => None }),
{
    resolve_source_path(raw, sources_yaml_dir, home)
}

/// `source '<id>': <tail>`.
pub open spec fn source_msg(id: Seq<char>, tail: Seq<char>) -> Seq<char> {
    "source '"@ + id + "': "@ + tail
}

/// Whether the optional value is set.
pub open spec fn set_count(r: crate::sources::SourceRef) -> int {
    (if r.branch is Some { 1int } else { 0int }) + (if r.tag is Some { 1int } else { 0int }) + (if r.commit is Some { 1int } else { 0int })
}

/// Whether `names` holds an empty name.
pub open spec fn has_empty_name(l: Option<AllowList>) -> bool {
    match l {
        Some(AllowList::Names(names)) => exists|k: int| 0 <= k < names@.len() && (#[trigger] names@[k])@.len() == 0,
        _ => false,
    }
}

/// Whether `c` is an ASCII letter.
pub open spec fn is_ascii_letter(c: char) -> bool {
    ('a' <= c && c <= 'z') || ('A' <= c && c <= 'Z')
}

/// Whether `p` starts with a Windows drive (`X:`).
pub open spec fn has_drive(p: Seq<char>) -> bool {
    p.len() >= 2 && is_ascii_letter(p[0]) && p[1] == ':'
}

/// Whether a git subpath is absolute as the host reads it: it starts with `/`
/// or a backslash, or, on a Windows host, with a drive followed by one of them.
pub open spec fn subpath_is_absolute(p: Seq<char>, windows: bool) -> bool {
    (p.len() > 0 && (p[0] == '/' || p[0] == '\\'))
        || (windows && has_drive(p) && p.len() >= 3 && (p[2] == '/' || p[2] == '\\'))
}

/// The components of a git subpath as the host reads them: its `/`-separated
/// segments, or, on a Windows host, the segments after a drive separated by
/// `/` or a backslash.
pub open spec fn subpath_components(p: Seq<char>, windows: bool) -> Seq<Seq<char>> {
    if windows {
        let rest = if has_drive(p) { p.skip(2) } else { p };
        split_nonempty(rest.map_values(|c: char| if c == '\\' { '/' } else { c }), '/')
    } else {
        split_nonempty(p, '/')
    }
}

/// What is wrong with entry `e` by itself (its type's fields, then its allow
/// list), on a Windows host when `windows` holds.
pub open spec fn entry_problem(e: SourceEntry, windows: bool) -> Option<Seq<char>> {
    let id = e.id@;
    let type_problem: Option<Seq<char>> = match e.source_type {
        SourceType::Git => if e.url is None || e.url->0@.len() == 0 {
            Some(source_msg(id, "url is required for type: git"@))
        } else if e.path is Some && e.path->0@.len() == 0 {
            Some(source_msg(id, "path must not be empty"@))
        } else if e.path is Some && subpath_is_absolute(e.path->0@, windows) {
            Some(source_msg(id, "path must be relative (no absolute paths in git repo subpath)"@))
        } else if e.path is Some && subpath_components(e.path->0@, windows).contains(".."@) {
            Some(source_msg(id, "path must not contain '..' components"@))
        } else if e.source_ref is Some && set_count(e.source_ref->0) != 1 {
            Some(source_msg(id, "ref must specify exactly one of branch, tag, or commit"@))
        } else {
            None
        },
        SourceType::Path => if e.url is Some {
            Some(source_msg(id, "url must not be specified for type: path"@))
        } else if e.path is None {
            Some(source_msg(id, "path is required for type: path"@))
        } else if e.path->0@.len() == 0 {
            Some(source_msg(id, "path must not be empty"@))
        } else {
            None
        },
    };
    if type_problem is Some {
        type_problem
    } else {
        match e.allow {
            Some(AllowSpec::Detailed(d)) => if has_empty_name(d.features) {
                Some(source_msg(id, "allow.components contains empty name"@))
            } else if has_empty_name(d.backends) {
                Some(source_msg(id, "allow.backends contains empty name"@))
            } else {
                None
            },
            _ => None,
        }
    }
}

/// What is wrong with entry `i` of `sources`: a reserved id, an id that an
/// earlier entry has, or a problem of the entry itself.
pub open spec fn source_problem(sources: Seq<SourceEntry>, i: int, windows: bool) -> Option<Seq<char>> {
    let id = sources[i].id@;
    if is_reserved(id) {
        Some("source id '"@ + id + "' is reserved and must not appear in sources.yaml"@)
    } else if exists|j: int| 0 <= j < i && (#[trigger] sources[j]).id@ == id {
        Some("duplicate source id '"@ + id + "'"@)
    } else {
        entry_problem(sources[i], windows)
    }
}

/// Whether entry `i` of `sources` has a problem.
pub open spec fn source_problem_pred(sources: Seq<SourceEntry>, windows: bool) -> spec_fn(int) -> bool {
    |i: int| source_problem(sources, i, windows) is Some
}

/// The first entry with a problem.
pub open spec fn first_bad_source(sources: Seq<SourceEntry>, windows: bool) -> Option<int> {
    crate::text::first_where(sources.len(), source_problem_pred(sources, windows))
}

/// Whether `out` is `e` with a `type: path` entry's path resolved.
pub open spec fn resolved_entry(e: SourceEntry, out: SourceEntry, sources_dir: Seq<char>, home: Option<Seq<char>>) -> bool {
    &&& out.id == e.id
    &&& out.source_type == e.source_type
    &&& out.url == e.url
    &&& out.source_ref == e.source_ref
    &&& out.allow == e.allow
    &&& match e.source_type {
        SourceType::Path => out.path is Some && out.path->0@ == resolve_source_spec(e.path->0@, sources_dir, home),
        SourceType::Git => out.path == e.path,
    }
}

/// Whether `names` holds an empty name (executable).
#[verifier::loop_isolation(false)]
fn names_have_empty(l: &Option<AllowList>) -> (r: bool)
    ensures
        r == has_empty_name(*l),
{
    match l {
        Some(AllowList::Names(names)) => {
            let mut k: usize = 0;
            while k < names.len()
                invariant
                    k <= names@.len(),
                    forall|j: int| 0 <= j < k ==> (#[trigger] names@[j])@.len() != 0,
                decreases names@.len() - k,
            {
                if names[k].unicode_len() == 0 {
                    assert(names@[k as int]@.len() == 0);
                    return true;
                }
                k = k + 1;
            }
            false
        },
        _ => false,
    }
}

/// `source '<id>': <tail>` (executable).
fn source_message(id: &str, tail: &str) -> (r: String)
    ensures
        r@ == source_msg(id@, tail@),
{
    let head = concat3("source '", id, "': ");
    concat2(head.as_str(), tail)
}

/// Whether a git subpath is absolute as the host reads it (executable).
fn subpath_is_absolute_exec(p: &str, windows: bool) -> (r: bool)
    ensures
        r == subpath_is_absolute(p@, windows),
{
    let n = p.unicode_len();
    if n > 0 {
        let c = p.get_char(0);
        if c == '/' || c == '\\' {
            return true;
        }
    }
    if windows && n >= 3 {
        let d = p.get_char(0);
        let letter = ('a' <= d && d <= 'z') || ('A' <= d && d <= 'Z');
        let sep = p.get_char(2);
        return letter && p.get_char(1) == ':' && (sep == '/' || sep == '\\');
    }
    false
}

/// The components of a git subpath as the host reads them (executable).
fn subpath_components_exec(p: &str, windows: bool) -> (r: Vec<String>)
    ensures
        r@.map_values(|x: String| x@) == subpath_components(p@, windows),
{
    if !windows {
        return split_nonempty_exec(p, '/');
    }
    let n = p.unicode_len();
    let mut start: usize = 0;
    if n >= 2 {
        let d = p.get_char(0);
        if (('a' <= d && d <= 'z') || ('A' <= d && d <= 'Z')) && p.get_char(1) == ':' {
            start = 2;
        }
    }
    let ghost rest = if has_drive(p@) { p@.skip(2) } else { p@ };
    let mut unified: Vec<char> = Vec::new();
    let mut i: usize = start;
    while i < n
        invariant
            start <= i <= n == p@.len(),
            rest == p@.skip(start as int),
            unified@ == rest.subrange(0, i - start).map_values(|c: char| if c == '\\' { '/' } else { c }),
        decreases n - i,
    {
        let c = p.get_char(i);
        let u = if c == '\\' { '/' } else { c };
        unified.push(u);
        assert(unified@ =~= rest.subrange(0, i + 1 - start).map_values(|c: char| if c == '\\' { '/' } else { c }));
        i = i + 1;
    }
    assert(rest.subrange(0, n - start) =~= rest);
    let s = crate::text::from_chars(&unified);
    split_nonempty_exec(s.as_str(), '/')
}

/// What is wrong with entry `e` by itself (executable).
#[verifier::loop_isolation(false)]
fn check_entry(e: &SourceEntry, windows: bool) -> (r: Option<String>)
    ensures
        match r {
            Some(m) => entry_problem(*e, windows) == Some(m@),
            None => entry_problem(*e, windows) is None,
        },
{
    let id = e.id.as_str();
    match e.source_type {
        SourceType::Git => {
            let url_missing = match &e.url {
                None => true,
                Some(u) => u.unicode_len() == 0,
            };
            if url_missing {
                return Some(source_message(id, "url is required for type: git"));
            }
            if let Some(p) = &e.path {
                if p.unicode_len() == 0 {
                    return Some(source_message(id, "path must not be empty"));
                }
                if subpath_is_absolute_exec(p.as_str(), windows) {
                    return Some(source_message(id, "path must be relative (no absolute paths in git repo subpath)"));
                }
                let pieces = subpath_components_exec(p.as_str(), windows);
                let ghost views = pieces@.map_values(|x: String| x@);
                let mut k: usize = 0;
                while k < pieces.len()
                    invariant
                        k <= pieces@.len(),
                        views == pieces@.map_values(|x: String| x@),
                        views == subpath_components(p@, windows),
                        forall|j: int| 0 <= j < k ==> views[j] != ".."@,
                    decreases pieces@.len() - k,
                {
                    if eq_str(pieces[k].as_str(), "..") {
                        assert(views[k as int] == ".."@);
                        assert(views.contains(".."@));
                        return Some(source_message(id, "path must not contain '..' components"));
                    }
                    k = k + 1;
                }
                assert(!views.contains(".."@));
            }
            if let Some(r) = &e.source_ref {
                let mut count: u8 = 0;
                if r.branch.is_some() { count = count + 1; }
                if r.tag.is_some() { count = count + 1; }
                if r.commit.is_some() { count = count + 1; }
                if count != 1 {
                    return Some(source_message(id, "ref must specify exactly one of branch, tag, or commit"));
                }
            }
        },
        SourceType::Path => {
            if e.url.is_some() {
                return Some(source_message(id, "url must not be specified for type: path"));
            }
            match &e.path {
                None => {
                    return Some(source_message(id, "path is required for type: path"));
                },
                Some(p) => {
                    if p.unicode_len() == 0 {
                        return Some(source_message(id, "path must not be empty"));
                    }
                },
            }
        },
    }
    if let Some(AllowSpec::Detailed(d)) = &e.allow {
        if names_have_empty(&d.features) {
            return Some(source_message(id, "allow.components contains empty name"));
        }
        if names_have_empty(&d.backends) {
            return Some(source_message(id, "allow.backends contains empty name"));
        }
    }
    None
}

/// Whether `id` is reserved (executable).
fn reserved(id: &str) -> (r: bool)
    ensures
        r == is_reserved(id@),
{
    eq_str(id, "core") || eq_str(id, "local") || eq_str(id, "official") || eq_str(id, "sample") || eq_str(id, "example")
        || eq_str(id, "external")
}

/// Validate the source declarations and resolve `type: path` paths.
///
/// Every entry needs an unreserved id not used by an earlier entry; a git
/// source needs a URL, and its optional repository subpath must be
/// non-empty, relative and free of `..`, and its optional ref must name
/// exactly one of branch, tag or commit; a path source takes no URL and
/// needs a non-empty path, which is resolved against `sources_dir` (and the
/// `home` directory for `~`). Detailed allow lists may not hold empty names.
///
/// A git subpath is read as the host reads paths: on a Windows host a drive
/// (as in `C:` followed by a backslash) also makes it absolute and a backslash also separates its
/// components. Which host this is comes from `std::path::MAIN_SEPARATOR`;
/// `validate_and_resolve_sources_on` states the outcome for either host.
pub fn validate_and_resolve_sources(spec: SourcesSpec, sources_dir: &str, home: Option<&str>) -> (r: Result<SourcesSpec, ConfigError>)
    ensures
        sources_outcome(spec.sources@, sources_dir@, match home { Some(h) => Some(h@), None => None }, false, r)
            || sources_outcome(spec.sources@, sources_dir@, match home { Some(h) => Some(h@), None => None }, true, r),
{
    let windows = host_separator() == '\\';
    validate_and_resolve_sources_on(spec, sources_dir, home, windows)
}

/// The main path separator of the host (`std::path::MAIN_SEPARATOR`). Nothing
/// is claimed of it: it depends on the platform the library is built for.
#[verifier::external_body]
fn host_separator() -> char {
    std::path::MAIN_SEPARATOR
}

/// What validating `sources` gives, on a Windows host when `windows` holds:
/// the first bad entry's problem, or every entry resolved in order.
pub open spec fn sources_outcome(sources: Seq<SourceEntry>, sources_dir: Seq<char>, home: Option<Seq<char>>, windows: bool, r: Result<SourcesSpec, ConfigError>) -> bool {
    match first_bad_source(sources, windows) {
        Some(i) => r is Err && (r->Err_0 matches ConfigError::InvalidSources { reason }
            && reason@ == source_problem(sources, i, windows)->0),
        None => r is Ok && r->Ok_0.sources@.len() == sources.len()
            && forall|k: int| 0 <= k < sources.len() ==> resolved_entry(sources[k], #[trigger] r->Ok_0.sources@[k], sources_dir, home),
    }
}

/// Validate the source declarations and resolve `type: path` paths, reading
/// git subpaths as a Windows host does when `windows` holds and as a Unix
/// host does otherwise (see `validate_and_resolve_sources`).
pub fn validate_and_resolve_sources_on(spec: SourcesSpec, sources_dir: &str, home: Option<&str>, windows: bool) -> (r: Result<SourcesSpec, ConfigError>)
    ensures
        sources_outcome(spec.sources@, sources_dir@, match home { Some(h) => Some(h@), None => None }, windows, r),
{
    let ghost all = spec.sources@;
    let ghost hv: Option<Seq<char>> = match home { Some(h) => Some(h@), None => None };
    proof { crate::text::lemma_first_where(all.len(), source_problem_pred(all, windows)); }
    let n = spec.sources.len();
    let mut rest = spec.sources;
    let mut out: Vec<SourceEntry> = Vec::new();
    let mut seen: Vec<String> = Vec::new();
    let mut i: usize = 0;
    while i < n
        invariant
            i <= n == all.len(),
            all == spec.sources@,
            rest@ == all.subrange(i as int, n as int),
            out@.len() == i,
            seen@.len() == i,
            hv == (match home { Some(h) => Some(h@), None => None::<Seq<char>> }),
            forall|k: int| 0 <= k < i ==> (#[trigger] seen@[k])@ == all[k].id@,
            forall|k: int| 0 <= k < i ==> !(#[trigger] source_problem_pred(all, windows)(k)),
            forall|k: int| 0 <= k < i ==> resolved_entry(all[k], #[trigger] out@[k], sources_dir@, hv),
        decreases n - i,
    {
        let e = rest.remove(0);
        assert(e == all[i as int]);
        if reserved(e.id.as_str()) {
            proof { crate::text::lemma_first_where_found(all.len(), source_problem_pred(all, windows), i as int); }
            let reason = concat3("source id '", e.id.as_str(), "' is reserved and must not appear in sources.yaml");
            return Err(ConfigError::InvalidSources { reason });
        }
        let mut k: usize = 0;
        while k < i
            invariant
                k <= i == seen@.len(),
                i < n == all.len(),
                all == spec.sources@,
                e == all[i as int],
                !is_reserved(e.id@),
                forall|j: int| 0 <= j < i ==> (#[trigger] seen@[j])@ == all[j].id@,
                forall|j: int| 0 <= j < k ==> all[j].id@ != e.id@,
                forall|j: int| 0 <= j < i ==> !(#[trigger] source_problem_pred(all, windows)(j)),
            decreases i - k,
        {
            if eq_str(seen[k].as_str(), e.id.as_str()) {
                proof {
                    assert(all[k as int].id@ == e.id@);
                    crate::text::lemma_first_where_found(all.len(), source_problem_pred(all, windows), i as int);
                }
                let reason = concat3("duplicate source id '", e.id.as_str(), "'");
                return Err(ConfigError::InvalidSources { reason });
            }
            k = k + 1;
        }
        if let Some(reason) = check_entry(&e, windows) {
            proof { crate::text::lemma_first_where_found(all.len(), source_problem_pred(all, windows), i as int); }
            return Err(ConfigError::InvalidSources { reason });
        }
        seen.push(e.id.clone());
        let resolved = match e.source_type {
            SourceType::Path => {
                let raw = match &e.path {
                    Some(p) => p.clone(),
                    None => String::new(),
                };
                let path = resolve_source_path(raw.as_str(), sources_dir, home);
                SourceEntry { id: e.id, source_type: e.source_type, url: e.url, source_ref: e.source_ref, path: Some(path), allow: e.allow }
            },
            SourceType::Git => e,
        };
        out.push(resolved);
        assert(rest@ =~= all.subrange(i + 1, n as int));
        i = i + 1;
    }
    proof { crate::text::lemma_first_where_none(all.len(), source_problem_pred(all, windows)); }
    Ok(SourcesSpec { sources: out })
}

// ---------------------------------------------------------------------------
// Parameter values
// ---------------------------------------------------------------------------

/// A parameter value as written in a config file, holding what conversion
/// reads: a string, a number (its written form), a mapping (its `kind` and
/// `path` entries: absent, not a string, or a string), or anything else.
#[derive(Debug, Clone, PartialEq)]
pub enum RawParamValue {
    Text(String),
    Number(String),
    Mapping { kind: Option<Option<String>>, path: Option<Option<String>> },
    Other,
}

/// The source kind named `k` (`home_relative`, `component_relative`, `absolute`).
pub open spec fn source_kind_named(k: Seq<char>) -> Option<FsSourceKind> {
    if k == "home_relative"@ {
        Some(FsSourceKind::HomeRelative)
    } else if k == "component_relative"@ {
        Some(FsSourceKind::ComponentRelative)
    } else if k == "absolute"@ {
        Some(FsSourceKind::Absolute)
    } else {
        None
    }
}

/// `param '<key>': <tail>`.
pub open spec fn param_msg(key: Seq<char>, tail: Seq<char>) -> Seq<char> {
    "param '"@ + key + "': "@ + tail
}

/// Why the value of param `key` cannot be converted, if it cannot.
pub open spec fn param_problem(key: Seq<char>, v: RawParamValue) -> Option<Seq<char>> {
    match v {
        RawParamValue::Text(_) => None,
        RawParamValue::Number(_) => None,
        RawParamValue::Mapping { kind, path } => if kind is None {
            Some(param_msg(key, "object value must have 'kind' field"@))
        } else if path is None {
            Some(param_msg(key, "object value must have 'path' field"@))
        } else if kind->0 is None {
            Some(param_msg(key, "'kind' must be a string"@))
        } else if source_kind_named(kind->0->0@) is None {
            Some(param_msg(key, "invalid source kind '"@ + kind->0->0@ + "'; expected one of: home_relative, component_relative, absolute"@))
        } else if path->0 is None {
            Some(param_msg(key, "'path' must be a string"@))
        } else {
            None
        },
        RawParamValue::Other => Some(param_msg(key, "unsupported value type; expected string or object"@)),
    }
}

/// Whether `pv` is the conversion of the convertible value `v`: strings and
/// numbers become strings; a mapping becomes a source reference.
pub open spec fn converted_param(v: RawParamValue, pv: ParamValue) -> bool {
    match v {
        RawParamValue::Text(t) => pv matches ParamValue::String(x) && x@ == t@,
        RawParamValue::Number(n) => pv matches ParamValue::String(x) && x@ == n@,
        RawParamValue::Mapping { kind, path } => pv matches ParamValue::Source(src)
            && Some(src.kind) == source_kind_named(kind->0->0@) && src.path@ == path->0->0@,
        RawParamValue::Other => false,
    }
}

/// `param '<key>': <tail>` (executable).
fn param_message(key: &str, tail: &str) -> (r: String)
    ensures
        r@ == param_msg(key@, tail@),
{
    let head = concat3("param '", key, "': ");
    concat2(head.as_str(), tail)
}

/// Convert one raw parameter value.
pub fn convert_one_param_value(key: &str, value: RawParamValue) -> (r: Result<ParamValue, ConfigError>)
    ensures
        match param_problem(key@, value) {
            Some(m) => r is Err && (r->Err_0 matches ConfigError::InvalidProfile { reason } && reason@ == m),
            None => r is Ok && converted_param(value, r->Ok_0),
        },
{
    match value {
        RawParamValue::Text(t) => Ok(ParamValue::String(t)),
        RawParamValue::Number(n) => Ok(ParamValue::String(n)),
        RawParamValue::Mapping { kind, path } => {
            let kind = match kind {
                None => { return Err(ConfigError::InvalidProfile { reason: param_message(key, "object value must have 'kind' field") }); },
                Some(k) => k,
            };
            let path = match path {
                None => { return Err(ConfigError::InvalidProfile { reason: param_message(key, "object value must have 'path' field") }); },
                Some(p) => p,
            };
            let kind = match kind {
                None => { return Err(ConfigError::InvalidProfile { reason: param_message(key, "'kind' must be a string") }); },
                Some(k) => k,
            };
            proof {
                reveal_strlit("home_relative");
                reveal_strlit("component_relative");
                reveal_strlit("absolute");
            }
            let parsed = if eq_str(kind.as_str(), "home_relative") {
                FsSourceKind::HomeRelative
            } else if eq_str(kind.as_str(), "component_relative") {
                FsSourceKind::ComponentRelative
            } else if eq_str(kind.as_str(), "absolute") {
                FsSourceKind::Absolute
            } else {
                let tail = concat3("invalid source kind '", kind.as_str(), "'; expected one of: home_relative, component_relative, absolute");
                return Err(ConfigError::InvalidProfile { reason: param_message(key, tail.as_str()) });
            };
            let path = match path {
                None => { return Err(ConfigError::InvalidProfile { reason: param_message(key, "'path' must be a string") }); },
                Some(p) => p,
            };
            Ok(ParamValue::Source(SourceParamValue { kind: parsed, path }))
        },
        RawParamValue::Other => Err(ConfigError::InvalidProfile {
            reason: param_message(key, "unsupported value type; expected string or object"),
        }),
    }
}

/// Whether param `i` (ascending key order) of `m` cannot be converted.
pub open spec fn bad_param_pred(m: StrMap<RawParamValue>) -> spec_fn(int) -> bool {
    |i: int| param_problem(m.keys()[i], m.vals()[i]) is Some
}

/// The problem of the first (ascending key order) param of `raw` that cannot be converted.
pub open spec fn params_problem(raw: Option<StrMap<RawParamValue>>) -> Option<Seq<char>> {
    match raw {
        Some(m) => match crate::text::first_where(m.keys().len(), bad_param_pred(m)) {
            Some(i) => param_problem(m.keys()[i], m.vals()[i]),
            None => None,
        },
        None => None,
    }
}

/// Whether `out` is the conversion of the convertible params `raw`: absent
/// when none are given, else every param converted under its key.
pub open spec fn converted_params(raw: Option<StrMap<RawParamValue>>, out: Option<StrMap<ParamValue>>) -> bool {
    match raw {
        Some(m) if m@.len() > 0 => out is Some && out->0@.dom() == m@.dom()
            && forall|k: Seq<char>| #[trigger] m@.contains_key(k) ==> converted_param(m@[k], out->0@[k]),
        _ => out is None,
    }
}

/// Convert raw parameter values to typed ones.
pub fn convert_raw_params(raw: Option<StrMap<RawParamValue>>) -> (r: Result<Option<StrMap<ParamValue>>, ConfigError>)
    ensures
        match params_problem(raw) {
            Some(m) => (raw matches Some(x) && x@.len() > 0) && r is Err
                && (r->Err_0 matches ConfigError::InvalidProfile { reason } && reason@ == m),
            None => r is Ok && converted_params(raw, r->Ok_0),
        },
{
    let m = match raw {
        None => { return Ok(None); },
        Some(m) => m,
    };
    let ghost gm = m;
    m.lemma_shape();
    proof { crate::text::lemma_first_where(m.keys().len(), bad_param_pred(m)); }
    if m.len() == 0 {
        proof {
            assert(gm.keys().len() == 0);
            crate::text::lemma_first_where_none(gm.keys().len(), bad_param_pred(gm));
        }
        return Ok(None);
    }
    let entries = m.into_entries();
    let ghost ents = entries@;
    let n = entries.len();
    let mut rest = entries;
    let mut out: StrMap<ParamValue> = StrMap::new();
    let mut i: usize = 0;
    while i < n
        invariant
            i <= n == gm.keys().len() == gm.vals().len(),
            rest@ == ents.subrange(i as int, n as int),
            ents.len() == n,
            n > 0,
            gm@.len() == n,
            raw == Some(gm),
            ents.map_values(|e: (String, RawParamValue)| e.0@) == gm.keys(),
            ents.map_values(|e: (String, RawParamValue)| e.1) == gm.vals(),
            strictly_sorted_keys(gm),
            forall|k: int| 0 <= k < i ==> !(#[trigger] bad_param_pred(gm)(k)),
            out@.dom() == Set::new(|k: Seq<char>| exists|j: int| 0 <= j < i && gm.keys()[j] == k),
            forall|j: int| 0 <= j < i ==> converted_param(gm.vals()[j], #[trigger] out@[gm.keys()[j]]),
        decreases n - i,
    {
        let (key, value) = rest.remove(0);
        assert(ents[i as int] == (key, value));
        assert(ents.map_values(|e: (String, RawParamValue)| e.0@)[i as int] == key@);
        assert(ents.map_values(|e: (String, RawParamValue)| e.1)[i as int] == value);
        assert(rest@ =~= ents.subrange(i + 1, n as int));
        match convert_one_param_value(key.as_str(), value) {
            Err(e) => {
                proof { crate::text::lemma_first_where_found(gm.keys().len(), bad_param_pred(gm), i as int); }
                return Err(e);
            },
            Ok(pv) => {
                let ghost before = out@;
                out.insert(key, pv);
                proof {
                    assert forall|j: int| 0 <= j < i + 1 implies converted_param(gm.vals()[j], #[trigger] out@[gm.keys()[j]]) by {
                        if j < i {
                            assert(gm.keys()[j] != gm.keys()[i as int]);
                        }
                    }
                    assert(out@.dom() =~= Set::new(|k: Seq<char>| exists|j: int| 0 <= j < i + 1 && gm.keys()[j] == k));
                }
            },
        }
        i = i + 1;
    }
    proof {
        crate::text::lemma_first_where_none(gm.keys().len(), bad_param_pred(gm));
        assert(out@.dom() =~= gm@.dom()) by {
            assert forall|k: Seq<char>| #[trigger] gm@.contains_key(k) implies out@.contains_key(k) by {
                let j = gm.keys().index_of(k);
                assert(gm.keys()[j] == k);
            }
        }
        assert forall|k: Seq<char>| #[trigger] gm@.contains_key(k) implies converted_param(gm@[k], out@[k]) by {
            let j = gm.keys().index_of(k);
            assert(gm.keys()[j] == k);
        }
    }
    Ok(Some(out))
}

/// Whether the keys of `m` are strictly ascending (so pairwise distinct).
pub open spec fn strictly_sorted_keys<V>(m: StrMap<V>) -> bool {
    crate::text::strictly_sorted(m.keys()) && m.keys().no_duplicates()
        && forall|i: int| 0 <= i < m.keys().len() ==> #[trigger] m@[m.keys()[i]] == m.vals()[i]
        && forall|k: Seq<char>| #[trigger] m@.contains_key(k) <==> m.keys().contains(k)
}

// ---------------------------------------------------------------------------
// Grouped components
// ---------------------------------------------------------------------------

/// One component's configuration as written in a config file.
#[derive(Debug)]
pub struct RawComponentConfig {
    pub params: Option<StrMap<RawParamValue>>,
}

/// One entry of grouped components: source id, component name, configuration.
pub type GroupedEntry = (Seq<char>, Seq<char>, RawComponentConfig);

/// The entries of source `i` of `g`, in ascending name order.
pub open spec fn group_row(g: StrMap<StrMap<RawComponentConfig>>, i: int) -> Seq<GroupedEntry> {
    let inner = g.vals()[i];
    Seq::new(inner.keys().len(), |j: int| (g.keys()[i], inner.keys()[j], inner.vals()[j]))
}

/// The entries of the first `i` sources of `g`.
pub open spec fn entries_upto(g: StrMap<StrMap<RawComponentConfig>>, i: nat) -> Seq<GroupedEntry>
    decreases i,
{
    if i == 0 { Seq::empty() } else { entries_upto(g, (i - 1) as nat) + group_row(g, i - 1) }
}

/// All entries of `g`: sources in ascending order, names ascending within each.
pub open spec fn grouped_entries(g: StrMap<StrMap<RawComponentConfig>>) -> Seq<GroupedEntry> {
    entries_upto(g, g.keys().len())
}

/// The canonical id `source_id/name` of an entry.
pub open spec fn canonical_of(e: GroupedEntry) -> Seq<char> {
    e.0 + "/"@ + e.1
}

/// What is wrong with entry `i` of `es`: an empty name, a canonical id an
/// earlier entry has, or params that cannot be converted.
pub open spec fn entry_fault(es: Seq<GroupedEntry>, i: int) -> Option<Seq<char>> {
    let e = es[i];
    if e.1.len() == 0 {
        Some("component name under source '"@ + e.0 + "' must not be empty"@)
    } else if exists|j: int| 0 <= j < i && canonical_of(#[trigger] es[j]) == canonical_of(e) {
        Some("duplicate component '"@ + canonical_of(e) + "'"@)
    } else {
        params_problem(e.2.params)
    }
}

/// Whether entry `i` of `es` is at fault.
pub open spec fn entry_fault_pred(es: Seq<GroupedEntry>) -> spec_fn(int) -> bool {
    |i: int| entry_fault(es, i) is Some
}

/// Why grouped components cannot be expanded: an empty source id, else the
/// first entry at fault.
pub open spec fn grouped_problem(g: StrMap<StrMap<RawComponentConfig>>) -> Option<Seq<char>> {
    let es = grouped_entries(g);
    if g@.contains_key(Seq::empty()) {
        Some("source_id must not be empty"@)
    } else {
        match crate::text::first_where(es.len(), entry_fault_pred(es)) {
            Some(i) => entry_fault(es, i),
            None => None,
        }
    }
}

/// Whether `out` is the expansion of the valid grouped components `g`:
/// one profile entry per canonical id, with its params converted.
pub open spec fn expanded_from(g: StrMap<StrMap<RawComponentConfig>>, out: StrMap<ProfileComponentConfig>) -> bool {
    let es = grouped_entries(g);
    &&& out@.dom() == Set::new(|k: Seq<char>| exists|t: int| 0 <= t < es.len() && canonical_of(#[trigger] es[t]) == k)
    &&& forall|t: int| 0 <= t < es.len() ==> converted_params((#[trigger] es[t]).2.params, out@[canonical_of(es[t])].params)
}

/// The entries of the first `i` sources are a prefix of those of the first `n`.
proof fn lemma_entries_prefix(g: StrMap<StrMap<RawComponentConfig>>, i: nat, n: nat)
    requires
        i <= n,
    ensures
        entries_upto(g, i).len() <= entries_upto(g, n).len(),
        entries_upto(g, n).subrange(0, entries_upto(g, i).len() as int) == entries_upto(g, i),
    decreases n - i,
{
    if i < n {
        lemma_entries_prefix(g, i, (n - 1) as nat);
        let a = entries_upto(g, (n - 1) as nat);
        assert(entries_upto(g, n) == a + group_row(g, n - 1));
        assert((a + group_row(g, n - 1)).subrange(0, entries_upto(g, i).len() as int) =~= a.subrange(0, entries_upto(g, i).len() as int));
    } else {
        assert(entries_upto(g, n).subrange(0, entries_upto(g, n).len() as int) =~= entries_upto(g, n));
    }
}

/// Faults of an entry depend only on the entries up to it.
proof fn lemma_fault_prefix(es: Seq<GroupedEntry>, m: int, t: int)
    requires
        0 <= t < m <= es.len(),
    ensures
        entry_fault(es, t) == entry_fault(es.subrange(0, m), t),
{
    let sub = es.subrange(0, m);
    assert(sub[t] == es[t]);
    if exists|j: int| 0 <= j < t && canonical_of(#[trigger] es[j]) == canonical_of(es[t]) {
        let j = choose|j: int| 0 <= j < t && canonical_of(#[trigger] es[j]) == canonical_of(es[t]);
        assert(sub[j] == es[j]);
    }
    if exists|j: int| 0 <= j < t && canonical_of(#[trigger] sub[j]) == canonical_of(sub[t]) {
        let j = choose|j: int| 0 <= j < t && canonical_of(#[trigger] sub[j]) == canonical_of(sub[t]);
        assert(sub[j] == es[j]);
    }
}

/// `source/name` (executable).
fn canonical_id(source: &str, name: &str) -> (r: String)
    ensures
        r@ == source@ + "/"@ + name@,
{
    concat3(source, "/", name)
}

/// Expand grouped components (`source_id → name → config`) into a profile
/// map keyed by canonical `source_id/name`. Source ids and names must be
/// non-empty, canonical ids unique, and params convertible. Whether the
/// source exists is checked later, by the source registry.
pub fn expand_grouped_components(grouped: StrMap<StrMap<RawComponentConfig>>) -> (r: Result<StrMap<ProfileComponentConfig>, ConfigError>)
    ensures
        match grouped_problem(grouped) {
            Some(m) => r is Err && (r->Err_0 matches ConfigError::InvalidProfile { reason } && reason@ == m),
            None => r is Ok && expanded_from(grouped, r->Ok_0),
        },
{
    let ghost g = grouped;
    let ghost es = grouped_entries(g);
    grouped.lemma_shape();
    proof { crate::text::lemma_first_where(es.len(), entry_fault_pred(es)); }
    proof { reveal_strlit(""); }
    assert(""@ =~= Seq::<char>::empty());
    if grouped.contains_key("") {
        return Err(ConfigError::InvalidProfile { reason: "source_id must not be empty".to_owned() });
    }
    let outer = grouped.into_entries();
    let ghost oents = outer@;
    let n = outer.len();
    let mut orest = outer;
    let mut out: StrMap<ProfileComponentConfig> = StrMap::new();
    let mut i: usize = 0;
    let ghost mut done: Seq<GroupedEntry> = Seq::empty();
    while i < n
        invariant
            i <= n == g.keys().len() == g.vals().len() == oents.len(),
            g == grouped,
            es == grouped_entries(g),
            !g@.contains_key(Seq::empty()),
            strictly_sorted_keys(g),
            orest@ == oents.subrange(i as int, n as int),
            oents.map_values(|e: (String, StrMap<RawComponentConfig>)| e.0@) == g.keys(),
            oents.map_values(|e: (String, StrMap<RawComponentConfig>)| e.1) == g.vals(),
            done == entries_upto(g, i as nat),
            done.len() <= es.len(),
            es.subrange(0, done.len() as int) == done,
            forall|t: int| 0 <= t < done.len() ==> !(#[trigger] entry_fault_pred(es)(t)),
            out@.dom() == Set::new(|k: Seq<char>| exists|t: int| 0 <= t < done.len() && canonical_of(#[trigger] done[t]) == k),
            forall|t: int| 0 <= t < done.len() ==> converted_params((#[trigger] done[t]).2.params, out@[canonical_of(done[t])].params),
        decreases n - i,
    {
        let (sid, inner) = orest.remove(0);
        assert(oents[i as int] == (sid, inner));
        assert(oents.map_values(|e: (String, StrMap<RawComponentConfig>)| e.0@)[i as int] == sid@);
        assert(oents.map_values(|e: (String, StrMap<RawComponentConfig>)| e.1)[i as int] == inner);
        assert(orest@ =~= oents.subrange(i + 1, n as int));
        assert(sid@.len() > 0) by {
            if sid@.len() == 0 {
                assert(sid@ =~= Seq::<char>::empty());
                assert(g.keys().contains(sid@));
            }
        }
        proof { lemma_entries_prefix(g, (i + 1) as nat, n as nat); }
        let ghost row = group_row(g, i as int);
        let ghost base = done;
        inner.lemma_shape();
        let ients = inner.into_entries();
        let ghost iv = ients@;
        let m = ients.len();
        let mut irest = ients;
        let mut j: usize = 0;
        while j < m
            invariant
                i < n == g.keys().len() == g.vals().len(),
                j <= m == inner.keys().len() == inner.vals().len() == iv.len(),
                g == grouped,
                !g@.contains_key(Seq::empty()),
                es == grouped_entries(g),
                g.vals()[i as int] == inner,
                g.keys()[i as int] == sid@,
                strictly_sorted_keys(inner),
                row == group_row(g, i as int),
                base == entries_upto(g, i as nat),
                entries_upto(g, (i + 1) as nat) == base + row,
                (base + row).len() <= es.len(),
                es.subrange(0, (base + row).len() as int) == base + row,
                irest@ == iv.subrange(j as int, m as int),
                iv.map_values(|e: (String, RawComponentConfig)| e.0@) == inner.keys(),
                iv.map_values(|e: (String, RawComponentConfig)| e.1) == inner.vals(),
                done == base + row.subrange(0, j as int),
                forall|t: int| 0 <= t < done.len() ==> !(#[trigger] entry_fault_pred(es)(t)),
                out@.dom() == Set::new(|k: Seq<char>| exists|t: int| 0 <= t < done.len() && canonical_of(#[trigger] done[t]) == k),
                forall|t: int| 0 <= t < done.len() ==> converted_params((#[trigger] done[t]).2.params, out@[canonical_of(done[t])].params),
            decreases m - j,
        {
            let (name, cfg) = irest.remove(0);
            assert(iv[j as int] == (name, cfg));
            assert(iv.map_values(|e: (String, RawComponentConfig)| e.0@)[j as int] == name@);
            assert(iv.map_values(|e: (String, RawComponentConfig)| e.1)[j as int] == cfg);
            assert(irest@ =~= iv.subrange(j + 1, m as int));
            let ghost t = done.len() as int;
            let ghost entry: GroupedEntry = (sid@, name@, cfg);
            assert(row[j as int] == entry);
            assert(es[t] == entry) by {
                assert((base + row)[t] == row[j as int]);
            }
            if name.unicode_len() == 0 {
                proof {
                    crate::text::lemma_first_where_found(es.len(), entry_fault_pred(es), t);
                }
                let reason = concat3("component name under source '", sid.as_str(), "' must not be empty");
                return Err(ConfigError::InvalidProfile { reason });
            }
            let canonical = canonical_id(sid.as_str(), name.as_str());
            if out.contains_key(canonical.as_str()) {
                proof {
                    let k = choose|k: int| 0 <= k < done.len() && canonical_of(#[trigger] done[k]) == canonical@;
                    assert(es[k] == (base + row)[k]);
                    if k < base.len() {
                        assert(done[k] == base[k]);
                    } else {
                        assert(done[k] == row[k - base.len()]);
                    }
                    assert(es[k] == done[k]);
                    assert(canonical_of(es[k]) == canonical_of(es[t]));
                    crate::text::lemma_first_where_found(es.len(), entry_fault_pred(es), t);
                }
                let reason = concat3("duplicate component '", canonical.as_str(), "'");
                return Err(ConfigError::InvalidProfile { reason });
            }
            proof {
                assert forall|k: int| 0 <= k < t implies canonical_of(#[trigger] es[k]) != canonical_of(entry) by {
                    assert(es[k] == (base + row)[k]);
                    if k < base.len() {
                        assert(done[k] == base[k]);
                    } else {
                        assert(done[k] == row[k - base.len()]);
                    }
                    assert(es[k] == done[k]);
                    assert(out@.contains_key(canonical_of(done[k])));
                }
            }
            let params = match convert_raw_params(cfg.params) {
                Err(e) => {
                    proof { crate::text::lemma_first_where_found(es.len(), entry_fault_pred(es), t); }
                    return Err(e);
                },
                Ok(p) => p,
            };
            let ghost before = out@;
            out.insert(canonical, ProfileComponentConfig { params });
            proof {
                let nd = base + row.subrange(0, j + 1);
                assert(nd =~= done.push(entry));
                assert(out@.dom() =~= Set::new(|k: Seq<char>| exists|u: int| 0 <= u < nd.len() && canonical_of(#[trigger] nd[u]) == k)) by {
                    assert forall|k: Seq<char>| out@.dom().contains(k) implies exists|u: int| 0 <= u < nd.len() && canonical_of(#[trigger] nd[u]) == k by {
                        if k == canonical_of(entry) {
                            assert(nd[t] == entry);
                        } else {
                            let u = choose|u: int| 0 <= u < done.len() && canonical_of(#[trigger] done[u]) == k;
                            assert(nd[u] == done[u]);
                        }
                    }
                    assert forall|k: Seq<char>| (exists|u: int| 0 <= u < nd.len() && canonical_of(#[trigger] nd[u]) == k) implies out@.dom().contains(k) by {
                        let u = choose|u: int| 0 <= u < nd.len() && canonical_of(#[trigger] nd[u]) == k;
                        if u < t {
                            assert(nd[u] == done[u]);
                        }
                    }
                }
                assert forall|u: int| 0 <= u < nd.len() implies converted_params((#[trigger] nd[u]).2.params, out@[canonical_of(nd[u])].params) by {
                    if u < t {
                        assert(nd[u] == done[u]);
                        assert(es[u] == (base + row)[u]);
                        if u < base.len() {
                            assert(done[u] == base[u]);
                        } else {
                            assert(done[u] == row[u - base.len()]);
                        }
                        assert(es[u] == done[u]);
                        assert(canonical_of(done[u]) != canonical_of(entry));
                    }
                }
                assert forall|u: int| 0 <= u < nd.len() implies !(#[trigger] entry_fault_pred(es)(u)) by {
                    if u == t {
                        assert(entry_fault(es, t) is None);
                    }
                }
                done = nd;
            }
            j = j + 1;
        }
        proof {
            assert(row.subrange(0, m as int) =~= row);
            done = base + row;
        }
        i = i + 1;
    }
    proof {
        assert(done == es);
        crate::text::lemma_first_where_none(es.len(), entry_fault_pred(es));
    }
    Ok(out)
}

// ---------------------------------------------------------------------------
// Bundles
// ---------------------------------------------------------------------------

/// The written content of a raw parameter value.
pub enum RawParamView {
    Text(Seq<char>),
    Number(Seq<char>),
    Mapping { kind: Option<Option<Seq<char>>>, path: Option<Option<Seq<char>>> },
    Other,
}

/// The view of an optional optional string.
pub open spec fn opt2(o: Option<Option<String>>) -> Option<Option<Seq<char>>> {
    match o {
        Some(Some(s)) => Some(Some(s@)),
        Some(None) => Some(None),
        None => None,
    }
}

impl View for RawParamValue {
    type V = RawParamView;

    open spec fn view(&self) -> RawParamView {
        match self {
            RawParamValue::Text(t) => RawParamView::Text(t@),
            RawParamValue::Number(n) => RawParamView::Number(n@),
            RawParamValue::Mapping { kind, path } => RawParamView::Mapping { kind: opt2(*kind), path: opt2(*path) },
            RawParamValue::Other => RawParamView::Other,
        }
    }
}

/// The written parameters of a map of raw values.
pub open spec fn params_view(m: StrMap<RawParamValue>) -> Map<Seq<char>, RawParamView> {
    Map::new(|k: Seq<char>| m@.contains_key(k), |k: Seq<char>| m@[k]@)
}

/// The written parameters of a component configuration.
pub open spec fn cfg_view(c: RawComponentConfig) -> Option<Map<Seq<char>, RawParamView>> {
    match c.params {
        Some(m) => Some(params_view(m)),
        None => None,
    }
}

/// The written configurations of a source's components.
pub open spec fn names_view(m: StrMap<RawComponentConfig>) -> Map<Seq<char>, Option<Map<Seq<char>, RawParamView>>> {
    Map::new(|k: Seq<char>| m@.contains_key(k), |k: Seq<char>| cfg_view(m@[k]))
}

/// The written content of grouped components.
pub open spec fn grouped_view(g: StrMap<StrMap<RawComponentConfig>>) -> Map<Seq<char>, Map<Seq<char>, Option<Map<Seq<char>, RawParamView>>>> {
    Map::new(|k: Seq<char>| g@.contains_key(k), |k: Seq<char>| names_view(g@[k]))
}

/// An incoming configuration merged onto an existing one (if any): params
/// are merged key by key, the incoming value winning; absent incoming params
/// keep the existing ones.
pub open spec fn merge_cfg_view(
    existing: Option<Option<Map<Seq<char>, RawParamView>>>,
    incoming: Option<Map<Seq<char>, RawParamView>>,
) -> Option<Map<Seq<char>, RawParamView>> {
    match existing {
        None => incoming,
        Some(ex) => match (ex, incoming) {
            (Some(b), Some(o)) => Some(b.union_prefer_right(o)),
            (None, Some(o)) => Some(o),
            (e, None) => e,
        },
    }
}

/// A source's components merged name by name.
pub open spec fn merge_names_view(
    target: Map<Seq<char>, Option<Map<Seq<char>, RawParamView>>>,
    incoming: Map<Seq<char>, Option<Map<Seq<char>, RawParamView>>>,
) -> Map<Seq<char>, Option<Map<Seq<char>, RawParamView>>> {
    Map::new(
        |k: Seq<char>| target.contains_key(k) || incoming.contains_key(k),
        |k: Seq<char>| if incoming.contains_key(k) {
            merge_cfg_view(if target.contains_key(k) { Some(target[k]) } else { None }, incoming[k])
        } else {
            target[k]
        },
    )
}

/// Grouped components merged source by source.
pub open spec fn merge_grouped_view(
    acc: Map<Seq<char>, Map<Seq<char>, Option<Map<Seq<char>, RawParamView>>>>,
    g: Map<Seq<char>, Map<Seq<char>, Option<Map<Seq<char>, RawParamView>>>>,
) -> Map<Seq<char>, Map<Seq<char>, Option<Map<Seq<char>, RawParamView>>>> {
    Map::new(
        |k: Seq<char>| acc.contains_key(k) || g.contains_key(k),
        |k: Seq<char>| if g.contains_key(k) {
            merge_names_view(if acc.contains_key(k) { acc[k] } else { Map::empty() }, g[k])
        } else {
            acc[k]
        },
    )
}

/// A bundle definition.
#[derive(Debug)]
pub struct RawBundle {
    pub components: StrMap<StrMap<RawComponentConfig>>,
}

/// The `bundle:` section: which bundles to apply, in order.
#[derive(Debug)]
pub struct RawBundleRef {
    pub use_list: Vec<String>,
}

/// The grouped components of the bundles named by `names`, merged in order.
pub open spec fn bundles_fold(names: Seq<String>, bundles: StrMap<RawBundle>) -> Map<Seq<char>, Map<Seq<char>, Option<Map<Seq<char>, RawParamView>>>>
    decreases names.len(),
{
    if names.len() == 0 {
        Map::empty()
    } else {
        merge_grouped_view(bundles_fold(names.drop_last(), bundles), grouped_view(bundles@[names.last()@].components))
    }
}

/// Whether use-list entry `i` names no defined bundle.
pub open spec fn undefined_bundle_pred(names: Seq<String>, bundles: StrMap<RawBundle>) -> spec_fn(int) -> bool {
    |i: int| !bundles@.contains_key(names[i]@)
}

/// A copy of a raw parameter value.
fn dup_param(v: &RawParamValue) -> (r: RawParamValue)
    ensures
        r@ == v@,
{
    match v {
        RawParamValue::Text(t) => RawParamValue::Text(t.clone()),
        RawParamValue::Number(n) => RawParamValue::Number(n.clone()),
        RawParamValue::Mapping { kind, path } => RawParamValue::Mapping { kind: kind.clone(), path: path.clone() },
        RawParamValue::Other => RawParamValue::Other,
    }
}

/// A copy of raw parameters.
fn dup_params(m: &StrMap<RawParamValue>) -> (r: StrMap<RawParamValue>)
    ensures
        params_view(r) == params_view(*m),
{
    m.lemma_shape();
    let n = m.len();
    let mut out: StrMap<RawParamValue> = StrMap::new();
    let mut i: usize = 0;
    while i < n
        invariant
            i <= n == m.keys().len(),
            strictly_sorted_keys(*m),
            out@.dom() == Set::new(|k: Seq<char>| exists|j: int| 0 <= j < i && m.keys()[j] == k),
            forall|k: Seq<char>| #[trigger] out@.contains_key(k) ==> out@[k]@ == m@[k]@,
        decreases n - i,
    {
        let k = m.key_at(i);
        let v = m.value_at(i);
        out.insert(k.clone(), dup_param(v));
        assert(out@.dom() =~= Set::new(|k: Seq<char>| exists|j: int| 0 <= j < i + 1 && m.keys()[j] == k));
        i = i + 1;
    }
    assert(out@.dom() =~= m@.dom()) by {
        assert forall|k: Seq<char>| #[trigger] m@.contains_key(k) implies out@.contains_key(k) by {
            let j = m.keys().index_of(k);
        }
    }
    assert(params_view(out) =~= params_view(*m));
    out
}

/// A copy of a component configuration.
fn dup_cfg(c: &RawComponentConfig) -> (r: RawComponentConfig)
    ensures
        cfg_view(r) == cfg_view(*c),
{
    match &c.params {
        Some(m) => RawComponentConfig { params: Some(dup_params(m)) },
        None => RawComponentConfig { params: None },
    }
}

/// A copy of a source's component configurations.
fn dup_names(m: &StrMap<RawComponentConfig>) -> (r: StrMap<RawComponentConfig>)
    ensures
        names_view(r) == names_view(*m),
{
    m.lemma_shape();
    let n = m.len();
    let mut out: StrMap<RawComponentConfig> = StrMap::new();
    let mut i: usize = 0;
    while i < n
        invariant
            i <= n == m.keys().len(),
            strictly_sorted_keys(*m),
            out@.dom() == Set::new(|k: Seq<char>| exists|j: int| 0 <= j < i && m.keys()[j] == k),
            forall|k: Seq<char>| #[trigger] out@.contains_key(k) ==> cfg_view(out@[k]) == cfg_view(m@[k]),
        decreases n - i,
    {
        let k = m.key_at(i);
        let v = m.value_at(i);
        out.insert(k.clone(), dup_cfg(v));
        assert(out@.dom() =~= Set::new(|k: Seq<char>| exists|j: int| 0 <= j < i + 1 && m.keys()[j] == k));
        i = i + 1;
    }
    assert(out@.dom() =~= m@.dom()) by {
        assert forall|k: Seq<char>| #[trigger] m@.contains_key(k) implies out@.contains_key(k) by {
            let j = m.keys().index_of(k);
        }
    }
    assert(names_view(out) =~= names_view(*m));
    out
}

/// A copy of grouped components.
fn dup_grouped(g: &StrMap<StrMap<RawComponentConfig>>) -> (r: StrMap<StrMap<RawComponentConfig>>)
    ensures
        grouped_view(r) == grouped_view(*g),
{
    g.lemma_shape();
    let n = g.len();
    let mut out: StrMap<StrMap<RawComponentConfig>> = StrMap::new();
    let mut i: usize = 0;
    while i < n
        invariant
            i <= n == g.keys().len(),
            strictly_sorted_keys(*g),
            out@.dom() == Set::new(|k: Seq<char>| exists|j: int| 0 <= j < i && g.keys()[j] == k),
            forall|k: Seq<char>| #[trigger] out@.contains_key(k) ==> names_view(out@[k]) == names_view(g@[k]),
        decreases n - i,
    {
        let k = g.key_at(i);
        let v = g.value_at(i);
        out.insert(k.clone(), dup_names(v));
        assert(out@.dom() =~= Set::new(|k: Seq<char>| exists|j: int| 0 <= j < i + 1 && g.keys()[j] == k));
        i = i + 1;
    }
    assert(out@.dom() =~= g@.dom()) by {
        assert forall|k: Seq<char>| #[trigger] g@.contains_key(k) implies out@.contains_key(k) by {
            let j = g.keys().index_of(k);
        }
    }
    assert(grouped_view(out) =~= grouped_view(*g));
    out
}

/// Whether `k` is among the first `i` of `keys`.
pub open spec fn in_prefix(keys: Seq<Seq<char>>, i: int, k: Seq<char>) -> bool {
    exists|j: int| 0 <= j < i && keys[j] == k
}

/// Merge `overlay`'s params into `base`, key by key (the overlay wins).
fn merge_params_into(base: &mut StrMap<RawParamValue>, overlay: StrMap<RawParamValue>)
    ensures
        params_view(*final(base)) == params_view(*old(base)).union_prefer_right(params_view(overlay)),
{
    let ghost ob = params_view(*base);
    let ghost ov = overlay;
    overlay.lemma_shape();
    let entries = overlay.into_entries();
    let ghost ents = entries@;
    let n = entries.len();
    let mut rest = entries;
    let mut i: usize = 0;
    while i < n
        invariant
            i <= n == ov.keys().len() == ents.len(),
            strictly_sorted_keys(ov),
            rest@ == ents.subrange(i as int, n as int),
            ents.map_values(|e: (String, RawParamValue)| e.0@) == ov.keys(),
            ents.map_values(|e: (String, RawParamValue)| e.1) == ov.vals(),
            base@.dom() == ob.dom().union(Set::new(|k: Seq<char>| in_prefix(ov.keys(), i as int, k))),
            forall|k: Seq<char>| #[trigger] base@.contains_key(k) ==> base@[k]@ == (if in_prefix(ov.keys(), i as int, k) {
                ov@[k]@
            } else {
                ob[k]
            }),
        decreases n - i,
    {
        let (k, v) = rest.remove(0);
        assert(ents[i as int] == (k, v));
        assert(ents.map_values(|e: (String, RawParamValue)| e.0@)[i as int] == k@);
        assert(ents.map_values(|e: (String, RawParamValue)| e.1)[i as int] == v);
        assert(rest@ =~= ents.subrange(i + 1, n as int));
        let ghost kk = k@;
        base.insert(k, v);
        proof {
            assert(ov@[kk] == v);
            assert forall|x: Seq<char>| in_prefix(ov.keys(), i + 1, x) == (in_prefix(ov.keys(), i as int, x) || x == kk) by {
                if in_prefix(ov.keys(), i + 1, x) {
                    let j = choose|j: int| 0 <= j < i + 1 && ov.keys()[j] == x;
                    if j < i {
                        assert(in_prefix(ov.keys(), i as int, x));
                    }
                }
                if x == kk {
                    assert(ov.keys()[i as int] == x);
                }
            }
            assert(base@.dom() =~= ob.dom().union(Set::new(|k: Seq<char>| in_prefix(ov.keys(), i + 1, k))));
        }
        i = i + 1;
    }
    proof {
        assert forall|x: Seq<char>| in_prefix(ov.keys(), n as int, x) == ov@.contains_key(x) by {
            if ov@.contains_key(x) {
                let j = ov.keys().index_of(x);
            }
        }
        assert(params_view(*base) =~= ob.union_prefer_right(params_view(ov)));
    }
}

/// Merge an incoming component configuration into `target` under `name`:
/// params are merged key by key (the incoming value wins); absent incoming
/// params keep the existing ones; a new name is inserted as is.
pub fn merge_raw_component_config(target: &mut StrMap<RawComponentConfig>, name: String, incoming: RawComponentConfig)
    ensures
        names_view(*final(target)) == names_view(*old(target)).insert(
            name@,
            merge_cfg_view(
                if old(target)@.contains_key(name@) { Some(cfg_view(old(target)@[name@])) } else { None },
                cfg_view(incoming),
            ),
        ),
{
    let ghost before = *target;
    match target.remove(name.as_str()) {
        None => {
            let ghost nm = name@;
            target.insert(name, incoming);
            assert(names_view(*target) =~= names_view(before).insert(nm, cfg_view(incoming)));
        },
        Some(existing) => {
            let merged = match (existing.params, incoming.params) {
                (Some(b), Some(o)) => {
                    let mut b = b;
                    merge_params_into(&mut b, o);
                    Some(b)
                },
                (None, Some(o)) => Some(o),
                (e, None) => e,
            };
            let ghost nm = name@;
            let cfg = RawComponentConfig { params: merged };
            target.insert(name, cfg);
            assert(names_view(*target) =~= names_view(before).insert(nm, merge_cfg_view(Some(cfg_view(existing)), cfg_view(incoming))));
        },
    }
}

/// Merge a source's incoming component configurations into `target`.
fn merge_names_into(target: &mut StrMap<RawComponentConfig>, incoming: StrMap<RawComponentConfig>)
    ensures
        names_view(*final(target)) == merge_names_view(names_view(*old(target)), names_view(incoming)),
{
    let ghost ot = names_view(*target);
    let ghost inc = incoming;
    incoming.lemma_shape();
    let entries = incoming.into_entries();
    let ghost ents = entries@;
    let n = entries.len();
    let mut rest = entries;
    let mut i: usize = 0;
    while i < n
        invariant
            i <= n == inc.keys().len() == ents.len(),
            strictly_sorted_keys(inc),
            rest@ == ents.subrange(i as int, n as int),
            ents.map_values(|e: (String, RawComponentConfig)| e.0@) == inc.keys(),
            ents.map_values(|e: (String, RawComponentConfig)| e.1) == inc.vals(),
            names_view(*target).dom() == ot.dom().union(Set::new(|k: Seq<char>| in_prefix(inc.keys(), i as int, k))),
            forall|k: Seq<char>| #[trigger] names_view(*target).contains_key(k) ==> names_view(*target)[k] == (if in_prefix(inc.keys(), i as int, k) {
                merge_cfg_view(if ot.contains_key(k) { Some(ot[k]) } else { None }, cfg_view(inc@[k]))
            } else {
                ot[k]
            }),
        decreases n - i,
    {
        let (k, v) = rest.remove(0);
        assert(ents[i as int] == (k, v));
        assert(ents.map_values(|e: (String, RawComponentConfig)| e.0@)[i as int] == k@);
        assert(ents.map_values(|e: (String, RawComponentConfig)| e.1)[i as int] == v);
        assert(rest@ =~= ents.subrange(i + 1, n as int));
        let ghost kk = k@;
        proof {
            assert(!in_prefix(inc.keys(), i as int, kk)) by {
                if in_prefix(inc.keys(), i as int, kk) {
                    let j = choose|j: int| 0 <= j < i && inc.keys()[j] == kk;
                    assert(inc.keys()[j] == inc.keys()[i as int]);
                }
            }
            assert(inc@[kk] == v);
        }
        let ghost before = *target;
        merge_raw_component_config(target, k, v);
        proof {
            assert(names_view(before).contains_key(kk) == before@.contains_key(kk));
            assert(!Set::new(|k: Seq<char>| in_prefix(inc.keys(), i as int, k)).contains(kk));
            assert(names_view(before).dom().contains(kk) == ot.dom().contains(kk));
            assert(before@.contains_key(kk) == ot.contains_key(kk));
            if before@.contains_key(kk) {
                assert(names_view(before).contains_key(kk));
                assert(cfg_view(before@[kk]) == ot[kk]);
            }
            assert forall|x: Seq<char>| in_prefix(inc.keys(), i + 1, x) == (in_prefix(inc.keys(), i as int, x) || x == kk) by {
                if in_prefix(inc.keys(), i + 1, x) {
                    let j = choose|j: int| 0 <= j < i + 1 && inc.keys()[j] == x;
                    if j < i {
                        assert(in_prefix(inc.keys(), i as int, x));
                    }
                }
                if x == kk {
                    assert(inc.keys()[i as int] == x);
                }
            }
            assert(names_view(*target).dom() =~= ot.dom().union(Set::new(|k: Seq<char>| in_prefix(inc.keys(), i + 1, k))));
            assert forall|x: Seq<char>| #[trigger] names_view(*target).contains_key(x) implies names_view(*target)[x] == (if in_prefix(inc.keys(), i + 1, x) {
                merge_cfg_view(if ot.contains_key(x) { Some(ot[x]) } else { None }, cfg_view(inc@[x]))
            } else {
                ot[x]
            }) by {
                if x != kk {
                    assert(names_view(*target)[x] == names_view(before)[x]);
                }
            }
        }
        i = i + 1;
    }
    proof {
        assert forall|x: Seq<char>| in_prefix(inc.keys(), n as int, x) == inc@.contains_key(x) by {
            if inc@.contains_key(x) {
                let j = inc.keys().index_of(x);
            }
        }
        assert(names_view(*target) =~= merge_names_view(ot, names_view(inc)));
    }
}

/// Merge incoming grouped components into `acc`, source by source.
fn merge_grouped_into(acc: &mut StrMap<StrMap<RawComponentConfig>>, g: StrMap<StrMap<RawComponentConfig>>)
    ensures
        grouped_view(*final(acc)) == merge_grouped_view(grouped_view(*old(acc)), grouped_view(g)),
{
    let ghost oa = grouped_view(*acc);
    let ghost gg = g;
    g.lemma_shape();
    let entries = g.into_entries();
    let ghost ents = entries@;
    let n = entries.len();
    let mut rest = entries;
    let mut i: usize = 0;
    while i < n
        invariant
            i <= n == gg.keys().len() == ents.len(),
            strictly_sorted_keys(gg),
            rest@ == ents.subrange(i as int, n as int),
            ents.map_values(|e: (String, StrMap<RawComponentConfig>)| e.0@) == gg.keys(),
            ents.map_values(|e: (String, StrMap<RawComponentConfig>)| e.1) == gg.vals(),
            grouped_view(*acc).dom() == oa.dom().union(Set::new(|k: Seq<char>| in_prefix(gg.keys(), i as int, k))),
            forall|k: Seq<char>| #[trigger] grouped_view(*acc).contains_key(k) ==> grouped_view(*acc)[k] == (if in_prefix(gg.keys(), i as int, k) {
                merge_names_view(if oa.contains_key(k) { oa[k] } else { Map::empty() }, names_view(gg@[k]))
            } else {
                oa[k]
            }),
        decreases n - i,
    {
        let (k, v) = rest.remove(0);
        assert(ents[i as int] == (k, v));
        assert(ents.map_values(|e: (String, StrMap<RawComponentConfig>)| e.0@)[i as int] == k@);
        assert(ents.map_values(|e: (String, StrMap<RawComponentConfig>)| e.1)[i as int] == v);
        assert(rest@ =~= ents.subrange(i + 1, n as int));
        let ghost kk = k@;
        proof {
            assert(!in_prefix(gg.keys(), i as int, kk)) by {
                if in_prefix(gg.keys(), i as int, kk) {
                    let j = choose|j: int| 0 <= j < i && gg.keys()[j] == kk;
                    assert(gg.keys()[j] == gg.keys()[i as int]);
                }
            }
            assert(gg@[kk] == v);
        }
        let ghost before = *acc;
        let mut cur = match acc.remove(k.as_str()) {
            Some(c) => c,
            None => StrMap::new(),
        };
        assert(names_view(cur) =~= (if grouped_view(before).contains_key(kk) { grouped_view(before)[kk] } else { Map::empty() }));
        merge_names_into(&mut cur, v);
        acc.insert(k, cur);
        proof {
            assert(acc@.dom() =~= before@.dom().insert(kk));
            assert(grouped_view(*acc).dom() =~= acc@.dom());
            assert(grouped_view(before).dom() =~= before@.dom());
            assert forall|x: Seq<char>| in_prefix(gg.keys(), i + 1, x) == (in_prefix(gg.keys(), i as int, x) || x == kk) by {
                if in_prefix(gg.keys(), i + 1, x) {
                    let j = choose|j: int| 0 <= j < i + 1 && gg.keys()[j] == x;
                    if j < i {
                        assert(in_prefix(gg.keys(), i as int, x));
                    }
                }
                if x == kk {
                    assert(gg.keys()[i as int] == x);
                }
            }
            assert(grouped_view(*acc).dom() =~= oa.dom().union(Set::new(|k: Seq<char>| in_prefix(gg.keys(), i + 1, k))));
            assert forall|x: Seq<char>| #[trigger] grouped_view(*acc).contains_key(x) implies grouped_view(*acc)[x] == (if in_prefix(gg.keys(), i + 1, x) {
                merge_names_view(if oa.contains_key(x) { oa[x] } else { Map::empty() }, names_view(gg@[x]))
            } else {
                oa[x]
            }) by {
                if x != kk {
                    assert(grouped_view(*acc)[x] == grouped_view(before)[x]);
                }
            }
        }
        i = i + 1;
    }
    proof {
        assert forall|x: Seq<char>| in_prefix(gg.keys(), n as int, x) == gg@.contains_key(x) by {
            if gg@.contains_key(x) {
                let j = gg.keys().index_of(x);
            }
        }
        assert(grouped_view(*acc) =~= merge_grouped_view(oa, grouped_view(gg)));
    }
}

/// Merge the bundles named in `bundle_ref.use_list` in order (a later bundle
/// wins per component, params merged key by key), then overlay the profile's
/// components the same way. Every named bundle must be defined.
pub fn expand_bundles(
    bundle_ref: &RawBundleRef,
    bundles: &StrMap<RawBundle>,
    profile_components: StrMap<StrMap<RawComponentConfig>>,
) -> (r: Result<StrMap<StrMap<RawComponentConfig>>, ConfigError>)
    ensures
        match crate::text::first_where(bundle_ref.use_list@.len(), undefined_bundle_pred(bundle_ref.use_list@, *bundles)) {
            Some(i) => r is Err && (r->Err_0 matches ConfigError::InvalidProfile { reason }
                && reason@ == "undefined bundle '"@ + bundle_ref.use_list@[i]@ + "': not found in 'bundles:' section"@),
            None => r is Ok && grouped_view(r->Ok_0) == merge_grouped_view(
                bundles_fold(bundle_ref.use_list@, *bundles),
                grouped_view(profile_components),
            ),
        },
{
    let names = &bundle_ref.use_list;
    proof { crate::text::lemma_first_where(names@.len(), undefined_bundle_pred(names@, *bundles)); }
    let mut i: usize = 0;
    while i < names.len()
        invariant
            i <= names@.len(),
            names@ == bundle_ref.use_list@,
            forall|k: int| 0 <= k < i ==> !(#[trigger] undefined_bundle_pred(names@, *bundles)(k)),
        decreases names@.len() - i,
    {
        if !bundles.contains_key(names[i].as_str()) {
            proof { crate::text::lemma_first_where_found(names@.len(), undefined_bundle_pred(names@, *bundles), i as int); }
            let reason = concat3("undefined bundle '", names[i].as_str(), "': not found in 'bundles:' section");
            return Err(ConfigError::InvalidProfile { reason });
        }
        i = i + 1;
    }
    proof {
        crate::text::lemma_first_where_none(names@.len(), undefined_bundle_pred(names@, *bundles));
        assert forall|k: int| 0 <= k < names@.len() implies bundles@.contains_key(#[trigger] names@[k]@) by {
            assert(!undefined_bundle_pred(names@, *bundles)(k));
        }
    }
    let mut merged: StrMap<StrMap<RawComponentConfig>> = StrMap::new();
    assert(grouped_view(merged) =~= bundles_fold(names@.subrange(0, 0), *bundles));
    let mut j: usize = 0;
    while j < names.len()
        invariant
            j <= names@.len(),
            names@ == bundle_ref.use_list@,
            forall|k: int| 0 <= k < names@.len() ==> bundles@.contains_key(#[trigger] names@[k]@),
            grouped_view(merged) == bundles_fold(names@.subrange(0, j as int), *bundles),
        decreases names@.len() - j,
    {
        assert(bundles@.contains_key(names@[j as int]@));
        let bundle = match bundles.get(names[j].as_str()) {
            Some(b) => b,
            None => { return Err(ConfigError::InvalidProfile { reason: String::new() }); },
        };
        let copy = dup_grouped(&bundle.components);
        merge_grouped_into(&mut merged, copy);
        assert(names@.subrange(0, j + 1).drop_last() =~= names@.subrange(0, j as int));
        j = j + 1;
    }
    assert(names@.subrange(0, names@.len() as int) =~= names@);
    merge_grouped_into(&mut merged, profile_components);
    Ok(merged)
}

/// Law: a source object `{kind: k, path: p}` converts to a source at `p` of
/// the kind `k` names: `home_relative` gives a home-relative source,
/// `component_relative` a component-relative one and `absolute` an absolute
/// one; any other name is refused.
pub proof fn law_source_object_kind_names(key: Seq<char>, k: String, p: String, pv: ParamValue)
    ensures
        ({
            let v = RawParamValue::Mapping { kind: Some(Some(k)), path: Some(Some(p)) };
            &&& (k@ == "home_relative"@ || k@ == "component_relative"@ || k@ == "absolute"@) <==> param_problem(key, v) is None
            &&& converted_param(v, pv) ==> (pv matches ParamValue::Source(src) && src.path@ == p@
                && (k@ == "home_relative"@ ==> src.kind == FsSourceKind::HomeRelative)
                && (k@ == "component_relative"@ ==> src.kind == FsSourceKind::ComponentRelative)
                && (k@ == "absolute"@ ==> src.kind == FsSourceKind::Absolute))
        }),
{
    reveal_strlit("home_relative");
    reveal_strlit("component_relative");
    reveal_strlit("absolute");
    let v = RawParamValue::Mapping { kind: Some(Some(k)), path: Some(Some(p)) };
    assert(("home_relative"@ != "component_relative"@) && ("home_relative"@ != "absolute"@) && ("component_relative"@ != "absolute"@)) by {
        assert("home_relative"@[0] != "component_relative"@[0]);
        assert("home_relative"@[0] != "absolute"@[0]);
        assert("component_relative"@[0] != "absolute"@[0]);
    }
    assert((source_kind_named(k@) is Some) <==> (k@ == "home_relative"@ || k@ == "component_relative"@ || k@ == "absolute"@));
    assert((k@ == "home_relative"@ || k@ == "component_relative"@ || k@ == "absolute"@) <==> param_problem(key, v) is None);
}

/// Law: a string or a number converts to the string it is written as.
pub proof fn law_scalar_params_convert_to_their_text(t: String, pv: ParamValue)
    ensures
        converted_param(RawParamValue::Text(t), pv) ==> (pv matches ParamValue::String(x) && x@ == t@),
        converted_param(RawParamValue::Number(t), pv) ==> (pv matches ParamValue::String(x) && x@ == t@),
        param_problem(Seq::empty(), RawParamValue::Text(t)) is None && param_problem(Seq::empty(), RawParamValue::Number(t)) is None,
{
}

/// A later configuration of a component wins over earlier ones key by key:
/// after merging `g` onto `acc`, a param that `g` gives for a component has
/// `g`'s value.
pub proof fn law_later_param_wins(
    acc: Map<Seq<char>, Map<Seq<char>, Option<Map<Seq<char>, RawParamView>>>>,
    g: Map<Seq<char>, Map<Seq<char>, Option<Map<Seq<char>, RawParamView>>>>,
    sid: Seq<char>,
    name: Seq<char>,
    key: Seq<char>,
)
    requires
        g.contains_key(sid),
        g[sid].contains_key(name),
        g[sid][name] is Some,
        g[sid][name]->0.contains_key(key),
    ensures
        merge_grouped_view(acc, g).contains_key(sid),
        merge_grouped_view(acc, g)[sid].contains_key(name),
        merge_grouped_view(acc, g)[sid][name] is Some,
        merge_grouped_view(acc, g)[sid][name]->0[key] == g[sid][name]->0[key],
{
}

/// An earlier configuration is kept where a later one is silent: a param
/// that only `acc` gives for a component survives merging `g`.
pub proof fn law_earlier_param_kept(
    acc: Map<Seq<char>, Map<Seq<char>, Option<Map<Seq<char>, RawParamView>>>>,
    g: Map<Seq<char>, Map<Seq<char>, Option<Map<Seq<char>, RawParamView>>>>,
    sid: Seq<char>,
    name: Seq<char>,
    key: Seq<char>,
)
    requires
        acc.contains_key(sid),
        acc[sid].contains_key(name),
        acc[sid][name] is Some,
        acc[sid][name]->0.contains_key(key),
        !(g.contains_key(sid) && g[sid].contains_key(name) && g[sid][name] is Some && g[sid][name]->0.contains_key(key)),
    ensures
        merge_grouped_view(acc, g)[sid][name] is Some,
        merge_grouped_view(acc, g)[sid][name]->0[key] == acc[sid][name]->0[key],
{
}

// ---------------------------------------------------------------------------
// Imports
// ---------------------------------------------------------------------------

/// The maximum import depth (the root config is depth 0).
pub const IMPORT_DEPTH_LIMIT: usize = 8;

/// The base directory an import path is resolved against.
#[derive(Debug, Clone, Copy, PartialEq, Eq)]
pub enum ImportKind {
    /// The directory of the importing file (the default).
    Relative,
    /// The user's home directory.
    Home,
}

/// An `imports:` entry: a bare path (relative), or a path with a kind.
#[derive(Debug, Clone, PartialEq)]
pub enum RawImportEntry {
    Shorthand(String),
    Explicit { path: String, kind: ImportKind },
}

impl RawImportEntry {
    /// The path of the entry.
    pub open spec fn path_spec(&self) -> Seq<char> {
        match self {
            RawImportEntry::Shorthand(p) => p@,
            RawImportEntry::Explicit { path, .. } => path@,
        }
    }

    /// The kind of the entry (relative for the shorthand).
    pub open spec fn kind_spec(&self) -> ImportKind {
        match self {
            RawImportEntry::Shorthand(_) => ImportKind::Relative,
            RawImportEntry::Explicit { kind, .. } => *kind,
        }
    }

    /// The path of the entry (executable).
    pub fn path_str(&self) -> (r: &str)
        ensures
            r@ == self.path_spec(),
    {
        match self {
            RawImportEntry::Shorthand(p) => p.as_str(),
            RawImportEntry::Explicit { path, .. } => path.as_str(),
        }
    }

    /// The kind of the entry (executable).
    pub fn kind(&self) -> (r: ImportKind)
        ensures
            r == self.kind_spec(),
    {
        match self {
            RawImportEntry::Shorthand(_) => ImportKind::Relative,
            RawImportEntry::Explicit { kind, .. } => *kind,
        }
    }
}

/// Where the import `entry` of a file in `base_dir` points: absolute-looking
/// paths are refused; others are joined to the base directory of their kind,
/// with `.` components dropped.
pub open spec fn import_target_spec(entry: RawImportEntry, base_dir: Seq<char>, home_dir: Seq<char>) -> Result<Seq<char>, Seq<char>> {
    let p = entry.path_spec();
    if p.len() > 0 && (p[0] == '/' || p[0] == '\\') {
        Err(p)
    } else {
        Ok(dot_free(path_join(match entry.kind_spec() { ImportKind::Relative => base_dir, ImportKind::Home => home_dir }, p)))
    }
}

/// Resolve the import `entry` of a config file in `base_dir`.
pub fn import_target(entry: &RawImportEntry, base_dir: &str, home_dir: &str) -> (r: Result<String, ConfigError>)
    ensures
        match import_target_spec(*entry, base_dir@, home_dir@) {
            Ok(t) => r is Ok && r->Ok_0@ == t,
            Err(p) => r is Err && (r->Err_0 matches ConfigError::ImportAbsolutePath { path } && path@ == p),
        },
{
    let p = entry.path_str();
    if p.unicode_len() > 0 {
        let c = p.get_char(0);
        if c == '/' || c == '\\' {
            return Err(ConfigError::ImportAbsolutePath { path: p.to_owned() });
        }
    }
    let base = match entry.kind() {
        ImportKind::Relative => base_dir,
        ImportKind::Home => home_dir,
    };
    let joined = path_join_exec(base, p);
    Ok(dot_free_exec(joined.as_str()))
}

/// Whether entering the config file at `config_path` (imported from `from`,
/// at `depth`) is allowed: the depth limit, the file's existence, and no
/// cycle through the files being expanded (`stack`, canonical paths).
pub open spec fn import_entry_check(
    config_path: Seq<char>,
    from: Seq<char>,
    depth: nat,
    exists: bool,
    canonical: Seq<char>,
    stack: Seq<Seq<char>>,
    e: Option<ConfigError>,
) -> bool {
    if depth > IMPORT_DEPTH_LIMIT {
        e matches Some(ConfigError::ImportDepthExceeded { limit, path }) && limit == IMPORT_DEPTH_LIMIT && path@ == config_path
    } else if !exists {
        e matches Some(ConfigError::ImportNotFound { path, from: f }) && path@ == config_path && f@ == from
    } else if stack.contains(canonical) {
        e matches Some(ConfigError::ImportCycle { chain }) && chain@ == join_with(stack.push(canonical), " \u{2192} "@)
    } else {
        e is None
    }
}

/// Check that the config file at `config_path` may be expanded: `exists`
/// is whether it exists, `canonical` its canonical path, and `stack` the
/// canonical paths of the files being expanded around it.
#[verifier::loop_isolation(false)]
pub fn enter_import(config_path: &str, from: &str, depth: usize, exists: bool, canonical: &str, stack: &Vec<String>) -> (r: Result<(), ConfigError>)
    ensures
        import_entry_check(config_path@, from@, depth as nat, exists, canonical@, stack@.map_values(|s: String| s@),
            match r { Ok(()) => None, Err(e) => Some(e) }),
{
    if depth > IMPORT_DEPTH_LIMIT {
        return Err(ConfigError::ImportDepthExceeded { limit: IMPORT_DEPTH_LIMIT, path: config_path.to_owned() });
    }
    if !exists {
        return Err(ConfigError::ImportNotFound { path: config_path.to_owned(), from: from.to_owned() });
    }
    let ghost sv = stack@.map_values(|s: String| s@);
    let mut i: usize = 0;
    while i < stack.len()
        invariant
            i <= stack@.len(),
            sv == stack@.map_values(|s: String| s@),
            forall|j: int| 0 <= j < i ==> sv[j] != canonical@,
        decreases stack@.len() - i,
    {
        if eq_str(stack[i].as_str(), canonical) {
            assert(sv[i as int] == canonical@);
            let mut chain: Vec<String> = Vec::new();
            let mut k: usize = 0;
            while k < stack.len()
                invariant
                    k <= stack@.len(),
                    chain@.map_values(|s: String| s@) == sv.subrange(0, k as int),
                    sv == stack@.map_values(|s: String| s@),
                decreases stack@.len() - k,
            {
                let ghost before = chain@.map_values(|s: String| s@);
                let item = stack[k].clone();
                assert(item@ == sv[k as int]);
                chain.push(item);
                assert(chain@.map_values(|s: String| s@) =~= before.push(sv[k as int]));
                assert(sv.subrange(0, k + 1) =~= sv.subrange(0, k as int).push(sv[k as int]));
                k = k + 1;
            }
            let ghost before = chain@.map_values(|s: String| s@);
            chain.push(canonical.to_owned());
            assert(chain@.map_values(|s: String| s@) =~= before.push(canonical@));
            assert(sv.subrange(0, stack@.len() as int) =~= sv);
            return Err(ConfigError::ImportCycle { chain: join_strings(&chain, " \u{2192} ") });
        }
        i = i + 1;
    }
    assert(!sv.contains(canonical@));
    Ok(())
}

// ---------------------------------------------------------------------------
// Merging imported configuration
// ---------------------------------------------------------------------------

/// A profile as written: grouped components.
#[derive(Debug)]
pub struct RawProfile {
    pub components: StrMap<StrMap<RawComponentConfig>>,
}

/// A config file as written.
#[derive(Debug)]
pub struct RawConfig {
    pub imports: Vec<RawImportEntry>,
    pub profile: Option<RawProfile>,
    pub strategy: Option<Strategy>,
    pub bundle: RawBundleRef,
    pub bundles: StrMap<RawBundle>,
}

/// What imported files and the importing file amount to, merged.
#[derive(Debug)]
pub struct MergedConfig {
    pub profile_components: Option<StrMap<StrMap<RawComponentConfig>>>,
    pub strategy: Option<Strategy>,
    pub bundle_use: Vec<String>,
    pub bundles: StrMap<RawBundle>,
}

impl Default for MergedConfig {
    fn default() -> (r: Self)
        ensures
            r.profile_components is None,
            r.strategy is None,
            r.bundle_use@.len() == 0,
            r.bundles@ == Map::<Seq<char>, RawBundle>::empty(),
    {
        MergedConfig { profile_components: None, strategy: None, bundle_use: Vec::new(), bundles: StrMap::new() }
    }
}

impl MergedConfig {
    /// The merged configuration as one config file (with no imports left).
    pub fn into_raw_config(self) -> (r: RawConfig)
        ensures
            r.imports@.len() == 0,
            r.profile is Some == self.profile_components is Some,
            r.profile is Some ==> r.profile->0.components == self.profile_components->0,
            r.strategy == self.strategy,
            r.bundle.use_list == self.bundle_use,
            r.bundles == self.bundles,
    {
        RawConfig {
            imports: Vec::new(),
            profile: match self.profile_components {
                Some(c) => Some(RawProfile { components: c }),
                None => None,
            },
            strategy: self.strategy,
            bundle: RawBundleRef { use_list: self.bundle_use },
            bundles: self.bundles,
        }
    }
}

/// Grouped components replaced component by component: within a source,
/// a later configuration replaces an earlier one whole.
pub open spec fn replace_grouped_view(
    acc: Map<Seq<char>, Map<Seq<char>, Option<Map<Seq<char>, RawParamView>>>>,
    g: Map<Seq<char>, Map<Seq<char>, Option<Map<Seq<char>, RawParamView>>>>,
) -> Map<Seq<char>, Map<Seq<char>, Option<Map<Seq<char>, RawParamView>>>> {
    Map::new(
        |k: Seq<char>| acc.contains_key(k) || g.contains_key(k),
        |k: Seq<char>| if g.contains_key(k) {
            (if acc.contains_key(k) { acc[k] } else { Map::empty() }).union_prefer_right(g[k])
        } else {
            acc[k]
        },
    )
}

/// Insert every entry of `incoming` into `target`, replacing same-named ones.
fn insert_all<V>(target: &mut StrMap<V>, incoming: StrMap<V>)
    ensures
        final(target)@ == old(target)@.union_prefer_right(incoming@),
{
    let ghost ot = target@;
    let ghost inc = incoming;
    incoming.lemma_shape();
    let entries = incoming.into_entries();
    let ghost ents = entries@;
    let n = entries.len();
    let mut rest = entries;
    let mut i: usize = 0;
    while i < n
        invariant
            i <= n == inc.keys().len() == ents.len(),
            strictly_sorted_keys(inc),
            rest@ == ents.subrange(i as int, n as int),
            ents.map_values(|e: (String, V)| e.0@) == inc.keys(),
            ents.map_values(|e: (String, V)| e.1) == inc.vals(),
            target@.dom() == ot.dom().union(Set::new(|k: Seq<char>| in_prefix(inc.keys(), i as int, k))),
            forall|k: Seq<char>| #[trigger] target@.contains_key(k) ==> target@[k] == (if in_prefix(inc.keys(), i as int, k) {
                inc@[k]
            } else {
                ot[k]
            }),
        decreases n - i,
    {
        let (k, v) = rest.remove(0);
        assert(ents[i as int] == (k, v));
        assert(ents.map_values(|e: (String, V)| e.0@)[i as int] == k@);
        assert(ents.map_values(|e: (String, V)| e.1)[i as int] == v);
        assert(rest@ =~= ents.subrange(i + 1, n as int));
        let ghost kk = k@;
        proof { assert(inc@[kk] == v); }
        target.insert(k, v);
        proof {
            assert forall|x: Seq<char>| in_prefix(inc.keys(), i + 1, x) == (in_prefix(inc.keys(), i as int, x) || x == kk) by {
                if in_prefix(inc.keys(), i + 1, x) {
                    let j = choose|j: int| 0 <= j < i + 1 && inc.keys()[j] == x;
                    if j < i {
                        assert(in_prefix(inc.keys(), i as int, x));
                    }
                }
                if x == kk {
                    assert(inc.keys()[i as int] == x);
                }
            }
            assert(target@.dom() =~= ot.dom().union(Set::new(|k: Seq<char>| in_prefix(inc.keys(), i + 1, k))));
        }
        i = i + 1;
    }
    proof {
        assert forall|x: Seq<char>| in_prefix(inc.keys(), n as int, x) == inc@.contains_key(x) by {
            if inc@.contains_key(x) {
                let j = inc.keys().index_of(x);
            }
        }
        assert(target@ =~= ot.union_prefer_right(inc@));
    }
}

/// Replace-merge grouped components into `acc`, source by source.
fn replace_grouped_into(acc: &mut StrMap<StrMap<RawComponentConfig>>, g: StrMap<StrMap<RawComponentConfig>>)
    ensures
        grouped_view(*final(acc)) == replace_grouped_view(grouped_view(*old(acc)), grouped_view(g)),
{
    let ghost oa = grouped_view(*acc);
    let ghost gg = g;
    g.lemma_shape();
    let entries = g.into_entries();
    let ghost ents = entries@;
    let n = entries.len();
    let mut rest = entries;
    let mut i: usize = 0;
    while i < n
        invariant
            i <= n == gg.keys().len() == ents.len(),
            strictly_sorted_keys(gg),
            rest@ == ents.subrange(i as int, n as int),
            ents.map_values(|e: (String, StrMap<RawComponentConfig>)| e.0@) == gg.keys(),
            ents.map_values(|e: (String, StrMap<RawComponentConfig>)| e.1) == gg.vals(),
            grouped_view(*acc).dom() == oa.dom().union(Set::new(|k: Seq<char>| in_prefix(gg.keys(), i as int, k))),
            forall|k: Seq<char>| #[trigger] grouped_view(*acc).contains_key(k) ==> grouped_view(*acc)[k] == (if in_prefix(gg.keys(), i as int, k) {
                (if oa.contains_key(k) { oa[k] } else { Map::empty() }).union_prefer_right(names_view(gg@[k]))
            } else {
                oa[k]
            }),
        decreases n - i,
    {
        let (k, v) = rest.remove(0);
        assert(ents[i as int] == (k, v));
        assert(ents.map_values(|e: (String, StrMap<RawComponentConfig>)| e.0@)[i as int] == k@);
        assert(ents.map_values(|e: (String, StrMap<RawComponentConfig>)| e.1)[i as int] == v);
        assert(rest@ =~= ents.subrange(i + 1, n as int));
        let ghost kk = k@;
        proof {
            assert(!in_prefix(gg.keys(), i as int, kk)) by {
                if in_prefix(gg.keys(), i as int, kk) {
                    let j = choose|j: int| 0 <= j < i && gg.keys()[j] == kk;
                    assert(gg.keys()[j] == gg.keys()[i as int]);
                }
            }
            assert(gg@[kk] == v);
        }
        let ghost before = *acc;
        let mut cur = match acc.remove(k.as_str()) {
            Some(c) => c,
            None => StrMap::new(),
        };
        assert(names_view(cur) =~= (if grouped_view(before).contains_key(kk) { grouped_view(before)[kk] } else { Map::empty() }));
        let ghost cur_before = cur;
        insert_all(&mut cur, v);
        assert(names_view(cur) =~= names_view(cur_before).union_prefer_right(names_view(v)));
        acc.insert(k, cur);
        proof {
            assert(acc@.dom() =~= before@.dom().insert(kk));
            assert(grouped_view(*acc).dom() =~= acc@.dom());
            assert(grouped_view(before).dom() =~= before@.dom());
            assert forall|x: Seq<char>| in_prefix(gg.keys(), i + 1, x) == (in_prefix(gg.keys(), i as int, x) || x == kk) by {
                if in_prefix(gg.keys(), i + 1, x) {
                    let j = choose|j: int| 0 <= j < i + 1 && gg.keys()[j] == x;
                    if j < i {
                        assert(in_prefix(gg.keys(), i as int, x));
                    }
                }
                if x == kk {
                    assert(gg.keys()[i as int] == x);
                }
            }
            assert(grouped_view(*acc).dom() =~= oa.dom().union(Set::new(|k: Seq<char>| in_prefix(gg.keys(), i + 1, k))));
            assert forall|x: Seq<char>| #[trigger] grouped_view(*acc).contains_key(x) implies grouped_view(*acc)[x] == (if in_prefix(gg.keys(), i + 1, x) {
                (if oa.contains_key(x) { oa[x] } else { Map::empty() }).union_prefer_right(names_view(gg@[x]))
            } else {
                oa[x]
            }) by {
                if x != kk {
                    assert(grouped_view(*acc)[x] == grouped_view(before)[x]);
                }
            }
        }
        i = i + 1;
    }
    proof {
        assert forall|x: Seq<char>| in_prefix(gg.keys(), n as int, x) == gg@.contains_key(x) by {
            if gg@.contains_key(x) {
                let j = gg.keys().index_of(x);
            }
        }
        assert(grouped_view(*acc) =~= replace_grouped_view(oa, grouped_view(gg)));
    }
}

/// How a strategy changes when a later file's strategy `s` is merged onto
/// `base`: label, rules (when non-empty) and fs settings are replaced when
/// given; groups are replaced group by group.
pub open spec fn strategy_merged(base: Strategy, s: Strategy, out: Strategy) -> bool {
    &&& out.strategy == (if s.strategy is Some { s.strategy } else { base.strategy })
    &&& out.groups@ == base.groups@.union_prefer_right(s.groups@)
    &&& out.rules == (if s.rules@.len() > 0 { s.rules } else { base.rules })
    &&& out.fs == (if s.fs is Some { s.fs } else { base.fs })
}

/// Merge one file's configuration into the accumulator: profile components
/// are replaced component by component within their source; the strategy
/// is merged as [`strategy_merged`] says; a non-empty `bundle.use` replaces
/// the earlier one; bundles are replaced by name.
pub fn merge_into_acc(acc: &mut MergedConfig, raw: RawConfig)
    ensures
        match raw.profile {
            Some(p) => final(acc).profile_components is Some && grouped_view(final(acc).profile_components->0) == replace_grouped_view(
                match old(acc).profile_components { Some(c) => grouped_view(c), None => Map::empty() },
                grouped_view(p.components),
            ),
            None => final(acc).profile_components == old(acc).profile_components,
        },
        match raw.strategy {
            Some(s) => final(acc).strategy is Some && match old(acc).strategy {
                Some(b) => strategy_merged(b, s, final(acc).strategy->0),
                None => final(acc).strategy->0.strategy == s.strategy && final(acc).strategy->0.groups@ == s.groups@
                    && final(acc).strategy->0.rules@ == s.rules@ && final(acc).strategy->0.fs == s.fs,
            },
            None => final(acc).strategy == old(acc).strategy,
        },
        final(acc).bundle_use == (if raw.bundle.use_list@.len() > 0 { raw.bundle.use_list } else { old(acc).bundle_use }),
        final(acc).bundles@ == old(acc).bundles@.union_prefer_right(raw.bundles@),
{
    let RawConfig { imports: _, profile, strategy, bundle, bundles } = raw;
    if let Some(p) = profile {
        let mut comps = match acc.profile_components.take() {
            Some(c) => c,
            None => StrMap::new(),
        };
        replace_grouped_into(&mut comps, p.components);
        acc.profile_components = Some(comps);
    }
    if let Some(s) = strategy {
        let mut base = match acc.strategy.take() {
            Some(b) => b,
            None => Strategy::empty(),
        };
        let Strategy { strategy: label, groups, rules, fs } = s;
        if label.is_some() {
            base.strategy = label;
        }
        insert_all(&mut base.groups, groups);
        if rules.len() > 0 {
            base.rules = rules;
        }
        if fs.is_some() {
            base.fs = fs;
        }
        acc.strategy = Some(base);
    }
    if bundle.use_list.len() > 0 {
        acc.bundle_use = bundle.use_list;
    }
    insert_all(&mut acc.bundles, bundles);
}

/// The profile section, which a config file must have.
pub fn require_profile(profile: Option<RawProfile>) -> (r: Result<RawProfile, ConfigError>)
    ensures
        match profile {
            Some(p) => r is Ok && r->Ok_0 == p,
            None => r is Err && (r->Err_0 matches ConfigError::InvalidProfile { reason }
                && reason@ == "config.yaml must contain a 'profile' section"@),
        },
{
    match profile {
        Some(p) => Ok(p),
        None => Err(ConfigError::InvalidProfile { reason: "config.yaml must contain a 'profile' section".to_owned() }),
    }
}

/// The validated strategy, or the empty strategy when none is given.
pub fn strategy_or_default(strategy: Option<Strategy>) -> (r: Result<Strategy, ConfigError>)
    ensures
        match strategy {
            Some(s) => match strategy_problem(&s) {
                None => r is Ok && r->Ok_0 == s,
                Some(m) => r is Err && (r->Err_0 matches ConfigError::InvalidStrategy { reason } && reason@ == m),
            },
            None => r is Ok && r->Ok_0.strategy is None && r->Ok_0.groups@.len() == 0 && r->Ok_0.rules@.len() == 0 && r->Ok_0.fs is None,
        },
{
    match strategy {
        Some(s) => validate_strategy(s),
        None => {
            let e = Strategy::empty();
            proof { assert(e.groups@.dom() =~= Set::<Seq<char>>::empty()); }
            Ok(e)
        },
    }
}

/// A profile from a standalone profile file's grouped components.
pub fn profile_from_grouped(components: StrMap<StrMap<RawComponentConfig>>) -> (r: Result<Profile, ConfigError>)
    ensures
        match grouped_problem(components) {
            Some(m) => r is Err && (r->Err_0 matches ConfigError::InvalidProfile { reason } && reason@ == m),
            None => r is Ok && expanded_from(components, r->Ok_0.components),
        },
{
    match expand_grouped_components(components) {
        Ok(flat) => Ok(Profile { components: flat }),
        Err(e) => Err(e),
    }
}

} // verus!
