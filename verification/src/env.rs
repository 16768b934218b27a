//! Execution environment types.
//!
//! Defines the structured representation of environment variable mutations,
//! evidence (provenance), and the accumulated execution context that the
//! executor maintains across actions in a single apply session.
use vstd::prelude::*;
use crate::platform::Platform;
use crate::strmap::StrMap;
use crate::text::{split_nonempty, split_nonempty_exec, join_with, join_strings, trim_trailing_seps, trim_trailing_seps_exec, chars_of};

verus! {

// ---------------------------------------------------------------------------
// Types
// ---------------------------------------------------------------------------

/// A single entry in a path-like environment variable.
///
/// Stored as a raw string; trailing separators and platform case rules are
/// applied only when entries are compared.
#[derive(Debug, PartialEq, Eq, Hash)]
pub struct PathEntry(pub String);

impl Clone for PathEntry {
    fn clone(&self) -> (r: Self)
        ensures
            r == *self,
    {
        PathEntry(self.0.clone())
    }
}

impl PathEntry {
    /// Construct a `PathEntry` from a string.
    pub fn new(s: &str) -> (r: Self)
        ensures
            r.0@ == s@,
    {
        PathEntry(s.to_owned())
    }

    /// The normalized form used for deduplication: trailing `/` and `\`
    /// removed, no case folding.
    pub fn normalize(&self) -> (r: String)
        ensures
            r@ == trim_trailing_seps(self.0@),
    {
        trim_trailing_seps_exec(self.0.as_str())
    }
}

/// A single mutation to the execution environment.
///
/// Mutations are applied in sequence; later `Set` mutations win for scalar
/// variables. Path-like variables are handled by the `*Path` variants which
/// preserve ordering and deduplicate entries.
#[derive(Debug, Clone, PartialEq, Eq)]
pub enum EnvMutation {
    /// Set a scalar variable, overwriting any previous value.
    SetVar { key: String, value: String },
    /// Remove a variable from the environment.
    Unset { key: String },
    /// Prepend entries to a path-like variable (e.g. `PATH`).
    PrependPath { key: String, entries: Vec<PathEntry> },
    /// Append entries to a path-like variable.
    AppendPath { key: String, entries: Vec<PathEntry> },
    /// Remove specific entries from a path-like variable.
    RemovePath { key: String, entries: Vec<PathEntry> },
}

/// Provenance of an [`ExecutionEnvDelta`].
#[derive(Debug, Clone, PartialEq, Eq)]
pub enum EnvEvidence {
    /// Derived from a known static default (e.g. Linuxbrew default prefix).
    StaticDefault,
    /// Obtained by running a command at probe time (e.g. `brew --prefix`).
    Probed { command: String },
    /// Read from a configuration file (e.g. `.tool-versions`).
    ConfigFile { path: String },
}

/// A set of mutations produced by one contributor invocation.
#[derive(Debug, Clone)]
pub struct ExecutionEnvDelta {
    pub mutations: Vec<EnvMutation>,
    pub evidence: EnvEvidence,
}

impl ExecutionEnvDelta {
    /// Construct an empty delta (no-op).
    pub fn empty() -> (r: Self)
        ensures
            r.mutations@.len() == 0,
            r.evidence == EnvEvidence::StaticDefault,
    {
        ExecutionEnvDelta { mutations: Vec::new(), evidence: EnvEvidence::StaticDefault }
    }
}

/// Accumulated execution environment maintained by the executor across actions.
///
/// The `vars` map is passed as process-level environment variables to backend
/// subprocesses, so they see the cumulative environment from earlier actions.
#[derive(Debug)]
pub struct ExecutionEnvContext {
    /// Current snapshot: variable name → value as it would appear in a subprocess.
    pub vars: StrMap<String>,
}

/// Final snapshot of the execution environment, used for `loadout activate`.
#[derive(Debug)]
pub struct ExecutionEnvPlan {
    /// Variable name → final value to export.
    pub vars: StrMap<String>,
}

// ---------------------------------------------------------------------------
// The meaning of mutations
// ---------------------------------------------------------------------------

/// The separator of path-like values: `;` on Windows, `:` elsewhere.
pub open spec fn sep_char(platform: Platform) -> char {
    match platform {
        Platform::Windows => ';',
        _ => ':',
    }
}

/// The separator as a string.
pub open spec fn sep_str(platform: Platform) -> Seq<char> {
    seq![sep_char(platform)]
}

/// The entries of a path-like value: non-empty pieces between separators.
pub open spec fn split_path(value: Seq<char>, platform: Platform) -> Seq<Seq<char>> {
    split_nonempty(value, sep_char(platform))
}

/// ASCII lower-casing of one character's code.
pub open spec fn lower_code(c: char) -> u32 {
    if 'A' <= c && c <= 'Z' {
        (c as u32 + 32) as u32
    } else {
        c as u32
    }
}

/// Equality ignoring ASCII case.
pub open spec fn eq_ignore_ascii_case(a: Seq<char>, b: Seq<char>) -> bool {
    a.len() == b.len() && forall|i: int| 0 <= i < a.len() ==> lower_code(#[trigger] a[i]) == lower_code(b[i])
}

/// Whether two path entries are the same entry: trailing separators are
/// ignored, and on Windows so is ASCII case.
pub open spec fn path_eq(a: Seq<char>, b: Seq<char>, platform: Platform) -> bool {
    let x = trim_trailing_seps(a);
    let y = trim_trailing_seps(b);
    match platform {
        Platform::Windows => eq_ignore_ascii_case(x, y),
        _ => x == y,
    }
}

/// Whether some entry of `result` is the same entry as `e`.
pub open spec fn has_entry(result: Seq<Seq<char>>, e: Seq<char>, platform: Platform) -> bool {
    exists|i: int| 0 <= i < result.len() && path_eq(#[trigger] result[i], e, platform)
}

/// `items` added one by one after `result`, skipping each item that is the
/// same entry as one already present.
pub open spec fn dedup_extend(result: Seq<Seq<char>>, items: Seq<Seq<char>>, platform: Platform) -> Seq<Seq<char>>
    decreases items.len(),
{
    if items.len() == 0 {
        result
    } else {
        let r = dedup_extend(result, items.drop_last(), platform);
        if has_entry(r, items.last(), platform) {
            r
        } else {
            r.push(items.last())
        }
    }
}

/// The raw strings of path entries.
pub open spec fn entry_strs(entries: Seq<PathEntry>) -> Seq<Seq<char>> {
    entries.map_values(|e: PathEntry| e.0@)
}

/// New entries first, then existing ones, without duplicates.
pub open spec fn prepend_dedup(new_entries: Seq<Seq<char>>, existing: Seq<Seq<char>>, platform: Platform) -> Seq<Seq<char>> {
    dedup_extend(dedup_extend(Seq::empty(), new_entries, platform), existing, platform)
}

/// Existing entries first, then new ones, without duplicates.
pub open spec fn append_dedup(existing: Seq<Seq<char>>, new_entries: Seq<Seq<char>>, platform: Platform) -> Seq<Seq<char>> {
    dedup_extend(dedup_extend(Seq::empty(), existing, platform), new_entries, platform)
}

/// The entries of `existing` that match none of `removed`, in order.
pub open spec fn remove_entries(existing: Seq<Seq<char>>, removed: Seq<Seq<char>>, platform: Platform) -> Seq<Seq<char>>
    decreases existing.len(),
{
    if existing.len() == 0 {
        existing
    } else {
        let r = remove_entries(existing.drop_last(), removed, platform);
        if has_entry(removed, existing.last(), platform) {
            r
        } else {
            r.push(existing.last())
        }
    }
}

/// The values of a string map, as character sequences.
pub open spec fn str_vals(m: Map<Seq<char>, String>) -> Map<Seq<char>, Seq<char>> {
    m.map_values(|s: String| s@)
}

/// `vars` with `key` set to the joined `parts`, or without `key` when there are none.
pub open spec fn store_parts(vars: Map<Seq<char>, Seq<char>>, key: Seq<char>, parts: Seq<Seq<char>>, platform: Platform) -> Map<Seq<char>, Seq<char>> {
    if parts.len() == 0 {
        vars.remove(key)
    } else {
        vars.insert(key, join_with(parts, sep_str(platform)))
    }
}

/// The current entries of a path-like variable (none when it is unset).
pub open spec fn current_parts(vars: Map<Seq<char>, Seq<char>>, key: Seq<char>, platform: Platform) -> Seq<Seq<char>> {
    if vars.contains_key(key) {
        split_path(vars[key], platform)
    } else {
        Seq::empty()
    }
}

/// The variables after applying one mutation: `Set` stores the value,
/// `Unset` removes the variable, path mutations store the joined resulting
/// entries (removing the variable when none are left), and `RemovePath`
/// leaves an unset variable unset.
pub open spec fn apply_spec(vars: Map<Seq<char>, Seq<char>>, m: EnvMutation, platform: Platform) -> Map<Seq<char>, Seq<char>> {
    match m {
        EnvMutation::SetVar { key, value } => vars.insert(key@, value@),
        EnvMutation::Unset { key } => vars.remove(key@),
        EnvMutation::PrependPath { key, entries } => store_parts(
            vars,
            key@,
            prepend_dedup(entry_strs(entries@), current_parts(vars, key@, platform), platform),
            platform,
        ),
        EnvMutation::AppendPath { key, entries } => store_parts(
            vars,
            key@,
            append_dedup(current_parts(vars, key@, platform), entry_strs(entries@), platform),
            platform,
        ),
        EnvMutation::RemovePath { key, entries } => if vars.contains_key(key@) {
            store_parts(
                vars,
                key@,
                remove_entries(current_parts(vars, key@, platform), entry_strs(entries@), platform),
                platform,
            )
        } else {
            vars
        },
    }
}

/// The variables after applying `ms` in order.
pub open spec fn merge_spec(vars: Map<Seq<char>, Seq<char>>, ms: Seq<EnvMutation>, platform: Platform) -> Map<Seq<char>, Seq<char>>
    decreases ms.len(),
{
    if ms.len() == 0 {
        vars
    } else {
        apply_spec(merge_spec(vars, ms.drop_last(), platform), ms.last(), platform)
    }
}

// ---------------------------------------------------------------------------
// Executable helpers
// ---------------------------------------------------------------------------

/// The separator for `platform`.
fn path_separator(platform: Platform) -> (r: &'static str)
    ensures
        r@ == sep_str(platform),
{
    match platform {
        Platform::Windows => {
            proof { reveal_strlit(";"); }
            ";"
        },
        Platform::Linux | Platform::Wsl => {
            proof { reveal_strlit(":"); }
            ":"
        },
    }
}

/// ASCII lower-casing of one character's code (executable).
fn lower_code_exec(c: char) -> (r: u32)
    ensures
        r == lower_code(c),
{
    if 'A' <= c && c <= 'Z' {
        (c as u32) + 32
    } else {
        c as u32
    }
}

/// Compare two path entries for equality, applying platform case semantics.
/// Trailing separators are stripped before comparison.
fn path_eq_exec(a: &str, b: &str, platform: Platform) -> (r: bool)
    ensures
        r == path_eq(a@, b@, platform),
{
    let x = chars_of(trim_trailing_seps_exec(a).as_str());
    let y = chars_of(trim_trailing_seps_exec(b).as_str());
    match platform {
        Platform::Windows => {
            if x.len() != y.len() {
                return false;
            }
            let mut i: usize = 0;
            while i < x.len()
                invariant
                    i <= x.len(),
                    x.len() == y.len(),
                    x@ == trim_trailing_seps(a@),
                    y@ == trim_trailing_seps(b@),
                    platform == Platform::Windows,
                    forall|j: int| 0 <= j < i ==> lower_code(#[trigger] x@[j]) == lower_code(y@[j]),
                decreases x.len() - i,
            {
                if lower_code_exec(x[i]) != lower_code_exec(y[i]) {
                    return false;
                }
                i = i + 1;
            }
            true
        },
        Platform::Linux | Platform::Wsl => {
            if x.len() != y.len() {
                return false;
            }
            let mut i: usize = 0;
            while i < x.len()
                invariant
                    i <= x.len(),
                    x.len() == y.len(),
                    x@ == trim_trailing_seps(a@),
                    y@ == trim_trailing_seps(b@),
                    platform != Platform::Windows,
                    forall|j: int| 0 <= j < i ==> x@[j] == y@[j],
                decreases x.len() - i,
            {
                if x[i] != y[i] {
                    return false;
                }
                i = i + 1;
            }
            assert(x@ =~= y@);
            true
        },
    }
}

/// Whether some entry of `result` is the same entry as `e` (executable).
fn has_entry_exec(result: &Vec<String>, e: &str, platform: Platform) -> (r: bool)
    ensures
        r == has_entry(result@.map_values(|x: String| x@), e@, platform),
{
    let ghost rv = result@.map_values(|x: String| x@);
    let mut i: usize = 0;
    while i < result.len()
        invariant
            i <= result.len(),
            rv == result@.map_values(|x: String| x@),
            forall|j: int| 0 <= j < i ==> !path_eq(#[trigger] rv[j], e@, platform),
        decreases result.len() - i,
    {
        if path_eq_exec(result[i].as_str(), e, platform) {
            assert(path_eq(rv[i as int], e@, platform));
            return true;
        }
        i = i + 1;
    }
    false
}

/// Adds the strings of `items` after `result`, skipping duplicates.
fn dedup_extend_exec(result: &mut Vec<String>, items: &Vec<String>, platform: Platform)
    ensures
        final(result)@.map_values(|x: String| x@) == dedup_extend(old(result)@.map_values(|x: String| x@), items@.map_values(|x: String| x@), platform),
{
    let ghost start = result@.map_values(|x: String| x@);
    let ghost iv = items@.map_values(|x: String| x@);
    let mut i: usize = 0;
    while i < items.len()
        invariant
            i <= items.len(),
            iv == items@.map_values(|x: String| x@),
            result@.map_values(|x: String| x@) == dedup_extend(start, iv.subrange(0, i as int), platform),
        decreases items.len() - i,
    {
        assert(iv.subrange(0, i + 1).drop_last() =~= iv.subrange(0, i as int));
        let ghost before = result@.map_values(|x: String| x@);
        if !has_entry_exec(result, items[i].as_str(), platform) {
            result.push(items[i].clone());
            assert(result@.map_values(|x: String| x@) =~= before.push(iv[i as int]));
        }
        i = i + 1;
    }
    assert(iv.subrange(0, items.len() as int) =~= iv);
}

/// The raw strings of `entries`.
fn entry_strings(entries: &Vec<PathEntry>) -> (r: Vec<String>)
    ensures
        r@.map_values(|x: String| x@) == entry_strs(entries@),
{
    let mut out: Vec<String> = Vec::new();
    let mut i: usize = 0;
    while i < entries.len()
        invariant
            i <= entries.len(),
            out@.map_values(|x: String| x@) == entry_strs(entries@).subrange(0, i as int),
        decreases entries.len() - i,
    {
        let ghost before = out@.map_values(|x: String| x@);
        let item = entries[i].0.clone();
        out.push(item);
        assert(out@.map_values(|x: String| x@) =~= before.push(entries@[i as int].0@));
        assert(entry_strs(entries@)[i as int] == entries@[i as int].0@);
        assert(out@.map_values(|x: String| x@) =~= entry_strs(entries@).subrange(0, i + 1));
        i = i + 1;
    }
    assert(entry_strs(entries@).subrange(0, entries.len() as int) =~= entry_strs(entries@));
    out
}

/// The entries of `existing` that match none of `removed` (executable).
fn remove_entries_exec(existing: &Vec<String>, removed: &Vec<String>, platform: Platform) -> (r: Vec<String>)
    ensures
        r@.map_values(|x: String| x@) == remove_entries(existing@.map_values(|x: String| x@), removed@.map_values(|x: String| x@), platform),
{
    let ghost ev = existing@.map_values(|x: String| x@);
    let ghost rv = removed@.map_values(|x: String| x@);
    let mut out: Vec<String> = Vec::new();
    let mut i: usize = 0;
    while i < existing.len()
        invariant
            i <= existing.len(),
            ev == existing@.map_values(|x: String| x@),
            rv == removed@.map_values(|x: String| x@),
            out@.map_values(|x: String| x@) == remove_entries(ev.subrange(0, i as int), rv, platform),
        decreases existing.len() - i,
    {
        let ghost before = out@.map_values(|x: String| x@);
        assert(ev.subrange(0, i + 1).drop_last() =~= ev.subrange(0, i as int));
        if !has_entry_exec(removed, existing[i].as_str(), platform) {
            out.push(existing[i].clone());
            assert(out@.map_values(|x: String| x@) =~= before.push(ev[i as int]));
        }
        i = i + 1;
    }
    assert(ev.subrange(0, existing.len() as int) =~= ev);
    out
}

impl ExecutionEnvContext {
    /// Create an empty context.
    pub fn new() -> (r: Self)
        ensures
            r.vars@ == Map::<Seq<char>, String>::empty(),
    {
        ExecutionEnvContext { vars: StrMap::new() }
    }

    /// Create a context seeded with the given variables (the process
    /// environment, when the executor starts a session).
    pub fn from_vars(vars: StrMap<String>) -> (r: Self)
        ensures
            r.vars@ == vars@,
    {
        ExecutionEnvContext { vars }
    }

    /// The current entries of a path-like variable.
    fn existing_parts(&self, key: &str, platform: Platform) -> (r: Vec<String>)
        ensures
            r@.map_values(|x: String| x@) == current_parts(str_vals(self.vars@), key@, platform),
    {
        match self.vars.get(key) {
            Some(v) => {
                let sep = if matches!(platform, Platform::Windows) { ';' } else { ':' };
                split_nonempty_exec(v.as_str(), sep)
            },
            None => {
                let r: Vec<String> = Vec::new();
                assert(r@.map_values(|x: String| x@) =~= Seq::<Seq<char>>::empty());
                r
            },
        }
    }

    /// Stores the joined `parts` under `key`, or removes `key` when there are none.
    fn store(&mut self, key: &String, parts: &Vec<String>, platform: Platform)
        ensures
            str_vals(final(self).vars@) == store_parts(str_vals(old(self).vars@), key@, parts@.map_values(|x: String| x@), platform),
    {
        let ghost before = self.vars@;
        if parts.len() == 0 {
            self.vars.remove(key.as_str());
            assert(str_vals(self.vars@) =~= str_vals(before).remove(key@));
        } else {
            let sep = path_separator(platform);
            let joined = join_strings(parts, sep);
            self.vars.insert(key.clone(), joined);
            assert(str_vals(self.vars@) =~= str_vals(before).insert(key@, join_with(parts@.map_values(|x: String| x@), sep_str(platform))));
        }
    }

    /// Apply one mutation.
    fn apply_mutation(&mut self, mutation: &EnvMutation, platform: Platform)
        ensures
            str_vals(final(self).vars@) == apply_spec(str_vals(old(self).vars@), *mutation, platform),
    {
        let ghost before = self.vars@;
        match mutation {
            EnvMutation::SetVar { key, value } => {
                self.vars.insert(key.clone(), value.clone());
                assert(str_vals(self.vars@) =~= str_vals(before).insert(key@, value@));
            },
            EnvMutation::Unset { key } => {
                self.vars.remove(key.as_str());
                assert(str_vals(self.vars@) =~= str_vals(before).remove(key@));
            },
            EnvMutation::PrependPath { key, entries } => {
                let existing = self.existing_parts(key.as_str(), platform);
                let new_strs = entry_strings(entries);
                let mut merged: Vec<String> = Vec::new();
                dedup_extend_exec(&mut merged, &new_strs, platform);
                dedup_extend_exec(&mut merged, &existing, platform);
                proof {
                    assert(Seq::<String>::empty().map_values(|x: String| x@) =~= Seq::<Seq<char>>::empty());
                }
                self.store(key, &merged, platform);
            },
            EnvMutation::AppendPath { key, entries } => {
                let existing = self.existing_parts(key.as_str(), platform);
                let new_strs = entry_strings(entries);
                let mut merged: Vec<String> = Vec::new();
                dedup_extend_exec(&mut merged, &existing, platform);
                dedup_extend_exec(&mut merged, &new_strs, platform);
                proof {
                    assert(Seq::<String>::empty().map_values(|x: String| x@) =~= Seq::<Seq<char>>::empty());
                }
                self.store(key, &merged, platform);
            },
            EnvMutation::RemovePath { key, entries } => {
                assert(self.vars@.contains_key(key@) == str_vals(before).contains_key(key@));
                if self.vars.contains_key(key.as_str()) {
                    let existing = self.existing_parts(key.as_str(), platform);
                    let removed = entry_strings(entries);
                    let kept = remove_entries_exec(&existing, &removed, platform);
                    self.store(key, &kept, platform);
                }
            },
        }
    }

    /// Merge a delta into this context, applying its mutations in order.
    ///
    /// - `Set`         – overwrites any previous value.
    /// - `Unset`       – removes the variable (no-op if absent).
    /// - `PrependPath` – prepends entries, then deduplicates.
    /// - `AppendPath`  – appends entries, then deduplicates.
    /// - `RemovePath`  – removes matching entries.
    pub fn merge(&mut self, delta: &ExecutionEnvDelta, platform: Platform)
        ensures
            str_vals(final(self).vars@) == merge_spec(str_vals(old(self).vars@), delta.mutations@, platform),
    {
        let ghost start = str_vals(self.vars@);
        let mut i: usize = 0;
        while i < delta.mutations.len()
            invariant
                i <= delta.mutations.len(),
                str_vals(self.vars@) == merge_spec(start, delta.mutations@.subrange(0, i as int), platform),
            decreases delta.mutations.len() - i,
        {
            self.apply_mutation(&delta.mutations[i], platform);
            proof {
                let ms = delta.mutations@.subrange(0, i + 1);
                assert(ms.drop_last() =~= delta.mutations@.subrange(0, i as int));
            }
            i = i + 1;
        }
        assert(delta.mutations@.subrange(0, delta.mutations.len() as int) =~= delta.mutations@);
    }

    /// Produce a snapshot suitable for `loadout activate`.
    pub fn to_plan(&self) -> (r: ExecutionEnvPlan)
        ensures
            str_vals(r.vars@) == str_vals(self.vars@),
    {
        ExecutionEnvPlan { vars: self.vars.clone_strings() }
    }
}

// ---------------------------------------------------------------------------
// Laws
// ---------------------------------------------------------------------------

/// No two entries of `s` are the same entry.
pub open spec fn entries_distinct(s: Seq<Seq<char>>, platform: Platform) -> bool {
    forall|i: int, j: int| 0 <= i < j < s.len() ==> !path_eq(#[trigger] s[i], #[trigger] s[j], platform)
}

/// Deduplicating extension keeps what was there, in place, and only adds after it.
pub proof fn lemma_dedup_extend_prefix(result: Seq<Seq<char>>, items: Seq<Seq<char>>, platform: Platform)
    ensures
        result.len() <= dedup_extend(result, items, platform).len(),
        dedup_extend(result, items, platform).subrange(0, result.len() as int) == result,
    decreases items.len(),
{
    if items.len() > 0 {
        lemma_dedup_extend_prefix(result, items.drop_last(), platform);
        let r = dedup_extend(result, items.drop_last(), platform);
        assert(r.push(items.last()).subrange(0, result.len() as int) =~= r.subrange(0, result.len() as int));
    }
}

/// Deduplicating extension never introduces two entries that are the same entry.
pub proof fn lemma_dedup_extend_distinct(result: Seq<Seq<char>>, items: Seq<Seq<char>>, platform: Platform)
    requires
        entries_distinct(result, platform),
    ensures
        entries_distinct(dedup_extend(result, items, platform), platform),
    decreases items.len(),
{
    if items.len() > 0 {
        lemma_dedup_extend_distinct(result, items.drop_last(), platform);
        let r = dedup_extend(result, items.drop_last(), platform);
        if !has_entry(r, items.last(), platform) {
            let r2 = r.push(items.last());
            assert forall|i: int, j: int| 0 <= i < j < r2.len() implies !path_eq(#[trigger] r2[i], #[trigger] r2[j], platform) by {
                if j == r.len() {
                    assert(r2[i] == r[i]);
                    if path_eq(r[i], items.last(), platform) {
                        assert(has_entry(r, items.last(), platform));
                    }
                }
            }
        }
    }
}

/// Every item handed to a deduplicating extension is represented in the
/// result by an entry that is the same entry.
pub proof fn lemma_dedup_extend_covers(result: Seq<Seq<char>>, items: Seq<Seq<char>>, platform: Platform, k: int)
    requires
        0 <= k < items.len(),
    ensures
        has_entry(dedup_extend(result, items, platform), items[k], platform),
    decreases items.len(),
{
    let r = dedup_extend(result, items.drop_last(), platform);
    let full = dedup_extend(result, items, platform);
    if k < items.len() - 1 {
        lemma_dedup_extend_covers(result, items.drop_last(), platform, k);
        assert(items.drop_last()[k] == items[k]);
        let i = choose|i: int| 0 <= i < r.len() && path_eq(#[trigger] r[i], items[k], platform);
        if !has_entry(r, items.last(), platform) {
            assert(full[i] == r[i]);
        }
    } else {
        if !has_entry(r, items.last(), platform) {
            lemma_path_eq_reflexive(items.last(), platform);
            assert(full[r.len() as int] == items.last());
        }
    }
}

/// Every entry compares as the same entry as itself.
pub proof fn lemma_path_eq_reflexive(e: Seq<char>, platform: Platform)
    ensures
        path_eq(e, e, platform),
{
}

/// Law: setting a variable and reading it back gives the value set, and
/// other variables are untouched.
pub proof fn law_set_then_read(vars: Map<Seq<char>, Seq<char>>, key: String, value: String, platform: Platform, other: Seq<char>)
    requires
        other != key@,
    ensures
        apply_spec(vars, EnvMutation::SetVar { key, value }, platform)[key@] == value@,
        apply_spec(vars, EnvMutation::SetVar { key, value }, platform).contains_key(key@),
        apply_spec(vars, EnvMutation::SetVar { key, value }, platform).contains_key(other) == vars.contains_key(other),
        vars.contains_key(other) ==> apply_spec(vars, EnvMutation::SetVar { key, value }, platform)[other] == vars[other],
{
}

/// Law: unsetting a variable removes it and leaves the others.
pub proof fn law_unset_removes(vars: Map<Seq<char>, Seq<char>>, key: String, platform: Platform)
    ensures
        !apply_spec(vars, EnvMutation::Unset { key }, platform).contains_key(key@),
        apply_spec(vars, EnvMutation::Unset { key }, platform) == vars.remove(key@),
{
}

/// Law: the entries a prepend or append leaves are pairwise distinct, and
/// every new and every existing entry is still represented.
pub proof fn law_prepend_append_dedup(new_entries: Seq<Seq<char>>, existing: Seq<Seq<char>>, platform: Platform)
    ensures
        entries_distinct(prepend_dedup(new_entries, existing, platform), platform),
        entries_distinct(append_dedup(existing, new_entries, platform), platform),
        forall|k: int| 0 <= k < new_entries.len() ==> has_entry(prepend_dedup(new_entries, existing, platform), #[trigger] new_entries[k], platform),
        forall|k: int| 0 <= k < existing.len() ==> has_entry(prepend_dedup(new_entries, existing, platform), #[trigger] existing[k], platform),
        forall|k: int| 0 <= k < new_entries.len() ==> has_entry(append_dedup(existing, new_entries, platform), #[trigger] new_entries[k], platform),
        forall|k: int| 0 <= k < existing.len() ==> has_entry(append_dedup(existing, new_entries, platform), #[trigger] existing[k], platform),
{
    let e0 = Seq::<Seq<char>>::empty();
    lemma_dedup_extend_distinct(e0, new_entries, platform);
    lemma_dedup_extend_distinct(dedup_extend(e0, new_entries, platform), existing, platform);
    lemma_dedup_extend_distinct(e0, existing, platform);
    lemma_dedup_extend_distinct(dedup_extend(e0, existing, platform), new_entries, platform);
    let p1 = dedup_extend(e0, new_entries, platform);
    let a1 = dedup_extend(e0, existing, platform);
    assert forall|k: int| 0 <= k < new_entries.len() implies has_entry(prepend_dedup(new_entries, existing, platform), #[trigger] new_entries[k], platform) by {
        lemma_dedup_extend_covers(e0, new_entries, platform, k);
        lemma_dedup_extend_prefix(p1, existing, platform);
        let i = choose|i: int| 0 <= i < p1.len() && path_eq(#[trigger] p1[i], new_entries[k], platform);
        assert(prepend_dedup(new_entries, existing, platform).subrange(0, p1.len() as int)[i] == p1[i]);
    }
    assert forall|k: int| 0 <= k < existing.len() implies has_entry(prepend_dedup(new_entries, existing, platform), #[trigger] existing[k], platform) by {
        lemma_dedup_extend_covers(p1, existing, platform, k);
    }
    assert forall|k: int| 0 <= k < existing.len() implies has_entry(append_dedup(existing, new_entries, platform), #[trigger] existing[k], platform) by {
        lemma_dedup_extend_covers(e0, existing, platform, k);
        lemma_dedup_extend_prefix(a1, new_entries, platform);
        let i = choose|i: int| 0 <= i < a1.len() && path_eq(#[trigger] a1[i], existing[k], platform);
        assert(append_dedup(existing, new_entries, platform).subrange(0, a1.len() as int)[i] == a1[i]);
    }
    assert forall|k: int| 0 <= k < new_entries.len() implies has_entry(append_dedup(existing, new_entries, platform), #[trigger] new_entries[k], platform) by {
        lemma_dedup_extend_covers(a1, new_entries, platform, k);
    }
}

/// Law: after removing entries, none of the remaining entries matches a
/// removed one, and every kept entry was already there.
pub proof fn law_remove_path(existing: Seq<Seq<char>>, removed: Seq<Seq<char>>, platform: Platform)
    ensures
        forall|i: int| 0 <= i < remove_entries(existing, removed, platform).len() ==>
            !has_entry(removed, #[trigger] remove_entries(existing, removed, platform)[i], platform),
        forall|i: int| 0 <= i < remove_entries(existing, removed, platform).len() ==>
            existing.contains(#[trigger] remove_entries(existing, removed, platform)[i]),
    decreases existing.len(),
{
    if existing.len() > 0 {
        law_remove_path(existing.drop_last(), removed, platform);
        let r = remove_entries(existing.drop_last(), removed, platform);
        assert forall|i: int| 0 <= i < r.len() implies existing.contains(#[trigger] r[i]) by {
            let j = choose|j: int| 0 <= j < existing.drop_last().len() && existing.drop_last()[j] == r[i];
            assert(existing[j] == r[i]);
        }
        assert(existing[existing.len() - 1] == existing.last());
    }
}

} // verus!
