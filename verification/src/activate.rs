//! Activation script generator.
//!
//! Converts an [`ExecutionEnvPlan`] into a shell-specific activation fragment
//! that can be evaluated in the user's interactive shell.
//!
//! - Only `export VAR=value` / `set -x VAR value` / `$env:VAR = ...` lines are emitted.
//! - Values are shell-escaped.
//! - Variables with empty values are skipped.
//! - Variables are emitted in ascending name order.
use vstd::prelude::*;
use crate::env::ExecutionEnvPlan;
use crate::text::{chars_of, concat_all, concat2, concat3, join_strings, join_with, replace_all, replace_str};

verus! {

/// The target shell for activation script generation.
#[derive(Debug, Clone, Copy, PartialEq, Eq)]
pub enum ShellKind {
    Bash,
    Zsh,
    Fish,
    PowerShell,
}

/// Characters that make a POSIX shell word need quoting.
pub open spec fn is_sh_special(c: char) -> bool {
    c == '\'' || c == ' ' || c == '"' || c == '\\' || c == '$' || c == '`' || c == '!' || c == '\n' || c == '\t'
        || c == ';' || c == '&' || c == '|' || c == '<' || c == '>' || c == '(' || c == ')' || c == '{' || c == '}'
        || c == '#' || c == '~' || c == '*' || c == '?' || c == '[' || c == ']'
}

/// Whether `s` holds a character that needs quoting.
pub open spec fn has_sh_special(s: Seq<char>) -> bool {
    exists|i: int| 0 <= i < s.len() && is_sh_special(#[trigger] s[i])
}

/// POSIX single-quote quoting: empty → `''`; no special character → as is;
/// else wrapped in `'…'` with each `'` written `'\''`.
pub open spec fn sh_quote_spec(v: Seq<char>) -> Seq<char> {
    if v.len() == 0 {
        "''"@
    } else if !has_sh_special(v) {
        v
    } else {
        "'"@ + replace_all(v, "'"@, "'\\''"@) + "'"@
    }
}

/// PowerShell single-quote quoting: wrapped in `'…'` with each `'` doubled.
pub open spec fn ps_quote_spec(v: Seq<char>) -> Seq<char> {
    "'"@ + replace_all(v, "'"@, "''"@) + "'"@
}

/// The line that sets `key` to the nonempty `value` in `shell`.
pub open spec fn activation_line(key: Seq<char>, value: Seq<char>, shell: ShellKind) -> Seq<char> {
    match shell {
        ShellKind::Bash | ShellKind::Zsh => "export "@ + key + "="@ + sh_quote_spec(value),
        ShellKind::Fish => "set -x "@ + key + " "@ + sh_quote_spec(value),
        ShellKind::PowerShell => "$env:"@ + key + " = "@ + ps_quote_spec(value),
    }
}

/// The lines for variables `keys`/`vals` (in order), skipping empty values.
pub open spec fn activation_lines(keys: Seq<Seq<char>>, vals: Seq<String>, shell: ShellKind) -> Seq<Seq<char>>
    decreases keys.len(),
{
    if keys.len() == 0 || vals.len() == 0 {
        Seq::empty()
    } else {
        let rest = activation_lines(keys.drop_last(), vals.drop_last(), shell);
        if vals.last()@.len() == 0 {
            rest
        } else {
            rest.push(activation_line(keys.last(), vals.last()@, shell))
        }
    }
}

/// Whether `v` holds a character that needs quoting (executable).
fn has_special(v: &str) -> (r: bool)
    ensures
        r == has_sh_special(v@),
{
    let cs = chars_of(v);
    let mut i: usize = 0;
    while i < cs.len()
        invariant
            i <= cs.len(),
            cs@ == v@,
            forall|j: int| 0 <= j < i ==> !is_sh_special(#[trigger] cs@[j]),
        decreases cs.len() - i,
    {
        let c = cs[i];
        if c == '\'' || c == ' ' || c == '"' || c == '\\' || c == '$' || c == '`' || c == '!' || c == '\n' || c == '\t'
            || c == ';' || c == '&' || c == '|' || c == '<' || c == '>' || c == '(' || c == ')' || c == '{' || c == '}'
            || c == '#' || c == '~' || c == '*' || c == '?' || c == '[' || c == ']' {
            assert(is_sh_special(v@[i as int]));
            return true;
        }
        i = i + 1;
    }
    false
}

/// Quote a value for POSIX sh / bash / zsh / fish using single-quote syntax.
///
/// An embedded single quote ends the quoted string, inserts `\'`, and starts a
/// new one: `foo'bar` → `'foo'\''bar'`.
pub fn sh_quote(value: &str) -> (r: String)
    ensures
        r@ == sh_quote_spec(value@),
{
    proof { reveal_strlit("'"); }
    if value.unicode_len() == 0 {
        return "''".to_owned();
    }
    if !has_special(value) {
        return value.to_owned();
    }
    let escaped = replace_str(value, "'", "'\\''");
    concat3("'", escaped.as_str(), "'")
}

/// Quote a value for PowerShell using single-quote syntax (`'` doubled).
pub fn ps_quote(value: &str) -> (r: String)
    ensures
        r@ == ps_quote_spec(value@),
{
    proof { reveal_strlit("'"); }
    let escaped = replace_str(value, "'", "''");
    concat3("'", escaped.as_str(), "'")
}

/// The line that sets `key` to `value` in `shell`.
fn line_for(key: &str, value: &str, shell: ShellKind) -> (r: String)
    ensures
        r@ == activation_line(key@, value@, shell),
{
    match shell {
        ShellKind::Bash | ShellKind::Zsh => {
            let q = sh_quote(value);
            let parts = vec!["export ", key, "=", q.as_str()];
            let r = concat_all(&parts);
            proof {
                reveal_with_fuel(crate::text::concat_seq, 5);
                assert(parts@.map_values(|p: &str| p@) =~= seq!["export "@, key@, "="@, q@]);
            }
            r
        },
        ShellKind::Fish => {
            let q = sh_quote(value);
            let parts = vec!["set -x ", key, " ", q.as_str()];
            let r = concat_all(&parts);
            proof {
                reveal_with_fuel(crate::text::concat_seq, 5);
                assert(parts@.map_values(|p: &str| p@) =~= seq!["set -x "@, key@, " "@, q@]);
            }
            r
        },
        ShellKind::PowerShell => {
            let q = ps_quote(value);
            let parts = vec!["$env:", key, " = ", q.as_str()];
            let r = concat_all(&parts);
            proof {
                reveal_with_fuel(crate::text::concat_seq, 5);
                assert(parts@.map_values(|p: &str| p@) =~= seq!["$env:"@, key@, " = "@, q@]);
            }
            r
        },
    }
}

/// Generate a shell activation script from `plan` for the given `shell`:
/// one line per variable with a nonempty value, in ascending name order,
/// joined by newlines.
pub fn generate_activation(plan: &ExecutionEnvPlan, shell: ShellKind) -> (r: String)
    ensures
        r@ == join_with(activation_lines(plan.vars.keys(), plan.vars.vals(), shell), "\n"@),
{
    let n = plan.vars.len();
    let ghost keys = plan.vars.keys();
    let ghost vals = plan.vars.vals();
    let mut lines: Vec<String> = Vec::new();
    let mut i: usize = 0;
    while i < n
        invariant
            i <= n == keys.len() == vals.len(),
            keys == plan.vars.keys(),
            vals == plan.vars.vals(),
            lines@.map_values(|x: String| x@) == activation_lines(keys.subrange(0, i as int), vals.subrange(0, i as int), shell),
        decreases n - i,
    {
        let key = plan.vars.key_at(i);
        let value = plan.vars.value_at(i);
        proof {
            assert(keys.subrange(0, i + 1).drop_last() =~= keys.subrange(0, i as int));
            assert(vals.subrange(0, i + 1).drop_last() =~= vals.subrange(0, i as int));
        }
        if value.unicode_len() > 0 {
            let line = line_for(key.as_str(), value.as_str(), shell);
            let ghost before = lines@.map_values(|x: String| x@);
            lines.push(line);
            assert(lines@.map_values(|x: String| x@) =~= before.push(activation_line(keys[i as int], vals[i as int]@, shell)));
        }
        i = i + 1;
    }
    proof {
        assert(keys.subrange(0, n as int) =~= keys);
        assert(vals.subrange(0, n as int) =~= vals);
    }
    join_strings(&lines, "\n")
}

} // verus!
