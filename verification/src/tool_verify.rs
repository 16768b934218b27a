//! Tool resource verification.
//!
//! After a managed-script install the declared tool is checked: its identity
//! (a command resolving to an expected path, a file, a directory or a symlink
//! target) and, when declared, its version, read from the first non-blank line
//! of a command's output with a regular expression and checked against a
//! semver constraint. After an uninstall the recorded path must be gone.
//!
//! The filesystem probes and the running of the version command are done by
//! the caller; this module decides, from what they observed, whether the tool
//! passes and which error is reported.
use vstd::prelude::*;
use crate::params_validator::{format_list, quoted_list};
use crate::text::{is_ws, is_ws_exec, chars_of, concat_all, concat_seq, first_index_of, lemma_first_index_of, substring};
use crate::tool::{ToolIdentityVerify, ToolObservedFacts, ToolVerifyContract, ToolVersionVerify};

verus! {

// ---------------------------------------------------------------------------
// Errors
// ---------------------------------------------------------------------------

/// Errors that can occur during tool resource verification.
#[derive(Debug, Clone, PartialEq)]
pub enum ToolVerifyError {
    /// The tool was not found at any expected location.
    IdentityNotFound { resource_id: String, reason: String },
    /// The resolved path is not in the expected set declared in `one_of`.
    PathNotInExpectedSet { resource_id: String, resolved: String, candidates: Vec<String> },
    /// The declared version constraint is not satisfied.
    VersionConstraintNotMet { resource_id: String, found: String, constraint: String },
    /// The version output could not be parsed with the declared regex.
    VersionParseFailed { resource_id: String, output: String, regex: String },
    /// The recorded path still exists after uninstall.
    AbsenceCheckFailed { resource_id: String, path: String },
    /// An I/O error occurred while verifying.
    IoError { resource_id: String, reason: String },
}

/// The mathematical content of a [`ToolVerifyError`].
pub enum ToolFault {
    IdentityNotFound { resource_id: Seq<char>, reason: Seq<char> },
    PathNotInExpectedSet { resource_id: Seq<char>, resolved: Seq<char>, candidates: Seq<Seq<char>> },
    VersionConstraintNotMet { resource_id: Seq<char>, found: Seq<char>, constraint: Seq<char> },
    VersionParseFailed { resource_id: Seq<char>, output: Seq<char>, regex: Seq<char> },
    AbsenceCheckFailed { resource_id: Seq<char>, path: Seq<char> },
    IoError { resource_id: Seq<char>, reason: Seq<char> },
}

impl View for ToolVerifyError {
    type V = ToolFault;

    open spec fn view(&self) -> ToolFault {
        match self {
            ToolVerifyError::IdentityNotFound { resource_id, reason } =>
                ToolFault::IdentityNotFound { resource_id: resource_id@, reason: reason@ },
            ToolVerifyError::PathNotInExpectedSet { resource_id, resolved, candidates } =>
                ToolFault::PathNotInExpectedSet {
                    resource_id: resource_id@,
                    resolved: resolved@,
                    candidates: candidates@.map_values(|s: String| s@),
                },
            ToolVerifyError::VersionConstraintNotMet { resource_id, found, constraint } =>
                ToolFault::VersionConstraintNotMet { resource_id: resource_id@, found: found@, constraint: constraint@ },
            ToolVerifyError::VersionParseFailed { resource_id, output, regex } =>
                ToolFault::VersionParseFailed { resource_id: resource_id@, output: output@, regex: regex@ },
            ToolVerifyError::AbsenceCheckFailed { resource_id, path } =>
                ToolFault::AbsenceCheckFailed { resource_id: resource_id@, path: path@ },
            ToolVerifyError::IoError { resource_id, reason } =>
                ToolFault::IoError { resource_id: resource_id@, reason: reason@ },
        }
    }
}

/// The message of each fault.
pub open spec fn fault_message(f: ToolFault) -> Seq<char> {
    match f {
        ToolFault::IdentityNotFound { resource_id, reason } =>
            "tool '"@ + resource_id + "' identity check failed: "@ + reason,
        ToolFault::PathNotInExpectedSet { resource_id, resolved, candidates } =>
            "tool '"@ + resource_id + "' resolved to '"@ + resolved + "' which is not in expected set: "@
                + quoted_list(candidates),
        ToolFault::VersionConstraintNotMet { resource_id, found, constraint } =>
            "tool '"@ + resource_id + "' version constraint '"@ + constraint + "' not met: found '"@ + found + "'"@,
        ToolFault::VersionParseFailed { resource_id, output, regex } =>
            "tool '"@ + resource_id + "' version parse failed: regex='"@ + regex + "', output='"@ + output + "'"@,
        ToolFault::AbsenceCheckFailed { resource_id, path } =>
            "tool '"@ + resource_id + "' absence check failed: '"@ + path + "' still exists"@,
        ToolFault::IoError { resource_id, reason } =>
            "tool '"@ + resource_id + "' I/O error: "@ + reason,
    }
}

impl ToolVerifyError {
    /// The human-readable message.
    pub fn message(&self) -> (r: String)
        ensures
            r@ == fault_message(self@),
    {
        match self {
            ToolVerifyError::IdentityNotFound { resource_id, reason } => {
                let parts = vec!["tool '", resource_id.as_str(), "' identity check failed: ", reason.as_str()];
                let r = concat_all(&parts);
                proof {
                    reveal_with_fuel(concat_seq, 5);
                    assert(parts@.map_values(|p: &str| p@) =~= seq!["tool '"@, resource_id@, "' identity check failed: "@, reason@]);
                }
                r
            },
            ToolVerifyError::PathNotInExpectedSet { resource_id, resolved, candidates } => {
                let list = format_list(candidates);
                let parts = vec!["tool '", resource_id.as_str(), "' resolved to '", resolved.as_str(),
                    "' which is not in expected set: ", list.as_str()];
                let r = concat_all(&parts);
                proof {
                    reveal_with_fuel(concat_seq, 7);
                    assert(parts@.map_values(|p: &str| p@) =~= seq!["tool '"@, resource_id@, "' resolved to '"@, resolved@,
                        "' which is not in expected set: "@, list@]);
                }
                r
            },
            ToolVerifyError::VersionConstraintNotMet { resource_id, found, constraint } => {
                let parts = vec!["tool '", resource_id.as_str(), "' version constraint '", constraint.as_str(),
                    "' not met: found '", found.as_str(), "'"];
                let r = concat_all(&parts);
                proof {
                    reveal_with_fuel(concat_seq, 8);
                    assert(parts@.map_values(|p: &str| p@) =~= seq!["tool '"@, resource_id@, "' version constraint '"@,
                        constraint@, "' not met: found '"@, found@, "'"@]);
                }
                r
            },
            ToolVerifyError::VersionParseFailed { resource_id, output, regex } => {
                let parts = vec!["tool '", resource_id.as_str(), "' version parse failed: regex='", regex.as_str(),
                    "', output='", output.as_str(), "'"];
                let r = concat_all(&parts);
                proof {
                    reveal_with_fuel(concat_seq, 8);
                    assert(parts@.map_values(|p: &str| p@) =~= seq!["tool '"@, resource_id@, "' version parse failed: regex='"@,
                        regex@, "', output='"@, output@, "'"@]);
                }
                r
            },
            ToolVerifyError::AbsenceCheckFailed { resource_id, path } => {
                let parts = vec!["tool '", resource_id.as_str(), "' absence check failed: '", path.as_str(), "' still exists"];
                let r = concat_all(&parts);
                proof {
                    reveal_with_fuel(concat_seq, 6);
                    assert(parts@.map_values(|p: &str| p@) =~= seq!["tool '"@, resource_id@, "' absence check failed: '"@,
                        path@, "' still exists"@]);
                }
                r
            },
            ToolVerifyError::IoError { resource_id, reason } => {
                let parts = vec!["tool '", resource_id.as_str(), "' I/O error: ", reason.as_str()];
                let r = concat_all(&parts);
                proof {
                    reveal_with_fuel(concat_seq, 5);
                    assert(parts@.map_values(|p: &str| p@) =~= seq!["tool '"@, resource_id@, "' I/O error: "@, reason@]);
                }
                r
            },
        }
    }
}

// ---------------------------------------------------------------------------
// Absence check
// ---------------------------------------------------------------------------

/// The outcome of the absence check: satisfied when no path was recorded or
/// the recorded path is gone; otherwise the path still exists.
pub open spec fn absence_outcome(resource_id: Seq<char>, recorded: Option<Seq<char>>, exists: bool) -> Result<(), ToolFault> {
    match recorded {
        Some(p) => if exists { Err(ToolFault::AbsenceCheckFailed { resource_id, path: p }) } else { Ok(()) },
        None => Ok(()),
    }
}

/// Check that a previously recorded tool path no longer exists after an
/// uninstall. Only `observed.resolved_path` is checked; `recorded_path_exists`
/// is what the filesystem said of it (ignored when no path was recorded).
pub fn check_absence(resource_id: &str, observed: &ToolObservedFacts, recorded_path_exists: bool) -> (r: Result<(), ToolVerifyError>)
    ensures
        match r {
            Ok(()) => absence_outcome(resource_id@, opt_view(observed.resolved_path), recorded_path_exists) is Ok,
            Err(e) => absence_outcome(resource_id@, opt_view(observed.resolved_path), recorded_path_exists) == Err::<(), ToolFault>(e@),
        },
{
    match &observed.resolved_path {
        Some(p) => {
            if recorded_path_exists {
                Err(ToolVerifyError::AbsenceCheckFailed { resource_id: resource_id.to_owned(), path: p.clone() })
            } else {
                Ok(())
            }
        },
        None => Ok(()),
    }
}

/// The view of an optional string.
pub open spec fn opt_view(o: Option<String>) -> Option<Seq<char>> {
    match o {
        Some(s) => Some(s@),
        None => None,
    }
}

// ---------------------------------------------------------------------------
// The first non-blank line of command output
// ---------------------------------------------------------------------------

/// Whether `s` is empty once white space is trimmed.
pub open spec fn is_blank(s: Seq<char>) -> bool {
    forall|i: int| 0 <= i < s.len() ==> is_ws(#[trigger] s[i])
}

/// A line with the `\r` of a `\r\n` ending removed.
pub open spec fn strip_cr(s: Seq<char>) -> Seq<char> {
    if s.len() > 0 && s.last() == '\r' { s.drop_last() } else { s }
}

/// The lines of `s` as `str::lines` yields them: split at `\n`, a `\r` right
/// before the `\n` dropped, and no empty line after a final `\n`.
pub open spec fn text_lines(s: Seq<char>) -> Seq<Seq<char>>
    decreases s.len(),
{
    if s.len() == 0 {
        Seq::empty()
    } else if !s.contains('\n') {
        seq![s]
    } else {
        let i = first_index_of(s, '\n');
        if 0 <= i < s.len() {
            seq![strip_cr(s.subrange(0, i))] + text_lines(s.subrange(i + 1, s.len() as int))
        } else {
            Seq::empty()
        }
    }
}

/// The first line of `lines` that is not blank, or the empty line.
#[verifier::opaque]
pub open spec fn first_nonblank(lines: Seq<Seq<char>>) -> Seq<char>
    decreases lines.len(),
{
    if lines.len() == 0 {
        Seq::empty()
    } else if !is_blank(lines[0]) {
        lines[0]
    } else {
        first_nonblank(lines.drop_first())
    }
}

/// The first non-blank line of `s`, or the empty line.
pub open spec fn first_nonblank_line(s: Seq<char>) -> Seq<char> {
    first_nonblank(text_lines(s))
}

/// Whether `cs[from..to]` is blank (executable).
fn is_blank_range(cs: &Vec<char>, from: usize, to: usize) -> (r: bool)
    requires
        from <= to <= cs.len(),
    ensures
        r == is_blank(cs@.subrange(from as int, to as int)),
{
    let mut i: usize = from;
    while i < to
        invariant
            from <= i <= to <= cs.len(),
            forall|j: int| from <= j < i ==> is_ws(#[trigger] cs@[j]),
        decreases to - i,
    {
        if !is_ws_exec(cs[i]) {
            assert(cs@.subrange(from as int, to as int)[i - from] == cs@[i as int]);
            return false;
        }
        i = i + 1;
    }
    assert forall|k: int| 0 <= k < to - from implies is_ws(#[trigger] cs@.subrange(from as int, to as int)[k]) by {
        assert(cs@.subrange(from as int, to as int)[k] == cs@[from + k]);
    }
    true
}

/// One step of `text_lines`: the suffix from `start`, whose first newline is
/// at `j`, is the line before it (its `\r` ending dropped) and the lines after.
proof fn lemma_text_lines_step(s: Seq<char>, start: int, j: int)
    requires
        0 <= start <= j < s.len(),
        s[j] == '\n',
        forall|k: int| start <= k < j ==> s[k] != '\n',
    ensures
        text_lines(s.subrange(start, s.len() as int)) == seq![strip_cr(s.subrange(start, j))]
            + text_lines(s.subrange(j + 1, s.len() as int)),
{
    let t = s.subrange(start, s.len() as int);
    assert(t[j - start] == '\n');
    assert(t.contains('\n'));
    assert forall|k: int| 0 <= k < j - start implies t[k] != '\n' by {
        assert(t[k] == s[start + k]);
    }
    lemma_first_index_of(t, '\n', j - start);
    assert(t.subrange(0, j - start) =~= s.subrange(start, j));
    assert(t.subrange(j - start + 1, t.len() as int) =~= s.subrange(j + 1, s.len() as int));
    reveal_with_fuel(text_lines, 1);
}

/// Scanning a line that ends at the newline `j`: the first non-blank line
/// from `start` is the stripped line when it is not blank, else the first
/// non-blank line after the newline.
proof fn lemma_line_step(s: Seq<char>, start: int, j: int, end: int)
    requires
        0 <= start <= j < s.len(),
        s[j] == '\n',
        forall|k: int| start <= k < j ==> s[k] != '\n',
        end == (if j > start && s[j - 1] == '\r' { j - 1 } else { j }),
    ensures
        !is_blank(s.subrange(start, end)) ==> first_nonblank(text_lines(s.subrange(start, s.len() as int))) == s.subrange(start, end),
        is_blank(s.subrange(start, end)) ==> first_nonblank(text_lines(s.subrange(start, s.len() as int)))
            == first_nonblank(text_lines(s.subrange(j + 1, s.len() as int))),
{
    lemma_text_lines_step(s, start, j);
    let line = s.subrange(start, j);
    if j > start && s[j - 1] == '\r' {
        assert(line.drop_last() =~= s.subrange(start, end));
    }
    assert(strip_cr(line) == s.subrange(start, end));
    let rest = text_lines(s.subrange(j + 1, s.len() as int));
    let lines = seq![s.subrange(start, end)] + rest;
    assert(lines.drop_first() =~= rest);
    assert(lines[0] == s.subrange(start, end));
    reveal_with_fuel(first_nonblank, 1);
}

/// The last line: a nonempty suffix from `start` without a newline.
proof fn lemma_last_line(s: Seq<char>, start: int)
    requires
        0 <= start < s.len(),
        forall|k: int| start <= k < s.len() ==> s[k] != '\n',
    ensures
        !is_blank(s.subrange(start, s.len() as int)) ==> first_nonblank(text_lines(s.subrange(start, s.len() as int)))
            == s.subrange(start, s.len() as int),
        is_blank(s.subrange(start, s.len() as int)) ==> first_nonblank(text_lines(s.subrange(start, s.len() as int)))
            == Seq::<char>::empty(),
{
    let t = s.subrange(start, s.len() as int);
    if t.contains('\n') {
        let k = choose|k: int| 0 <= k < t.len() && t[k] == '\n';
        assert(t[k] == s[start + k]);
    }
    reveal_with_fuel(text_lines, 1);
    assert(text_lines(t) == seq![t]);
    assert(seq![t].drop_first() =~= Seq::<Seq<char>>::empty());
    reveal_with_fuel(first_nonblank, 2);
}

/// No lines are left in an empty suffix.
proof fn lemma_no_line(s: Seq<char>)
    requires
        s.len() == 0,
    ensures
        first_nonblank(text_lines(s)) == Seq::<char>::empty(),
{
    reveal_with_fuel(text_lines, 1);
    reveal_with_fuel(first_nonblank, 1);
}

/// The position of the first newline in `cs` at or after `start`, or its length.
fn next_newline(cs: &Vec<char>, start: usize) -> (j: usize)
    requires
        start <= cs.len(),
    ensures
        start <= j <= cs.len(),
        j < cs.len() ==> cs@[j as int] == '\n',
        forall|k: int| start <= k < j ==> cs@[k] != '\n',
{
    let mut j: usize = start;
    while j < cs.len() && cs[j] != '\n'
        invariant
            start <= j <= cs.len(),
            forall|k: int| start <= k < j ==> cs@[k] != '\n',
        decreases cs.len() - j,
    {
        j = j + 1;
    }
    j
}

/// The first non-blank line of `stdout`, as `str::lines` splits it and
/// `str::trim` judges blankness; the empty line when every line is blank.
pub fn first_nonblank_line_of(stdout: &str) -> (r: String)
    ensures
        r@ == first_nonblank_line(stdout@),
{
    let cs = chars_of(stdout);
    let n = cs.len();
    let mut start: usize = 0;
    assert(cs@.subrange(0, n as int) =~= stdout@);
    while start < n
        invariant
            start <= n == cs.len(),
            cs@ == stdout@,
            first_nonblank_line(stdout@) == first_nonblank(text_lines(cs@.subrange(start as int, n as int))),
        decreases n - start,
    {
        let j = next_newline(&cs, start);
        if j == n {
            proof { lemma_last_line(cs@, start as int); }
            if is_blank_range(&cs, start, n) {
                return String::new();
            }
            return substring(&cs, start, n);
        }
        let end = if j > start && cs[j - 1] == '\r' { j - 1 } else { j };
        proof { lemma_line_step(cs@, start as int, j as int, end as int); }
        if !is_blank_range(&cs, start, end) {
            return substring(&cs, start, end);
        }
        start = j + 1;
    }
    proof {
        lemma_no_line(cs@.subrange(start as int, n as int));
    }
    String::new()
}

// ---------------------------------------------------------------------------
// Outside crates: regular expressions and semantic versions
// ---------------------------------------------------------------------------

#[verifier::external_type_specification]
#[verifier::external_body]
pub struct ExRegex(regex::Regex);

#[verifier::external_type_specification]
#[verifier::external_body]
pub struct ExSemverVersion(semver::Version);

#[verifier::external_type_specification]
#[verifier::external_body]
pub struct ExSemverVersionReq(semver::VersionReq);

/// What `regex::Regex::new` reports for `pattern`: `None` when it compiles,
/// else the display text of its error.
pub uninterp spec fn regex_compile_error(pattern: Seq<char>) -> Option<Seq<char>>;

/// What the regex compiled from `pattern` captures in `haystack`: `None`
/// when it does not match, else the text of capture group 1 if that group
/// took part in the match.
pub uninterp spec fn regex_group1(pattern: Seq<char>, haystack: Seq<char>) -> Option<Option<Seq<char>>>;

/// What `semver::Version::parse` reports for `text`: `None` when it parses,
/// else the display text of its error.
pub uninterp spec fn semver_version_error(text: Seq<char>) -> Option<Seq<char>>;

/// What `semver::VersionReq::parse` reports for `text`: `None` when it
/// parses, else the display text of its error.
pub uninterp spec fn semver_req_error(text: Seq<char>) -> Option<Seq<char>>;

/// Whether the requirement parsed from `req` matches the version parsed from
/// `version` (`semver::VersionReq::matches`).
pub uninterp spec fn semver_req_matches(req: Seq<char>, version: Seq<char>) -> bool;

/// A compiled regex with the pattern text it was compiled from.
struct CompiledPattern {
    re: regex::Regex,
    source: Ghost<Seq<char>>,
}

/// A parsed semantic version with the text it was parsed from.
struct ParsedVersion {
    version: semver::Version,
    source: Ghost<Seq<char>>,
}

/// A parsed version requirement with the text it was parsed from.
struct ParsedReq {
    req: semver::VersionReq,
    source: Ghost<Seq<char>>,
}

/// The view of an optional capture.
pub open spec fn capture_view(o: Option<Option<String>>) -> Option<Option<Seq<char>>> {
    match o {
        Some(Some(s)) => Some(Some(s@)),
        Some(None) => Some(None),
        None => None,
    }
}

/// Calls `regex::Regex::new(pattern)`. Claimed: the outcome is a function of
/// the pattern text, named `regex_compile_error`; the error is its display text.
#[verifier::external_body]
fn compile_pattern(pattern: &str) -> (r: Result<CompiledPattern, String>)
    ensures
        match r {
            Ok(c) => regex_compile_error(pattern@) is None && c.source@ == pattern@,
            Err(e) => regex_compile_error(pattern@) == Some(e@),
        },
{
    match regex::Regex::new(pattern) {
        Ok(re) => Ok(CompiledPattern { re, source: Ghost(pattern@) }),
        Err(e) => Err(e.to_string()),
    }
}

/// Calls `regex::Regex::captures(haystack)` and reads capture group 1
/// (`Captures::get(1)`). Claimed: the outcome is a function of the pattern
/// text and the haystack, named `regex_group1`.
#[verifier::external_body]
fn capture_group1(c: &CompiledPattern, haystack: &str) -> (r: Option<Option<String>>)
    ensures
        capture_view(r) == regex_group1(c.source@, haystack@),
{
    match c.re.captures(haystack) {
        None => None,
        Some(caps) => match caps.get(1) {
            None => Some(None),
            Some(m) => Some(Some(m.as_str().to_string())),
        },
    }
}

/// Calls `semver::Version::parse(text)`. Claimed: the outcome is a function
/// of the text, named `semver_version_error`; the error is its display text.
#[verifier::external_body]
fn parse_semver(text: &str) -> (r: Result<ParsedVersion, String>)
    ensures
        match r {
            Ok(v) => semver_version_error(text@) is None && v.source@ == text@,
            Err(e) => semver_version_error(text@) == Some(e@),
        },
{
    match semver::Version::parse(text) {
        Ok(version) => Ok(ParsedVersion { version, source: Ghost(text@) }),
        Err(e) => Err(e.to_string()),
    }
}

/// Calls `semver::VersionReq::parse(text)`. Claimed: the outcome is a
/// function of the text, named `semver_req_error`; the error is its display text.
#[verifier::external_body]
fn parse_semver_req(text: &str) -> (r: Result<ParsedReq, String>)
    ensures
        match r {
            Ok(q) => semver_req_error(text@) is None && q.source@ == text@,
            Err(e) => semver_req_error(text@) == Some(e@),
        },
{
    match semver::VersionReq::parse(text) {
        Ok(req) => Ok(ParsedReq { req, source: Ghost(text@) }),
        Err(e) => Err(e.to_string()),
    }
}

/// Calls `semver::VersionReq::matches`. Claimed: the answer is a function of
/// the two source texts, named `semver_req_matches`.
#[verifier::external_body]
fn req_matches(q: &ParsedReq, v: &ParsedVersion) -> (r: bool)
    ensures
        r == semver_req_matches(q.source@, v.source@),
{
    q.req.matches(&v.version)
}

// ---------------------------------------------------------------------------
// Version parsing
// ---------------------------------------------------------------------------

/// The view of a string result.
pub open spec fn text_result_view(r: Result<String, ToolVerifyError>) -> Result<Seq<char>, ToolFault> {
    match r {
        Ok(s) => Ok(s@),
        Err(e) => Err(e@),
    }
}

/// The view of a unit result.
pub open spec fn unit_result_view(r: Result<(), ToolVerifyError>) -> Result<(), ToolFault> {
    match r {
        Ok(()) => Ok(()),
        Err(e) => Err(e@),
    }
}

/// The outcome of reading a version from the first non-blank line
/// `first_line` with `regex`, given what compiling the regex reported and what
/// its capture group 1 gave on that line.
pub open spec fn version_parse_outcome(
    resource_id: Seq<char>,
    first_line: Seq<char>,
    regex: Seq<char>,
    regex_error: Option<Seq<char>>,
    group1: Option<Option<Seq<char>>>,
) -> Result<Seq<char>, ToolFault> {
    match regex_error {
        Some(e) => Err(ToolFault::IoError { resource_id, reason: "invalid version regex '"@ + regex + "': "@ + e }),
        None => match group1 {
            Some(Some(v)) => Ok(v),
            _ => Err(ToolFault::VersionParseFailed { resource_id, output: first_line, regex }),
        },
    }
}

/// Decides the version read from `first_line`, given what compiling `regex`
/// reported (`regex_error`) and what capture group 1 gave (`group1`).
pub fn version_parse_verdict(
    resource_id: &str,
    first_line: &str,
    regex: &str,
    regex_error: Option<String>,
    group1: Option<Option<String>>,
) -> (r: Result<String, ToolVerifyError>)
    ensures
        text_result_view(r) == version_parse_outcome(resource_id@, first_line@, regex@, opt_view(regex_error), capture_view(group1)),
{
    match regex_error {
        Some(e) => {
            let parts = vec!["invalid version regex '", regex, "': ", e.as_str()];
            let reason = concat_all(&parts);
            proof {
                reveal_with_fuel(concat_seq, 5);
                assert(parts@.map_values(|p: &str| p@) =~= seq!["invalid version regex '"@, regex@, "': "@, e@]);
            }
            Err(ToolVerifyError::IoError { resource_id: resource_id.to_owned(), reason })
        },
        None => match group1 {
            Some(Some(v)) => Ok(v),
            _ => Err(ToolVerifyError::VersionParseFailed {
                resource_id: resource_id.to_owned(),
                output: first_line.to_owned(),
                regex: regex.to_owned(),
            }),
        },
    }
}

/// Extract a version string from command output: `first_line_regex` is
/// applied to the first non-blank line of `stdout`, and capture group 1 is
/// the version.
pub fn parse_version_output(resource_id: &str, stdout: &str, first_line_regex: &str) -> (r: Result<String, ToolVerifyError>)
    ensures
        text_result_view(r) == version_parse_outcome(
            resource_id@,
            first_nonblank_line(stdout@),
            first_line_regex@,
            regex_compile_error(first_line_regex@),
            regex_group1(first_line_regex@, first_nonblank_line(stdout@)),
        ),
{
    let first_line = first_nonblank_line_of(stdout);
    match compile_pattern(first_line_regex) {
        Err(e) => version_parse_verdict(resource_id, first_line.as_str(), first_line_regex, Some(e), None),
        Ok(c) => {
            let group1 = capture_group1(&c, first_line.as_str());
            version_parse_verdict(resource_id, first_line.as_str(), first_line_regex, None, group1)
        },
    }
}

// ---------------------------------------------------------------------------
// Version constraints
// ---------------------------------------------------------------------------

/// The outcome of checking `version` against `constraint`, given what
/// parsing each reported and whether the requirement matched.
pub open spec fn constraint_outcome(
    resource_id: Seq<char>,
    version: Seq<char>,
    constraint: Seq<char>,
    version_error: Option<Seq<char>>,
    req_error: Option<Seq<char>>,
    matched: bool,
) -> Result<(), ToolFault> {
    match version_error {
        Some(e) => Err(ToolFault::VersionParseFailed {
            resource_id,
            output: version,
            regex: "(semver parse error: "@ + e + ")"@,
        }),
        None => match req_error {
            Some(e) => Err(ToolFault::IoError {
                resource_id,
                reason: "invalid semver constraint '"@ + constraint + "': "@ + e,
            }),
            None => if matched {
                Ok(())
            } else {
                Err(ToolFault::VersionConstraintNotMet { resource_id, found: version, constraint })
            },
        },
    }
}

/// Decides the constraint check, given what parsing the version
/// (`version_error`) and the requirement (`req_error`) reported and whether
/// the requirement matched the version.
pub fn constraint_verdict(
    resource_id: &str,
    version: &str,
    constraint: &str,
    version_error: Option<String>,
    req_error: Option<String>,
    matched: bool,
) -> (r: Result<(), ToolVerifyError>)
    ensures
        unit_result_view(r) == constraint_outcome(resource_id@, version@, constraint@, opt_view(version_error), opt_view(req_error), matched),
{
    match version_error {
        Some(e) => {
            let parts = vec!["(semver parse error: ", e.as_str(), ")"];
            let regex = concat_all(&parts);
            proof {
                reveal_with_fuel(concat_seq, 4);
                assert(parts@.map_values(|p: &str| p@) =~= seq!["(semver parse error: "@, e@, ")"@]);
            }
            Err(ToolVerifyError::VersionParseFailed { resource_id: resource_id.to_owned(), output: version.to_owned(), regex })
        },
        None => match req_error {
            Some(e) => {
                let parts = vec!["invalid semver constraint '", constraint, "': ", e.as_str()];
                let reason = concat_all(&parts);
                proof {
                    reveal_with_fuel(concat_seq, 5);
                    assert(parts@.map_values(|p: &str| p@) =~= seq!["invalid semver constraint '"@, constraint@, "': "@, e@]);
                }
                Err(ToolVerifyError::IoError { resource_id: resource_id.to_owned(), reason })
            },
            None => if matched {
                Ok(())
            } else {
                Err(ToolVerifyError::VersionConstraintNotMet {
                    resource_id: resource_id.to_owned(),
                    found: version.to_owned(),
                    constraint: constraint.to_owned(),
                })
            },
        },
    }
}

/// Evaluate the semver constraint `constraint_str` against the observed
/// version `version_str`.
pub fn check_version_constraint(resource_id: &str, version_str: &str, constraint_str: &str) -> (r: Result<(), ToolVerifyError>)
    ensures
        unit_result_view(r) == constraint_outcome(
            resource_id@,
            version_str@,
            constraint_str@,
            semver_version_error(version_str@),
            semver_req_error(constraint_str@),
            semver_req_matches(constraint_str@, version_str@),
        ),
{
    match parse_semver(version_str) {
        Err(e) => constraint_verdict(resource_id, version_str, constraint_str, Some(e), None, false),
        Ok(v) => match parse_semver_req(constraint_str) {
            Err(e) => constraint_verdict(resource_id, version_str, constraint_str, None, Some(e), false),
            Ok(q) => {
                let matched = req_matches(&q, &v);
                constraint_verdict(resource_id, version_str, constraint_str, None, None, matched)
            },
        },
    }
}

// ---------------------------------------------------------------------------
// Identity
// ---------------------------------------------------------------------------

/// What the filesystem showed of a tool's identity, as probed by the caller.
#[derive(Debug, PartialEq)]
pub enum IdentityProbe {
    /// The `PATH` lookup of the command: `None` when it was not found,
    /// `Some(None)` when the resolved path is not valid UTF-8.
    Command { resolved: Option<Option<String>> },
    /// Whether the path exists, whether it is a regular file, and whether an
    /// execute bit is set (`Err` holds the text of a failed stat).
    File { exists: bool, is_file: bool, executable_bit: Result<bool, String> },
    /// Whether the path is a directory.
    Directory { is_dir: bool },
    /// The link's target: `Err` holds the text of a failed read,
    /// `Ok(None)` a target that is not valid UTF-8.
    Symlink { target: Result<Option<String>, String> },
}

/// Whether `probe` is a probe of the kind `identity` asks for.
pub open spec fn probe_fits(identity: ToolIdentityVerify, probe: IdentityProbe) -> bool {
    match (identity, probe) {
        (ToolIdentityVerify::ResolvedCommand { .. }, IdentityProbe::Command { .. }) => true,
        (ToolIdentityVerify::File { .. }, IdentityProbe::File { .. }) => true,
        (ToolIdentityVerify::Directory { .. }, IdentityProbe::Directory { .. }) => true,
        (ToolIdentityVerify::SymlinkTarget { .. }, IdentityProbe::Symlink { .. }) => true,
        _ => false,
    }
}

/// The outcome of the identity check: the observed path, or the fault.
pub open spec fn identity_outcome(resource_id: Seq<char>, identity: ToolIdentityVerify, probe: IdentityProbe) -> Result<Seq<char>, ToolFault> {
    match (identity, probe) {
        (ToolIdentityVerify::ResolvedCommand { command, expected_path }, IdentityProbe::Command { resolved }) => match resolved {
            None => Err(ToolFault::IdentityNotFound { resource_id, reason: "command '"@ + command@ + "' not found in PATH"@ }),
            Some(None) => Err(ToolFault::IoError {
                resource_id,
                reason: "resolved path for '"@ + command@ + "' is not valid UTF-8"@,
            }),
            Some(Some(p)) => if expected_path.one_of@.map_values(|s: String| s@).contains(p@) {
                Ok(p@)
            } else {
                Err(ToolFault::PathNotInExpectedSet {
                    resource_id,
                    resolved: p@,
                    candidates: expected_path.one_of@.map_values(|s: String| s@),
                })
            },
        },
        (ToolIdentityVerify::File { path, executable }, IdentityProbe::File { exists, is_file, executable_bit }) =>
            if !exists {
                Err(ToolFault::IdentityNotFound { resource_id, reason: "file '"@ + path@ + "' does not exist"@ })
            } else if !is_file {
                Err(ToolFault::IdentityNotFound { resource_id, reason: "'"@ + path@ + "' exists but is not a regular file"@ })
            } else if executable {
                match executable_bit {
                    Err(e) => Err(ToolFault::IoError { resource_id, reason: "failed to stat '"@ + path@ + "': "@ + e@ }),
                    Ok(false) => Err(ToolFault::IdentityNotFound { resource_id, reason: "'"@ + path@ + "' is not executable"@ }),
                    Ok(true) => Ok(path@),
                }
            } else {
                Ok(path@)
            },
        (ToolIdentityVerify::Directory { path }, IdentityProbe::Directory { is_dir }) =>
            if is_dir {
                Ok(path@)
            } else {
                Err(ToolFault::IdentityNotFound { resource_id, reason: "directory '"@ + path@ + "' does not exist"@ })
            },
        (ToolIdentityVerify::SymlinkTarget { path, expected_target }, IdentityProbe::Symlink { target }) => match target {
            Err(e) => Err(ToolFault::IdentityNotFound {
                resource_id,
                reason: "'"@ + path@ + "' is not a symlink or cannot be read: "@ + e@,
            }),
            Ok(None) => Err(ToolFault::IoError {
                resource_id,
                reason: "symlink target for '"@ + path@ + "' is not valid UTF-8"@,
            }),
            Ok(Some(t)) => if t@ == expected_target@ {
                Ok(path@)
            } else {
                Err(ToolFault::IdentityNotFound {
                    resource_id,
                    reason: "'"@ + path@ + "' points to '"@ + t@ + "', expected '"@ + expected_target@ + "'"@,
                })
            },
        },
        _ => Err(ToolFault::IoError { resource_id, reason: Seq::empty() }),
    }
}

/// The view of an identity result.
pub open spec fn path_result_view(r: Result<Option<String>, ToolVerifyError>) -> Result<Seq<char>, ToolFault> {
    match r {
        Ok(Some(p)) => Ok(p@),
        Ok(None) => Ok(Seq::empty()),
        Err(e) => Err(e@),
    }
}

/// Whether `s` is among `values` (executable).
fn among(values: &Vec<String>, s: &str) -> (r: bool)
    ensures
        r == values@.map_values(|x: String| x@).contains(s@),
{
    let ghost vv = values@.map_values(|x: String| x@);
    let mut i: usize = 0;
    while i < values.len()
        invariant
            i <= values.len(),
            vv == values@.map_values(|x: String| x@),
            forall|j: int| 0 <= j < i ==> vv[j] != s@,
        decreases values.len() - i,
    {
        if crate::text::eq_str(values[i].as_str(), s) {
            assert(vv[i as int] == s@);
            return true;
        }
        i = i + 1;
    }
    false
}

/// `a + b + c` as a new string.
fn join3(a: &str, b: &str, c: &str) -> (r: String)
    ensures
        r@ == a@ + b@ + c@,
{
    crate::text::concat3(a, b, c)
}

/// Decide the identity check of `resource_id` from what `probe` observed,
/// returning the observed path.
pub fn judge_identity(resource_id: &str, identity: &ToolIdentityVerify, probe: &IdentityProbe) -> (r: Result<Option<String>, ToolVerifyError>)
    requires
        probe_fits(*identity, *probe),
    ensures
        r is Ok ==> r->Ok_0 is Some,
        path_result_view(r) == identity_outcome(resource_id@, *identity, *probe),
{
    let rid = resource_id.to_owned();
    match (identity, probe) {
        (ToolIdentityVerify::ResolvedCommand { command, expected_path }, IdentityProbe::Command { resolved }) => match resolved {
            None => Err(ToolVerifyError::IdentityNotFound {
                resource_id: rid,
                reason: join3("command '", command.as_str(), "' not found in PATH"),
            }),
            Some(None) => Err(ToolVerifyError::IoError {
                resource_id: rid,
                reason: join3("resolved path for '", command.as_str(), "' is not valid UTF-8"),
            }),
            Some(Some(p)) => {
                if among(&expected_path.one_of, p.as_str()) {
                    Ok(Some(p.clone()))
                } else {
                    let candidates = crate::tool::clone_strings(&expected_path.one_of);
                    proof {
                        assert(candidates@.map_values(|s: String| s@) =~= expected_path.one_of@.map_values(|s: String| s@));
                    }
                    Err(ToolVerifyError::PathNotInExpectedSet { resource_id: rid, resolved: p.clone(), candidates })
                }
            },
        },
        (ToolIdentityVerify::File { path, executable }, IdentityProbe::File { exists, is_file, executable_bit }) => {
            if !*exists {
                return Err(ToolVerifyError::IdentityNotFound {
                    resource_id: rid,
                    reason: join3("file '", path.as_str(), "' does not exist"),
                });
            }
            if !*is_file {
                return Err(ToolVerifyError::IdentityNotFound {
                    resource_id: rid,
                    reason: join3("'", path.as_str(), "' exists but is not a regular file"),
                });
            }
            if *executable {
                match executable_bit {
                    Err(e) => {
                        let parts = vec!["failed to stat '", path.as_str(), "': ", e.as_str()];
                        let reason = concat_all(&parts);
                        proof {
                            reveal_with_fuel(concat_seq, 5);
                            assert(parts@.map_values(|q: &str| q@) =~= seq!["failed to stat '"@, path@, "': "@, e@]);
                        }
                        return Err(ToolVerifyError::IoError { resource_id: rid, reason });
                    },
                    Ok(false) => {
                        return Err(ToolVerifyError::IdentityNotFound {
                            resource_id: rid,
                            reason: join3("'", path.as_str(), "' is not executable"),
                        });
                    },
                    Ok(true) => {},
                }
            }
            Ok(Some(path.clone()))
        },
        (ToolIdentityVerify::Directory { path }, IdentityProbe::Directory { is_dir }) => {
            if !*is_dir {
                return Err(ToolVerifyError::IdentityNotFound {
                    resource_id: rid,
                    reason: join3("directory '", path.as_str(), "' does not exist"),
                });
            }
            Ok(Some(path.clone()))
        },
        (ToolIdentityVerify::SymlinkTarget { path, expected_target }, IdentityProbe::Symlink { target }) => match target {
            Err(e) => {
                let parts = vec!["'", path.as_str(), "' is not a symlink or cannot be read: ", e.as_str()];
                let reason = concat_all(&parts);
                proof {
                    reveal_with_fuel(concat_seq, 5);
                    assert(parts@.map_values(|q: &str| q@) =~= seq!["'"@, path@, "' is not a symlink or cannot be read: "@, e@]);
                }
                Err(ToolVerifyError::IdentityNotFound { resource_id: rid, reason })
            },
            Ok(None) => Err(ToolVerifyError::IoError {
                resource_id: rid,
                reason: join3("symlink target for '", path.as_str(), "' is not valid UTF-8"),
            }),
            Ok(Some(t)) => {
                if crate::text::eq_str(t.as_str(), expected_target.as_str()) {
                    Ok(Some(path.clone()))
                } else {
                    let parts = vec!["'", path.as_str(), "' points to '", t.as_str(), "', expected '", expected_target.as_str(), "'"];
                    let reason = concat_all(&parts);
                    proof {
                        reveal_with_fuel(concat_seq, 8);
                        assert(parts@.map_values(|q: &str| q@) =~= seq!["'"@, path@, "' points to '"@, t@, "', expected '"@,
                            expected_target@, "'"@]);
                    }
                    Err(ToolVerifyError::IdentityNotFound { resource_id: rid, reason })
                }
            },
        },
        _ => {
            assert(false);
            Err(ToolVerifyError::IoError { resource_id: rid, reason: String::new() })
        },
    }
}

// ---------------------------------------------------------------------------
// Version check after the version command ran
// ---------------------------------------------------------------------------

/// The outcome of the version check, given what running the version command
/// gave: its standard output, or the text of the failure to start it.
pub open spec fn version_check_outcome(resource_id: Seq<char>, vv: ToolVersionVerify, run: Result<Seq<char>, Seq<char>>) -> Result<Seq<char>, ToolFault> {
    match run {
        Err(e) => Err(ToolFault::IoError {
            resource_id,
            reason: "failed to run version command '"@ + vv.command@ + "': "@ + e,
        }),
        Ok(stdout) => {
            let line = first_nonblank_line(stdout);
            let re = vv.parse.first_line_regex@;
            match version_parse_outcome(resource_id, line, re, regex_compile_error(re), regex_group1(re, line)) {
                Err(f) => Err(f),
                Ok(v) => match vv.constraint {
                    None => Ok(v),
                    Some(c) => match constraint_outcome(resource_id, v, c@, semver_version_error(v), semver_req_error(c@), semver_req_matches(c@, v)) {
                        Ok(()) => Ok(v),
                        Err(f) => Err(f),
                    },
                },
            }
        },
    }
}

/// The view of a command run's result.
pub open spec fn run_view(run: Result<String, String>) -> Result<Seq<char>, Seq<char>> {
    match run {
        Ok(s) => Ok(s@),
        Err(e) => Err(e@),
    }
}

/// Read and check the version from what running the version command gave
/// (`run`: its standard output, or the text of the failure to start it).
pub fn check_version_run(resource_id: &str, vv: &ToolVersionVerify, run: Result<String, String>) -> (r: Result<String, ToolVerifyError>)
    ensures
        text_result_view(r) == version_check_outcome(resource_id@, *vv, run_view(run)),
{
    match run {
        Err(e) => {
            let parts = vec!["failed to run version command '", vv.command.as_str(), "': ", e.as_str()];
            let reason = concat_all(&parts);
            proof {
                reveal_with_fuel(concat_seq, 5);
                assert(parts@.map_values(|q: &str| q@) =~= seq!["failed to run version command '"@, vv.command@, "': "@, e@]);
            }
            Err(ToolVerifyError::IoError { resource_id: resource_id.to_owned(), reason })
        },
        Ok(stdout) => {
            let version = match parse_version_output(resource_id, stdout.as_str(), vv.parse.first_line_regex.as_str()) {
                Ok(v) => v,
                Err(e) => { return Err(e); },
            };
            match &vv.constraint {
                None => Ok(version),
                Some(c) => match check_version_constraint(resource_id, version.as_str(), c.as_str()) {
                    Ok(()) => Ok(version),
                    Err(e) => Err(e),
                },
            }
        },
    }
}

// ---------------------------------------------------------------------------
// Whole verification
// ---------------------------------------------------------------------------

/// The view of observed facts: the resolved path and the version.
pub open spec fn facts_result_view(r: Result<ToolObservedFacts, ToolVerifyError>) -> Result<(Option<Seq<char>>, Option<Seq<char>>), ToolFault> {
    match r {
        Ok(f) => Ok((opt_view(f.resolved_path), opt_view(f.version))),
        Err(e) => Err(e@),
    }
}

/// The outcome of verifying a tool: identity first, then (when declared) the
/// version read from `version_run`.
pub open spec fn tool_outcome(
    resource_id: Seq<char>,
    verify: ToolVerifyContract,
    probe: IdentityProbe,
    version_run: Option<Result<Seq<char>, Seq<char>>>,
) -> Result<(Option<Seq<char>>, Option<Seq<char>>), ToolFault> {
    match identity_outcome(resource_id, verify.identity, probe) {
        Err(f) => Err(f),
        Ok(p) => match verify.version {
            None => Ok((Some(p), None)),
            Some(vv) => match version_check_outcome(resource_id, vv, version_run->0) {
                Err(f) => Err(f),
                Ok(v) => Ok((Some(p), Some(v))),
            },
        },
    }
}

/// The view of an optional command run.
pub open spec fn opt_run_view(o: Option<Result<String, String>>) -> Option<Result<Seq<char>, Seq<char>>> {
    match o {
        Some(run) => Some(run_view(run)),
        None => None,
    }
}

/// Verify a tool resource after a managed-script install: its identity, from
/// what `probe` observed, then its version, from what running the declared
/// version command gave (`version_run`; consulted only when the identity
/// passed and a version check is declared). Returns the observed facts.
pub fn verify_tool(
    resource_id: &str,
    verify: &ToolVerifyContract,
    probe: &IdentityProbe,
    version_run: Option<Result<String, String>>,
) -> (r: Result<ToolObservedFacts, ToolVerifyError>)
    requires
        probe_fits(verify.identity, *probe),
        identity_outcome(resource_id@, verify.identity, *probe) is Ok && verify.version is Some ==> version_run is Some,
    ensures
        facts_result_view(r) == tool_outcome(resource_id@, *verify, *probe, opt_run_view(version_run)),
{
    let resolved_path = match judge_identity(resource_id, &verify.identity, probe) {
        Ok(p) => p,
        Err(e) => { return Err(e); },
    };
    let version = match &verify.version {
        None => None,
        Some(vv) => {
            let run = match version_run {
                Some(run) => run,
                None => { assert(false); return Err(ToolVerifyError::IoError { resource_id: resource_id.to_owned(), reason: String::new() }); },
            };
            match check_version_run(resource_id, vv, run) {
                Ok(v) => Some(v),
                Err(e) => { return Err(e); },
            }
        },
    };
    Ok(ToolObservedFacts { resolved_path, version })
}

} // verus!
