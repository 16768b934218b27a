//! Parameter materialization — resolve `${params.*}` references in component specs.
//!
//! Takes a component's resources (templates) and `ResolvedParams`, replaces all
//! `${params.<key>}` placeholders in every string field of every resource, and
//! produces a `MaterializedComponentSpec` in which no reference remains.
//! Resource count, kind, id and non-string fields never change.
//!
//! A field is resolved by replacing its first reference with the param's value
//! and scanning the result again from its start, until no reference remains.
//! A value that itself holds a reference is therefore resolved too; one that
//! leads back to itself would be replaced forever, which `materialize` rules
//! out in its precondition.
use vstd::prelude::*;
use crate::component_index::{SpecResource, SpecResourceKind};
use crate::tool::{ToolIdentityVerify, ToolVersionVerify, ToolVerifyContract, OneOf, VersionParseRule};
use crate::params::{MaterializedComponentSpec, ParamValue, ResolvedParams};
use crate::text::{chars_of, from_chars, substring, concat_all, decimal, decimal_string, occurs_at, contains_seq, lemma_first_where, first_index_of, find_char, find_from, first_where, lemma_first_where_found, lemma_first_where_none, lemma_first_index_of};

verus! {

/// Errors produced during parameter materialization.
#[derive(Debug)]
pub enum MaterializeError {
    /// A `${params.<key>}` reference could not be resolved.
    UnresolvedParam { component_id: String, resource_id: String, field: String, key: String },
    /// A param value is invalid for the field it targets.
    InvalidParamValue { component_id: String, resource_id: String, field: String, reason: String },
}

impl MaterializeError {
    /// The message of each error.
    pub open spec fn message_spec(&self) -> Seq<char> {
        match self {
            MaterializeError::UnresolvedParam { component_id, resource_id, field, key } =>
                "component '"@ + component_id@ + "': resource '"@ + resource_id@ + "' field '"@ + field@
                    + "' references unresolved param '"@ + key@ + "'"@,
            MaterializeError::InvalidParamValue { component_id, resource_id, field, reason } =>
                "component '"@ + component_id@ + "': resource '"@ + resource_id@ + "' field '"@ + field@
                    + "': "@ + reason@,
        }
    }

    /// The human-readable message.
    pub fn message(&self) -> (r: String)
        ensures
            r@ == self.message_spec(),
    {
        match self {
            MaterializeError::UnresolvedParam { component_id, resource_id, field, key } => {
                let parts = vec!["component '", component_id.as_str(), "': resource '", resource_id.as_str(), "' field '",
                    field.as_str(), "' references unresolved param '", key.as_str(), "'"];
                let r = concat_all(&parts);
                proof {
                    reveal_with_fuel(crate::text::concat_seq, 10);
                    assert(parts@.map_values(|p: &str| p@) =~= seq!["component '"@, component_id@, "': resource '"@, resource_id@,
                        "' field '"@, field@, "' references unresolved param '"@, key@, "'"@]);
                }
                r
            },
            MaterializeError::InvalidParamValue { component_id, resource_id, field, reason } => {
                let parts = vec!["component '", component_id.as_str(), "': resource '", resource_id.as_str(), "' field '",
                    field.as_str(), "': ", reason.as_str()];
                let r = concat_all(&parts);
                proof {
                    reveal_with_fuel(crate::text::concat_seq, 9);
                    assert(parts@.map_values(|p: &str| p@) =~= seq!["component '"@, component_id@, "': resource '"@, resource_id@,
                        "' field '"@, field@, "': "@, reason@]);
                }
                r
            },
        }
    }
}

// ---------------------------------------------------------------------------
// The meaning of template resolution
// ---------------------------------------------------------------------------

/// The opening of a param reference.
pub open spec fn param_prefix() -> Seq<char> {
    seq!['$', '{', 'p', 'a', 'r', 'a', 'm', 's', '.']
}

/// Number of bytes of the UTF-8 encoding of one character.
pub open spec fn utf8_width(c: char) -> nat {
    if (c as u32) < 0x80 { 1 } else if (c as u32) < 0x800 { 2 } else if (c as u32) < 0x10000 { 3 } else { 4 }
}

/// Number of bytes of the UTF-8 encoding of `s`.
pub open spec fn utf8_len(s: Seq<char>) -> nat
    decreases s.len(),
{
    if s.len() == 0 { 0 } else { utf8_len(s.drop_last()) + utf8_width(s.last()) }
}

/// Why a template cannot be resolved.
pub enum ResolveFailure {
    /// A reference opened at this byte position of the text is never closed.
    Unclosed(nat),
    /// A reference names a key absent from the params.
    Unresolved(Seq<char>),
    /// A reference names a source-object param.
    SourceValue(Seq<char>),
    /// A reference names an array param.
    ArrayValue(Seq<char>),
}

/// Position of the first param reference in `s`, if any.
pub open spec fn first_ref(s: Seq<char>) -> Option<int> {
    first_where(s.len(), |i: int| occurs_at(s, param_prefix(), i))
}

/// What one resolution step does to a text.
pub enum ResolveStep {
    /// No reference remains: the text is resolved.
    Done,
    /// The first reference was replaced by its value, giving this text.
    Next(Seq<char>),
    /// The first reference cannot be resolved.
    Fail(ResolveFailure),
}

/// One resolution step: the first reference of `s` is replaced by its value,
/// and the resulting text is scanned again from its start.
pub open spec fn resolve_step(s: Seq<char>, params: Map<Seq<char>, ParamValue>) -> ResolveStep {
    match first_ref(s) {
        None => ResolveStep::Done,
        Some(start) => {
            let after = s.skip(start + 9);
            if !after.contains('}') {
                ResolveStep::Fail(ResolveFailure::Unclosed(utf8_len(s.take(start))))
            } else {
                let e = first_index_of(after, '}');
                let key = after.take(e);
                if !params.contains_key(key) {
                    ResolveStep::Fail(ResolveFailure::Unresolved(key))
                } else {
                    match params[key] {
                        ParamValue::String(v) => ResolveStep::Next(s.take(start) + v@ + after.skip(e + 1)),
                        ParamValue::Source(_) => ResolveStep::Fail(ResolveFailure::SourceValue(key)),
                        ParamValue::Array(_) => ResolveStep::Fail(ResolveFailure::ArrayValue(key)),
                    }
                }
            }
        },
    }
}

/// The outcome of resolving `s` in at most `fuel` replacements, or `None`
/// when more are needed.
pub open spec fn resolve_within(s: Seq<char>, params: Map<Seq<char>, ParamValue>, fuel: nat) -> Option<Result<Seq<char>, ResolveFailure>>
    decreases fuel,
{
    match resolve_step(s, params) {
        ResolveStep::Done => Some(Ok(s)),
        ResolveStep::Fail(f) => Some(Err(f)),
        ResolveStep::Next(t) => if fuel == 0 { None } else { resolve_within(t, params, (fuel - 1) as nat) },
    }
}

/// Whether resolving `s` comes to an end (a value may itself hold a
/// reference, possibly to itself, and then the replacing never ends).
pub open spec fn resolution_ends(s: Seq<char>, params: Map<Seq<char>, ParamValue>) -> bool {
    exists|n: nat| #[trigger] resolve_within(s, params, n) is Some
}

/// The outcome of resolving a template, where resolution comes to an end.
pub open spec fn resolve_template(t: Seq<char>, params: Map<Seq<char>, ParamValue>) -> Result<Seq<char>, ResolveFailure>
    recommends
        resolution_ends(t, params),
{
    match resolve_within(t, params, choose|n: nat| #[trigger] resolve_within(t, params, n) is Some) {
        Some(r) => r,
        None => Err(ResolveFailure::Unclosed(0)),
    }
}

/// The `reason` text of an invalid-value failure for `field`.
pub open spec fn failure_reason(f: ResolveFailure, field: Seq<char>) -> Seq<char> {
    match f {
        ResolveFailure::Unclosed(pos) => "malformed template reference: unclosed '{' at position "@ + decimal(pos),
        ResolveFailure::SourceValue(key) => "param '"@ + key + "' is a source object but field '"@ + field + "' expects a string"@,
        ResolveFailure::ArrayValue(key) => "param '"@ + key + "' is an array; use for_each to expand over an array"@,
        ResolveFailure::Unresolved(key) => Seq::empty(),
    }
}

/// Whether `e` reports failure `f` of field `field` of resource `rid` in component `cid`.
pub open spec fn error_reports(e: MaterializeError, f: ResolveFailure, cid: Seq<char>, rid: Seq<char>, field: Seq<char>) -> bool {
    match e {
        MaterializeError::UnresolvedParam { component_id, resource_id, field: fl, key } =>
            component_id@ == cid && resource_id@ == rid && fl@ == field && f == ResolveFailure::Unresolved(key@),
        MaterializeError::InvalidParamValue { component_id, resource_id, field: fl, reason } =>
            component_id@ == cid && resource_id@ == rid && fl@ == field && !(f is Unresolved) && reason@ == failure_reason(f, field),
    }
}

/// A templated field: its name and its text.
pub type TemplateField = (Seq<char>, Seq<char>);

/// Each string of `v` as a field named `name`.
pub open spec fn strings_named(name: Seq<char>, v: Seq<String>) -> Seq<TemplateField> {
    v.map_values(|s: String| (name, s@))
}

/// The string in `o`, if any, as a field named `name`.
pub open spec fn optional_named(name: Seq<char>, o: Option<String>) -> Seq<TemplateField> {
    match o {
        Some(s) => seq![(name, s@)],
        None => Seq::empty(),
    }
}

/// The string fields of a tool's identity check.
pub open spec fn identity_fields(i: ToolIdentityVerify) -> Seq<TemplateField> {
    match i {
        ToolIdentityVerify::ResolvedCommand { command, expected_path } =>
            seq![("verify.identity.command"@, command@)] + strings_named("verify.identity.expected_path"@, expected_path.one_of@),
        ToolIdentityVerify::File { path, .. } => seq![("verify.identity.path"@, path@)],
        ToolIdentityVerify::Directory { path } => seq![("verify.identity.path"@, path@)],
        ToolIdentityVerify::SymlinkTarget { path, expected_target } =>
            seq![("verify.identity.path"@, path@), ("verify.identity.expected_target"@, expected_target@)],
    }
}

/// The string fields of a tool's version check, if it has one.
pub open spec fn version_fields(v: Option<ToolVersionVerify>) -> Seq<TemplateField> {
    match v {
        Some(v) => seq![("verify.version.command"@, v.command@)]
            + strings_named("verify.version.args"@, v.args@)
            + seq![("verify.version.parse.first_line_regex"@, v.parse.first_line_regex@)]
            + optional_named("verify.version.constraint"@, v.constraint),
        None => Seq::empty(),
    }
}

/// The string fields of a resource kind, in the order they are resolved.
#[verifier::opaque]
pub open spec fn template_fields(k: SpecResourceKind) -> Seq<TemplateField> {
    match k {
        SpecResourceKind::Runtime { name, version } => seq![("version"@, version@), ("name"@, name@)],
        SpecResourceKind::Fs { source, path, .. } => seq![("path"@, path@)] + optional_named("source"@, source),
        SpecResourceKind::Package { name, version } => seq![("name"@, name@)] + optional_named("version"@, version),
        SpecResourceKind::Tool { name, verify } =>
            seq![("name"@, name@)] + identity_fields(verify.identity) + version_fields(verify.version),
    }
}

/// The texts of a list of fields.
pub open spec fn texts_of(fs: Seq<TemplateField>) -> Seq<Seq<char>> {
    fs.map_values(|f: TemplateField| f.1)
}

/// Whether two identity checks differ at most in their strings.
pub open spec fn same_identity_shape(a: ToolIdentityVerify, b: ToolIdentityVerify) -> bool {
    match (a, b) {
        (ToolIdentityVerify::ResolvedCommand { expected_path: e1, .. }, ToolIdentityVerify::ResolvedCommand { expected_path: e2, .. }) =>
            e1.one_of@.len() == e2.one_of@.len(),
        (ToolIdentityVerify::File { executable: x1, .. }, ToolIdentityVerify::File { executable: x2, .. }) => x1 == x2,
        (ToolIdentityVerify::Directory { .. }, ToolIdentityVerify::Directory { .. }) => true,
        (ToolIdentityVerify::SymlinkTarget { .. }, ToolIdentityVerify::SymlinkTarget { .. }) => true,
        _ => false,
    }
}

/// Whether two version checks differ at most in their strings.
pub open spec fn same_version_shape(a: Option<ToolVersionVerify>, b: Option<ToolVersionVerify>) -> bool {
    match (a, b) {
        (Some(x), Some(y)) => x.args@.len() == y.args@.len() && (x.constraint is Some) == (y.constraint is Some),
        (None, None) => true,
        _ => false,
    }
}

/// Whether two resource kinds differ at most in their string fields.
pub open spec fn same_shape(a: SpecResourceKind, b: SpecResourceKind) -> bool {
    match (a, b) {
        (SpecResourceKind::Runtime { .. }, SpecResourceKind::Runtime { .. }) => true,
        (SpecResourceKind::Package { version: v1, .. }, SpecResourceKind::Package { version: v2, .. }) =>
            (v1 is Some) == (v2 is Some),
        (SpecResourceKind::Fs { source: s1, entry_type: e1, op: o1, .. }, SpecResourceKind::Fs { source: s2, entry_type: e2, op: o2, .. }) =>
            (s1 is Some) == (s2 is Some) && e1 == e2 && o1 == o2,
        (SpecResourceKind::Tool { verify: c1, .. }, SpecResourceKind::Tool { verify: c2, .. }) =>
            same_identity_shape(c1.identity, c2.identity) && same_version_shape(c1.version, c2.version),
        _ => false,
    }
}

/// Resolution of a list of fields in order: their resolved texts, or the
/// first failing field's name and why it fails.
pub open spec fn resolve_fields(fs: Seq<TemplateField>, params: Map<Seq<char>, ParamValue>) -> Result<Seq<Seq<char>>, (Seq<char>, ResolveFailure)>
    decreases fs.len(),
{
    if fs.len() == 0 {
        Ok(Seq::empty())
    } else {
        match resolve_fields(fs.drop_last(), params) {
            Err(x) => Err(x),
            Ok(vs) => match resolve_template(fs.last().1, params) {
                Ok(v) => Ok(vs.push(v)),
                Err(f) => Err((fs.last().0, f)),
            },
        }
    }
}

/// Whether resolving the fields of `fs` that are reached comes to an end.
pub open spec fn fields_end(fs: Seq<TemplateField>, params: Map<Seq<char>, ParamValue>) -> bool
    decreases fs.len(),
{
    if fs.len() == 0 {
        true
    } else {
        fields_end(fs.drop_last(), params)
            && (resolve_fields(fs.drop_last(), params) is Ok ==> resolution_ends(fs.last().1, params))
    }
}

/// Resolution of a resource's templated fields, or the failing field and why.
pub open spec fn resolve_resource(r: SpecResource, params: Map<Seq<char>, ParamValue>) -> Result<Seq<Seq<char>>, (Seq<char>, ResolveFailure)> {
    resolve_fields(template_fields(r.kind), params)
}

/// Whether resolving every field that materializing `rs` reaches comes to an end.
pub open spec fn resources_end(rs: Seq<SpecResource>, params: Map<Seq<char>, ParamValue>) -> bool {
    forall|i: int| 0 <= i < rs.len() && first_failure(rs.subrange(0, i), params) is None
        ==> fields_end(template_fields(#[trigger] rs[i].kind), params)
}

/// Whether `out` is resource `r` with its string fields set to `texts`.
pub open spec fn materialized_as(out: SpecResource, r: SpecResource, texts: Seq<Seq<char>>) -> bool {
    &&& out.id == r.id
    &&& out.for_each == r.for_each
    &&& same_shape(out.kind, r.kind)
    &&& texts_of(template_fields(out.kind)) == texts
}

/// Whether `out` is resource `r` materialized with `params`.
pub open spec fn resource_done(out: SpecResource, r: SpecResource, params: Map<Seq<char>, ParamValue>) -> bool {
    match resolve_resource(r, params) {
        Ok(f) => materialized_as(out, r, f),
        Err(_) => false,
    }
}

/// Whether `e` reports the first failing resource of `rs`.
pub open spec fn failure_reported(e: MaterializeError, rs: Seq<SpecResource>, params: Map<Seq<char>, ParamValue>, cid: Seq<char>) -> bool {
    match first_failure(rs, params) {
        Some(i) => 0 <= i < rs.len() && match resolve_resource(rs[i], params) {
            Err(ff) => error_reports(e, ff.1, cid, rs[i].id@, ff.0),
            Ok(_) => false,
        },
        None => false,
    }
}

/// The first resource of `rs` that fails, if any.
pub open spec fn first_failure(rs: Seq<SpecResource>, params: Map<Seq<char>, ParamValue>) -> Option<int>
    decreases rs.len(),
{
    if rs.len() == 0 {
        None
    } else {
        match first_failure(rs.drop_last(), params) {
            Some(i) => Some(i),
            None => if resolve_resource(rs.last(), params) is Err { Some(rs.len() - 1) } else { None },
        }
    }
}

// ---------------------------------------------------------------------------
// Executable resolution
// ---------------------------------------------------------------------------

/// The UTF-8 length of `s[0..n]` (executable).
fn utf8_len_exec(s: &Vec<char>, n: usize) -> (r: u128)
    requires
        n <= s.len(),
    ensures
        r == utf8_len(s@.subrange(0, n as int)),
{
    let mut total: u128 = 0;
    let mut i: usize = 0;
    while i < n
        invariant
            i <= n <= s.len(),
            total == utf8_len(s@.subrange(0, i as int)),
            total <= 4 * i,
        decreases n - i,
    {
        assert(s@.subrange(0, i + 1).drop_last() =~= s@.subrange(0, i as int));
        let c = s[i];
        let w: u128 = if (c as u32) < 0x80 { 1 } else if (c as u32) < 0x800 { 2 } else if (c as u32) < 0x10000 { 3 } else { 4 };
        assert(total + w <= 4 * (i + 1));
        total = total + w;
        i = i + 1;
    }
    total
}

/// The characters `s[from..to]` appended to `out`.
fn append_range(out: &mut Vec<char>, s: &Vec<char>, from: usize, to: usize)
    requires
        from <= to <= s.len(),
    ensures
        final(out)@ == old(out)@ + s@.subrange(from as int, to as int),
{
    let ghost o0 = out@;
    let mut i: usize = from;
    while i < to
        invariant
            from <= i <= to <= s.len(),
            out@ == o0 + s@.subrange(from as int, i as int),
        decreases to - i,
    {
        out.push(s[i]);
        assert(out@ =~= o0 + s@.subrange(from as int, i + 1));
        i = i + 1;
    }
}

/// The error for a resolution failure of `field`.
fn failure_error(component_id: &str, resource_id: &str, field: &str, f: Ghost<ResolveFailure>, key: String, kind: u8, pos: u128) -> (r: MaterializeError)
    requires
        kind <= 3,
        kind == 0 ==> f@ == ResolveFailure::Unclosed(pos as nat),
        kind == 1 ==> f@ == ResolveFailure::Unresolved(key@),
        kind == 2 ==> f@ == ResolveFailure::SourceValue(key@),
        kind == 3 ==> f@ == ResolveFailure::ArrayValue(key@),
    ensures
        error_reports(r, f@, component_id@, resource_id@, field@),
{
    if kind == 1 {
        return MaterializeError::UnresolvedParam {
            component_id: component_id.to_owned(),
            resource_id: resource_id.to_owned(),
            field: field.to_owned(),
            key,
        };
    }
    let reason = if kind == 0 {
        let num = decimal_string(pos);
        let parts = vec!["malformed template reference: unclosed '{' at position ", num.as_str()];
        let r = concat_all(&parts);
        proof {
            reveal_with_fuel(crate::text::concat_seq, 3);
            assert(parts@.map_values(|p: &str| p@) =~= seq!["malformed template reference: unclosed '{' at position "@, num@]);
        }
        r
    } else if kind == 2 {
        let parts = vec!["param '", key.as_str(), "' is a source object but field '", field, "' expects a string"];
        let r = concat_all(&parts);
        proof {
            reveal_with_fuel(crate::text::concat_seq, 6);
            assert(parts@.map_values(|p: &str| p@) =~= seq!["param '"@, key@, "' is a source object but field '"@, field@, "' expects a string"@]);
        }
        r
    } else {
        let parts = vec!["param '", key.as_str(), "' is an array; use for_each to expand over an array"];
        let r = concat_all(&parts);
        proof {
            reveal_with_fuel(crate::text::concat_seq, 4);
            assert(parts@.map_values(|p: &str| p@) =~= seq!["param '"@, key@, "' is an array; use for_each to expand over an array"@]);
        }
        r
    };
    MaterializeError::InvalidParamValue {
        component_id: component_id.to_owned(),
        resource_id: resource_id.to_owned(),
        field: field.to_owned(),
        reason,
    }
}

/// One resolution step on `cur`: `None` when no reference remains, else the
/// text with its first reference replaced, or the error of that reference.
fn resolve_one_step(component_id: &str, resource_id: &str, field: &str, cur: &Vec<char>, prefix: &Vec<char>, params: &ResolvedParams) -> (r: Result<Option<Vec<char>>, MaterializeError>)
    requires
        prefix@ == param_prefix(),
    ensures
        match r {
            Ok(None) => resolve_step(cur@, params.values@) == ResolveStep::Done,
            Ok(Some(n)) => resolve_step(cur@, params.values@) == ResolveStep::Next(n@),
            Err(e) => resolve_step(cur@, params.values@) matches ResolveStep::Fail(f)
                && error_reports(e, f, component_id@, resource_id@, field@),
        },
{
    let ghost pm = params.values@;
    let ghost s = cur@;
    let ghost p = |i: int| occurs_at(s, param_prefix(), i);
    match find_from(cur, prefix, 0) {
        None => {
            proof { lemma_first_where_none(s.len(), p); }
            Ok(None)
        },
        Some(start) => {
            proof { lemma_first_where_found(s.len(), p, start as int); }
            let n = cur.len();
            assert(occurs_at(cur@, prefix@, start as int) && prefix@.len() == 9);
            let after_start = start + 9;
            let mut tail: Vec<char> = Vec::new();
            append_range(&mut tail, cur, after_start, cur.len());
            let ghost after = s.skip(after_start as int);
            assert(tail@ =~= after);
            match find_char(&tail, '}') {
                None => {
                    let pos = utf8_len_exec(cur, start);
                    assert(s.subrange(0, start as int) =~= s.take(start as int));
                    Err(failure_error(component_id, resource_id, field, Ghost(ResolveFailure::Unclosed(pos as nat)), String::new(), 0, pos))
                },
                Some(e) => {
                    proof { lemma_first_index_of(after, '}', e as int); }
                    let key = substring(&tail, 0, e);
                    assert(key@ =~= after.take(e as int));
                    match params.values.get(key.as_str()) {
                        None => Err(failure_error(component_id, resource_id, field, Ghost(ResolveFailure::Unresolved(key@)), key, 1, 0)),
                        Some(ParamValue::Source(_)) =>
                            Err(failure_error(component_id, resource_id, field, Ghost(ResolveFailure::SourceValue(key@)), key, 2, 0)),
                        Some(ParamValue::Array(_)) =>
                            Err(failure_error(component_id, resource_id, field, Ghost(ResolveFailure::ArrayValue(key@)), key, 3, 0)),
                        Some(ParamValue::String(v)) => {
                            let vc = chars_of(v.as_str());
                            let mut next: Vec<char> = Vec::new();
                            append_range(&mut next, cur, 0, start);
                            append_range(&mut next, &vc, 0, vc.len());
                            append_range(&mut next, cur, after_start + e + 1, cur.len());
                            proof {
                                assert(s.subrange(0, start as int) =~= s.take(start as int));
                                assert(vc@.subrange(0, vc@.len() as int) =~= v@);
                                assert(s.subrange(after_start + e + 1, s.len() as int) =~= after.skip(e + 1));
                                assert(next@ =~= s.take(start as int) + v@ + after.skip(e + 1));
                            }
                            Ok(Some(next))
                        },
                    }
                },
            }
        },
    }
}

/// Resolve all `${params.<key>}` references in a string field: the first
/// reference is replaced by its value and the text scanned again, until no
/// reference remains.
fn resolve_string(component_id: &str, resource_id: &str, field: &str, template: &str, params: &ResolvedParams) -> (r: Result<String, MaterializeError>)
    requires
        resolution_ends(template@, params.values@),
    ensures
        match (r, resolve_template(template@, params.values@)) {
            (Ok(s), Ok(t)) => s@ == t,
            (Err(e), Err(f)) => error_reports(e, f, component_id@, resource_id@, field@),
            _ => false,
        },
{
    let prefix = chars_of("${params.");
    proof {
        reveal_strlit("${params.");
        assert("${params."@ =~= param_prefix());
    }
    let ghost pm = params.values@;
    let ghost goal = resolve_template(template@, pm);
    let ghost mut fuel: nat = choose|n: nat| #[trigger] resolve_within(template@, pm, n) is Some;
    let mut cur = chars_of(template);
    loop
        invariant
            prefix@ == param_prefix(),
            pm == params.values@,
            goal == resolve_template(template@, pm),
            resolve_within(cur@, pm, fuel) == Some(goal),
        decreases fuel,
    {
        match resolve_one_step(component_id, resource_id, field, &cur, &prefix, params) {
            Ok(None) => {
                return Ok(from_chars(&cur));
            },
            Ok(Some(next)) => {
                proof { fuel = (fuel - 1) as nat; }
                cur = next;
            },
            Err(e) => {
                return Err(e);
            },
        }
    }
}

/// The views of a list of named texts.
pub open spec fn fields_view(v: Seq<(String, String)>) -> Seq<TemplateField> {
    v.map_values(|p: (String, String)| (p.0@, p.1@))
}

/// The views of a list of strings.
pub open spec fn strs(v: Seq<String>) -> Seq<Seq<char>> {
    v.map_values(|s: String| s@)
}

/// Appends a named text.
fn push_field(out: &mut Vec<(String, String)>, name: &str, text: &String)
    ensures
        fields_view(final(out)@) == fields_view(old(out)@).push((name@, text@)),
{
    let ghost o0 = out@;
    out.push((name.to_owned(), text.clone()));
    assert(fields_view(out@) =~= fields_view(o0).push((name@, text@)));
}

/// Appends each string of `v` under the same name.
fn push_fields(out: &mut Vec<(String, String)>, name: &str, v: &Vec<String>)
    ensures
        fields_view(final(out)@) == fields_view(old(out)@) + strings_named(name@, v@),
{
    let ghost o0 = out@;
    let mut i: usize = 0;
    while i < v.len()
        invariant
            i <= v.len(),
            fields_view(out@) == fields_view(o0) + strings_named(name@, v@.subrange(0, i as int)),
        decreases v.len() - i,
    {
        push_field(out, name, &v[i]);
        assert(strings_named(name@, v@.subrange(0, i + 1)) =~= strings_named(name@, v@.subrange(0, i as int)).push((name@, v@[i as int]@)));
        i = i + 1;
    }
    assert(v@.subrange(0, v.len() as int) =~= v@);
}

/// Appends the string in `o`, if any.
fn push_optional(out: &mut Vec<(String, String)>, name: &str, o: &Option<String>)
    ensures
        fields_view(final(out)@) == fields_view(old(out)@) + optional_named(name@, *o),
{
    match o {
        Some(t) => push_field(out, name, t),
        None => {
            assert(fields_view(out@) =~= fields_view(out@) + optional_named(name@, *o));
        },
    }
}

/// The string fields of a resource kind, in the order they are resolved.
fn kind_fields(k: &SpecResourceKind) -> (r: Vec<(String, String)>)
    ensures
        fields_view(r@) == template_fields(*k),
{
    reveal(template_fields);
    let mut out: Vec<(String, String)> = Vec::new();
    match k {
        SpecResourceKind::Runtime { name, version } => {
            push_field(&mut out, "version", version);
            push_field(&mut out, "name", name);
        },
        SpecResourceKind::Fs { source, path, .. } => {
            push_field(&mut out, "path", path);
            push_optional(&mut out, "source", source);
        },
        SpecResourceKind::Package { name, version } => {
            push_field(&mut out, "name", name);
            push_optional(&mut out, "version", version);
        },
        SpecResourceKind::Tool { name, verify } => {
            push_field(&mut out, "name", name);
            match &verify.identity {
                ToolIdentityVerify::ResolvedCommand { command, expected_path } => {
                    push_field(&mut out, "verify.identity.command", command);
                    push_fields(&mut out, "verify.identity.expected_path", &expected_path.one_of);
                },
                ToolIdentityVerify::File { path, .. } => push_field(&mut out, "verify.identity.path", path),
                ToolIdentityVerify::Directory { path } => push_field(&mut out, "verify.identity.path", path),
                ToolIdentityVerify::SymlinkTarget { path, expected_target } => {
                    push_field(&mut out, "verify.identity.path", path);
                    push_field(&mut out, "verify.identity.expected_target", expected_target);
                },
            }
            match &verify.version {
                Some(v) => {
                    push_field(&mut out, "verify.version.command", &v.command);
                    push_fields(&mut out, "verify.version.args", &v.args);
                    push_field(&mut out, "verify.version.parse.first_line_regex", &v.parse.first_line_regex);
                    push_optional(&mut out, "verify.version.constraint", &v.constraint);
                },
                None => {},
            }
        },
    }
    proof {
        reveal_strlit("version");
        reveal_strlit("name");
        reveal_strlit("path");
        reveal_strlit("source");
    }
    assert(fields_view(out@) =~= template_fields(*k));
    out
}

/// The strings `v[from..to]`.
fn slice_strings(v: &Vec<String>, from: usize, to: usize) -> (r: Vec<String>)
    requires
        from <= to <= v.len(),
    ensures
        r@ == v@.subrange(from as int, to as int),
{
    let mut out: Vec<String> = Vec::new();
    let mut i: usize = from;
    while i < to
        invariant
            from <= i <= to <= v.len(),
            out@ == v@.subrange(from as int, i as int),
        decreases to - i,
    {
        out.push(v[i].clone());
        assert(out@ =~= v@.subrange(from as int, i + 1));
        i = i + 1;
    }
    out
}

/// The text at `i` of `texts`.
fn text_at(texts: &Vec<String>, i: usize) -> (r: String)
    requires
        i < texts.len(),
    ensures
        r == texts@[i as int],
{
    texts[i].clone()
}

/// A tool identity check with its strings taken from `texts`, from `at` on.
fn rebuild_identity(i: &ToolIdentityVerify, texts: &Vec<String>, at: usize) -> (r: (ToolIdentityVerify, usize))
    requires
        at + identity_fields(*i).len() <= texts.len(),
    ensures
        r.1 == at + identity_fields(*i).len(),
        same_identity_shape(r.0, *i),
        texts_of(identity_fields(r.0)) == strs(texts@).subrange(at as int, r.1 as int),
{
    let (r, next) = match i {
        ToolIdentityVerify::ResolvedCommand { expected_path, .. } => {
            let n = expected_path.one_of.len();
            (ToolIdentityVerify::ResolvedCommand {
                command: text_at(texts, at),
                expected_path: OneOf { one_of: slice_strings(texts, at + 1, at + 1 + n) },
            }, at + 1 + n)
        },
        ToolIdentityVerify::File { executable, .. } => (ToolIdentityVerify::File { path: text_at(texts, at), executable: *executable }, at + 1),
        ToolIdentityVerify::Directory { .. } => (ToolIdentityVerify::Directory { path: text_at(texts, at) }, at + 1),
        ToolIdentityVerify::SymlinkTarget { .. } => (ToolIdentityVerify::SymlinkTarget {
            path: text_at(texts, at),
            expected_target: text_at(texts, at + 1),
        }, at + 2),
    };
    assert(texts_of(identity_fields(r)) =~= strs(texts@).subrange(at as int, at + identity_fields(*i).len()));
    (r, next)
}

/// A tool version check with its strings taken from `texts`, from `at` on.
fn rebuild_version(v: &Option<ToolVersionVerify>, texts: &Vec<String>, at: usize) -> (r: Option<ToolVersionVerify>)
    requires
        at + version_fields(*v).len() <= texts.len(),
    ensures
        same_version_shape(r, *v),
        texts_of(version_fields(r)) == strs(texts@).subrange(at as int, at + version_fields(*v).len()),
{
    let r = match v {
        Some(x) => {
            let m = x.args.len();
            let constraint = match &x.constraint {
                Some(_) => Some(text_at(texts, at + 2 + m)),
                None => None,
            };
            Some(ToolVersionVerify {
                command: text_at(texts, at),
                args: slice_strings(texts, at + 1, at + 1 + m),
                parse: VersionParseRule { first_line_regex: text_at(texts, at + 1 + m) },
                constraint,
            })
        },
        None => None,
    };
    assert(texts_of(version_fields(r)) =~= strs(texts@).subrange(at as int, at + version_fields(*v).len()));
    r
}

/// Resource kind `k` with its string fields set to `texts`, in order.
fn rebuild_kind(k: &SpecResourceKind, texts: &Vec<String>) -> (r: SpecResourceKind)
    requires
        texts@.len() == template_fields(*k).len(),
    ensures
        same_shape(r, *k),
        texts_of(template_fields(r)) == strs(texts@),
{
    reveal(template_fields);
    let r = match k {
        SpecResourceKind::Runtime { .. } => SpecResourceKind::Runtime { version: text_at(texts, 0), name: text_at(texts, 1) },
        SpecResourceKind::Fs { source, entry_type, op, .. } => {
            let s = match source {
                Some(_) => Some(text_at(texts, 1)),
                None => None,
            };
            SpecResourceKind::Fs { source: s, path: text_at(texts, 0), entry_type: *entry_type, op: *op }
        },
        SpecResourceKind::Package { version, .. } => {
            let v = match version {
                Some(_) => Some(text_at(texts, 1)),
                None => None,
            };
            SpecResourceKind::Package { name: text_at(texts, 0), version: v }
        },
        SpecResourceKind::Tool { verify, .. } => {
            let name = text_at(texts, 0);
            let (identity, n) = rebuild_identity(&verify.identity, texts, 1);
            let version = rebuild_version(&verify.version, texts, n);
            proof {
                let st = strs(texts@);
                let a = seq![("name"@, name@)];
                let b = identity_fields(identity);
                let c = version_fields(version);
                assert(texts_of(a + b + c) =~= texts_of(a) + texts_of(b) + texts_of(c));
                assert(texts_of(a) =~= st.subrange(0, 1));
                assert(st =~= st.subrange(0, 1) + st.subrange(1, n as int) + st.subrange(n as int, st.len() as int));
            }
            SpecResourceKind::Tool { name, verify: ToolVerifyContract { identity, version } }
        },
    };
    assert(texts_of(template_fields(r)) =~= strs(texts@));
    r
}

/// Resolve a list of fields in order, stopping at the first that fails.
fn resolve_fields_exec(component_id: &str, resource_id: &str, fields: &Vec<(String, String)>, params: &ResolvedParams) -> (r: Result<Vec<String>, MaterializeError>)
    requires
        fields_end(fields_view(fields@), params.values@),
    ensures
        match (r, resolve_fields(fields_view(fields@), params.values@)) {
            (Ok(v), Ok(t)) => strs(v@) == t && v@.len() == fields@.len(),
            (Err(e), Err(ff)) => error_reports(e, ff.1, component_id@, resource_id@, ff.0),
            _ => false,
        },
{
    let ghost fv = fields_view(fields@);
    let ghost pm = params.values@;
    let mut out: Vec<String> = Vec::new();
    let mut i: usize = 0;
    assert(fv.subrange(0, 0) =~= Seq::<TemplateField>::empty());
    assert(strs(out@) =~= Seq::<Seq<char>>::empty());
    while i < fields.len()
        invariant
            i <= fields.len(),
            out@.len() == i,
            fv == fields_view(fields@),
            pm == params.values@,
            fields_end(fv, pm),
            resolve_fields(fv.subrange(0, i as int), pm) == Ok::<Seq<Seq<char>>, (Seq<char>, ResolveFailure)>(strs(out@)),
        decreases fields.len() - i,
    {
        proof {
            lemma_fields_end_prefix(fv, pm, i + 1);
            assert(fv.subrange(0, i + 1).drop_last() =~= fv.subrange(0, i as int));
        }
        match resolve_string(component_id, resource_id, fields[i].0.as_str(), fields[i].1.as_str(), params) {
            Ok(v) => {
                let ghost o0 = out@;
                out.push(v);
                assert(strs(out@) =~= strs(o0).push(v@));
            },
            Err(e) => {
                proof { lemma_fields_err_extends(fv, pm, i + 1); }
                return Err(e);
            },
        }
        i = i + 1;
    }
    assert(fv.subrange(0, fields.len() as int) =~= fv);
    Ok(out)
}

/// Fields whose resolution comes to an end do so in every prefix too.
proof fn lemma_fields_end_prefix(fs: Seq<TemplateField>, params: Map<Seq<char>, ParamValue>, m: int)
    requires
        0 <= m <= fs.len(),
        fields_end(fs, params),
    ensures
        fields_end(fs.subrange(0, m), params),
    decreases fs.len(),
{
    if m == fs.len() {
        assert(fs.subrange(0, m) =~= fs);
    } else {
        lemma_fields_end_prefix(fs.drop_last(), params, m);
        assert(fs.drop_last().subrange(0, m) =~= fs.subrange(0, m));
    }
}

/// A failure in a prefix of the fields is the failure of the whole list.
proof fn lemma_fields_err_extends(fs: Seq<TemplateField>, params: Map<Seq<char>, ParamValue>, m: int)
    requires
        0 <= m <= fs.len(),
        resolve_fields(fs.subrange(0, m), params) is Err,
    ensures
        resolve_fields(fs, params) == resolve_fields(fs.subrange(0, m), params),
    decreases fs.len() - m,
{
    if m == fs.len() {
        assert(fs.subrange(0, m) =~= fs);
    } else {
        assert(fs.subrange(0, m + 1).drop_last() =~= fs.subrange(0, m));
        lemma_fields_err_extends(fs, params, m + 1);
    }
}

/// Materialize a single resource.
fn materialize_resource(component_id: &str, resource: &SpecResource, params: &ResolvedParams) -> (r: Result<SpecResource, MaterializeError>)
    requires
        fields_end(template_fields(resource.kind), params.values@),
    ensures
        match (r, resolve_resource(*resource, params.values@)) {
            (Ok(out), Ok(texts)) => materialized_as(out, *resource, texts),
            (Err(e), Err(ff)) => error_reports(e, ff.1, component_id@, resource.id@, ff.0),
            _ => false,
        },
{
    let fields = kind_fields(&resource.kind);
    let texts = resolve_fields_exec(component_id, resource.id.as_str(), &fields, params)?;
    let kind = rebuild_kind(&resource.kind, &texts);
    Ok(SpecResource { id: resource.id.clone(), kind, for_each: resource.for_each.clone() })
}

/// Materialize a component's resources by resolving all `${params.*}` references.
///
/// Resources keep their count, order, kind, id and non-string fields; every
/// string field is resolved (`template_fields` lists them in the order they
/// are resolved). Fails with the error of the first field, of the first
/// resource, whose references cannot be resolved. Requires that resolving the
/// fields it reaches comes to an end (no param value leads back to itself);
/// `materialize_within` checks this first for callers that cannot show it.
/// `law_materialized_resources_hold_no_reference` states what is left.
#[verifier::rlimit(60)]
pub fn materialize(component_id: &str, resources: &Vec<SpecResource>, resolved_params: &ResolvedParams) -> (r: Result<MaterializedComponentSpec, MaterializeError>)
    requires
        resources_end(resources@, resolved_params.values@),
    ensures
        match r {
            Ok(m) => {
                &&& first_failure(resources@, resolved_params.values@) is None
                &&& m.resources@.len() == resources@.len()
                &&& forall|i: int| 0 <= i < resources@.len() ==> resource_done(#[trigger] m.resources@[i], resources@[i], resolved_params.values@)
            },
            Err(e) => failure_reported(e, resources@, resolved_params.values@, component_id@),
        },
{
    let ghost pm = resolved_params.values@;
    let mut out: Vec<SpecResource> = Vec::new();
    let mut i: usize = 0;
    while i < resources.len()
        invariant
            i <= resources.len(),
            pm == resolved_params.values@,
            resources_end(resources@, pm),
            first_failure(resources@.subrange(0, i as int), pm) is None,
            out@.len() == i,
            forall|k: int| 0 <= k < i ==> resource_done(#[trigger] out@[k], resources@[k], pm),
        decreases resources.len() - i,
    {
        assert(resources@.subrange(0, i + 1).drop_last() =~= resources@.subrange(0, i as int));
        assert(fields_end(template_fields(resources@[i as int].kind), pm));
        match materialize_resource(component_id, &resources[i], resolved_params) {
            Ok(m) => {
                out.push(m);
            },
            Err(e) => {
                proof { lemma_first_failure_extends(resources@, pm, i + 1); }
                return Err(e);
            },
        }
        i = i + 1;
    }
    assert(resources@.subrange(0, resources.len() as int) =~= resources@);
    Ok(MaterializedComponentSpec { resources: out })
}

/// What materializing `rs` with `params` for component `cid` gives: each
/// resource materialized, or the error of the first failing resource.
pub open spec fn materialize_outcome(rs: Seq<SpecResource>, params: Map<Seq<char>, ParamValue>, cid: Seq<char>, r: Result<MaterializedComponentSpec, MaterializeError>) -> bool {
    match r {
        Ok(m) => {
            &&& first_failure(rs, params) is None
            &&& m.resources@.len() == rs.len()
            &&& forall|i: int| 0 <= i < rs.len() ==> resource_done(#[trigger] m.resources@[i], rs[i], params)
        },
        Err(e) => failure_reported(e, rs, params, cid),
    }
}

// ---------------------------------------------------------------------------
// Resolution within a bound
// ---------------------------------------------------------------------------

/// Whether each field of `fs` that resolution reaches resolves within `fuel` replacements.
pub open spec fn fields_within(fs: Seq<TemplateField>, params: Map<Seq<char>, ParamValue>, fuel: nat) -> bool
    decreases fs.len(),
{
    if fs.len() == 0 {
        true
    } else {
        fields_within(fs.drop_last(), params, fuel)
            && (resolve_fields(fs.drop_last(), params) is Ok ==> resolve_within(fs.last().1, params, fuel) is Some)
    }
}

/// Whether each field that materializing `rs` reaches resolves within `fuel` replacements.
pub open spec fn resources_within(rs: Seq<SpecResource>, params: Map<Seq<char>, ParamValue>, fuel: nat) -> bool {
    forall|i: int| 0 <= i < rs.len() && first_failure(rs.subrange(0, i), params) is None
        ==> fields_within(template_fields(#[trigger] rs[i].kind), params, fuel)
}

/// Two fuels that both suffice give the same outcome.
proof fn lemma_resolve_within_agree(t: Seq<char>, params: Map<Seq<char>, ParamValue>, f1: nat, f2: nat)
    requires
        resolve_within(t, params, f1) is Some,
        resolve_within(t, params, f2) is Some,
    ensures
        resolve_within(t, params, f1) == resolve_within(t, params, f2),
    decreases f1,
{
    if let ResolveStep::Next(t2) = resolve_step(t, params) {
        lemma_resolve_within_agree(t2, params, (f1 - 1) as nat, (f2 - 1) as nat);
    }
}

/// Resolution that ends within a bound ends, with that outcome.
proof fn lemma_within_ends(t: Seq<char>, params: Map<Seq<char>, ParamValue>, f: nat)
    requires
        resolve_within(t, params, f) is Some,
    ensures
        resolution_ends(t, params),
        Some(resolve_template(t, params)) == resolve_within(t, params, f),
{
    let g = choose|n: nat| #[trigger] resolve_within(t, params, n) is Some;
    lemma_resolve_within_agree(t, params, f, g);
}

proof fn lemma_fields_within_end(fs: Seq<TemplateField>, params: Map<Seq<char>, ParamValue>, f: nat)
    requires
        fields_within(fs, params, f),
    ensures
        fields_end(fs, params),
    decreases fs.len(),
{
    if fs.len() > 0 {
        lemma_fields_within_end(fs.drop_last(), params, f);
        if resolve_fields(fs.drop_last(), params) is Ok {
            lemma_within_ends(fs.last().1, params, f);
        }
    }
}

proof fn lemma_fields_within_prefix(fs: Seq<TemplateField>, params: Map<Seq<char>, ParamValue>, f: nat, m: int)
    requires
        0 <= m <= fs.len(),
        fields_within(fs, params, f),
    ensures
        fields_within(fs.subrange(0, m), params, f),
    decreases fs.len(),
{
    if m == fs.len() {
        assert(fs.subrange(0, m) =~= fs);
    } else {
        lemma_fields_within_prefix(fs.drop_last(), params, f, m);
        assert(fs.drop_last().subrange(0, m) =~= fs.subrange(0, m));
    }
}

/// Past a failing field nothing more is reached.
proof fn lemma_fields_within_err(fs: Seq<TemplateField>, params: Map<Seq<char>, ParamValue>, f: nat, m: int)
    requires
        0 <= m <= fs.len(),
        fields_within(fs.subrange(0, m), params, f),
        resolve_fields(fs.subrange(0, m), params) is Err,
    ensures
        fields_within(fs, params, f),
        resolve_fields(fs, params) is Err,
    decreases fs.len() - m,
{
    if m == fs.len() {
        assert(fs.subrange(0, m) =~= fs);
    } else {
        assert(fs.subrange(0, m + 1).drop_last() =~= fs.subrange(0, m));
        lemma_fields_within_err(fs, params, f, m + 1);
    }
}

/// Whether resolving `template` ends within `fuel` replacements, and in success.
fn resolution_within_exec(template: &str, params: &ResolvedParams, fuel: usize) -> (r: Option<bool>)
    ensures
        match r {
            None => resolve_within(template@, params.values@, fuel as nat) is None,
            Some(ok) => resolve_within(template@, params.values@, fuel as nat) matches Some(x) && ok == x is Ok,
        },
{
    let prefix = chars_of("${params.");
    proof {
        reveal_strlit("${params.");
        assert("${params."@ =~= param_prefix());
    }
    let ghost pm = params.values@;
    let mut cur = chars_of(template);
    let mut left: usize = fuel;
    loop
        invariant
            prefix@ == param_prefix(),
            pm == params.values@,
            resolve_within(cur@, pm, left as nat) == resolve_within(template@, pm, fuel as nat),
        decreases left,
    {
        match resolve_one_step("", "", "", &cur, &prefix, params) {
            Ok(None) => {
                return Some(true);
            },
            Ok(Some(next)) => {
                if left == 0 {
                    return None;
                }
                cur = next;
                left = left - 1;
            },
            Err(_) => {
                return Some(false);
            },
        }
    }
}

/// Whether each field of `fields` that resolution reaches resolves within
/// `fuel` replacements (`None` when not), and whether all of them succeed.
fn fields_within_exec(fields: &Vec<(String, String)>, params: &ResolvedParams, fuel: usize) -> (r: Option<bool>)
    ensures
        match r {
            None => !fields_within(fields_view(fields@), params.values@, fuel as nat),
            Some(ok) => fields_within(fields_view(fields@), params.values@, fuel as nat)
                && ok == resolve_fields(fields_view(fields@), params.values@) is Ok,
        },
{
    let ghost fv = fields_view(fields@);
    let ghost pm = params.values@;
    let mut i: usize = 0;
    assert(fv.subrange(0, 0) =~= Seq::<TemplateField>::empty());
    while i < fields.len()
        invariant
            i <= fields.len(),
            fv == fields_view(fields@),
            pm == params.values@,
            fields_within(fv.subrange(0, i as int), pm, fuel as nat),
            resolve_fields(fv.subrange(0, i as int), pm) is Ok,
        decreases fields.len() - i,
    {
        proof {
            assert(fv.subrange(0, i + 1).drop_last() =~= fv.subrange(0, i as int));
            assert(fv[i as int].1 == fields@[i as int].1@);
        }
        match resolution_within_exec(fields[i].1.as_str(), params, fuel) {
            None => {
                proof {
                    if fields_within(fv, pm, fuel as nat) {
                        lemma_fields_within_prefix(fv, pm, fuel as nat, i + 1);
                    }
                }
                return None;
            },
            Some(false) => {
                proof {
                    lemma_within_ends(fv[i as int].1, pm, fuel as nat);
                    lemma_fields_within_err(fv, pm, fuel as nat, i + 1);
                }
                return Some(false);
            },
            Some(true) => {
                proof { lemma_within_ends(fv[i as int].1, pm, fuel as nat); }
            },
        }
        i = i + 1;
    }
    assert(fv.subrange(0, fields.len() as int) =~= fv);
    Some(true)
}

/// Whether each field that materializing `resources` reaches resolves within `fuel` replacements.
fn resources_within_exec(resources: &Vec<SpecResource>, params: &ResolvedParams, fuel: usize) -> (r: bool)
    ensures
        r == resources_within(resources@, params.values@, fuel as nat),
{
    let ghost pm = params.values@;
    let ghost rs = resources@;
    let mut i: usize = 0;
    assert(rs.subrange(0, 0) =~= Seq::<SpecResource>::empty());
    while i < resources.len()
        invariant
            i <= resources.len(),
            rs == resources@,
            pm == params.values@,
            first_failure(rs.subrange(0, i as int), pm) is None,
            forall|k: int| 0 <= k < i ==> fields_within(template_fields(#[trigger] rs[k].kind), pm, fuel as nat),
        decreases resources.len() - i,
    {
        assert(rs.subrange(0, i + 1).drop_last() =~= rs.subrange(0, i as int));
        assert(rs.subrange(0, i + 1).last() == rs[i as int]);
        let fields = kind_fields(&resources[i].kind);
        match fields_within_exec(&fields, params, fuel) {
            None => {
                assert(!fields_within(template_fields(rs[i as int].kind), pm, fuel as nat));
                return false;
            },
            Some(false) => {
                proof {
                    assert(first_failure(rs.subrange(0, i + 1), pm) is Some);
                    assert forall|j: int| 0 <= j < rs.len() && first_failure(rs.subrange(0, j), pm) is None
                        implies fields_within(template_fields(#[trigger] rs[j].kind), pm, fuel as nat) by {
                        if j > i {
                            assert(rs.subrange(0, j).subrange(0, i + 1) =~= rs.subrange(0, i + 1));
                            lemma_first_failure_extends(rs.subrange(0, j), pm, i + 1);
                        }
                    }
                }
                return true;
            },
            Some(true) => {},
        }
        i = i + 1;
    }
    assert(rs.subrange(0, resources.len() as int) =~= rs);
    true
}

/// Materialize `resources`, first checking that every field it reaches
/// resolves within `max_replacements` replacements. A param value that leads
/// back to itself is replaced forever; this function then returns `None`
/// instead of calling `materialize`. `None` exactly when some field reached
/// needs more than `max_replacements` replacements; otherwise what
/// `materialize` gives.
pub fn materialize_within(component_id: &str, resources: &Vec<SpecResource>, resolved_params: &ResolvedParams, max_replacements: usize)
    -> (r: Option<Result<MaterializedComponentSpec, MaterializeError>>)
    ensures
        r is None <==> !resources_within(resources@, resolved_params.values@, max_replacements as nat),
        r matches Some(res) ==> materialize_outcome(resources@, resolved_params.values@, component_id@, res),
{
    if !resources_within_exec(resources, resolved_params, max_replacements) {
        return None;
    }
    proof {
        let pm = resolved_params.values@;
        let rs = resources@;
        assert forall|i: int| 0 <= i < rs.len() && first_failure(rs.subrange(0, i), pm) is None
            implies fields_end(template_fields(#[trigger] rs[i].kind), pm) by {
            lemma_fields_within_end(template_fields(rs[i].kind), pm, max_replacements as nat);
        }
    }
    Some(materialize(component_id, resources, resolved_params))
}

/// The first failure of `rs` is a failing resource below `m`.
pub open spec fn first_failure_below(rs: Seq<SpecResource>, params: Map<Seq<char>, ParamValue>, m: int) -> bool {
    match first_failure(rs, params) {
        Some(i) => 0 <= i < m && i < rs.len() && resolve_resource(rs[i], params) is Err,
        None => false,
    }
}

/// A failure found in a prefix is the first failure of the whole list.
proof fn lemma_first_failure_extends(rs: Seq<SpecResource>, params: Map<Seq<char>, ParamValue>, m: int)
    requires
        0 <= m <= rs.len(),
        first_failure(rs.subrange(0, m), params) is Some,
    ensures
        first_failure(rs, params) == first_failure(rs.subrange(0, m), params),
        first_failure_below(rs, params, m),
    decreases rs.len() - m,
{
    lemma_first_failure_in_range(rs.subrange(0, m), params);
    if m < rs.len() {
        let next = rs.subrange(0, m + 1);
        assert(next.drop_last() =~= rs.subrange(0, m));
        lemma_first_failure_extends(rs, params, m + 1);
    } else {
        assert(rs.subrange(0, m) =~= rs);
    }
}

/// The first failure names a failing resource within range.
proof fn lemma_first_failure_in_range(rs: Seq<SpecResource>, params: Map<Seq<char>, ParamValue>)
    ensures
        first_failure(rs, params) is Some ==> first_failure_below(rs, params, rs.len() as int),
    decreases rs.len(),
{
    if rs.len() > 0 {
        lemma_first_failure_in_range(rs.drop_last(), params);
    }
}

// ---------------------------------------------------------------------------
// What materialization leaves behind
// ---------------------------------------------------------------------------

/// A text whose resolution ends in success holds no param reference.
proof fn lemma_within_ok_no_ref(s: Seq<char>, params: Map<Seq<char>, ParamValue>, n: nat)
    requires
        resolve_within(s, params, n) matches Some(Ok(_)),
    ensures
        resolve_within(s, params, n) matches Some(Ok(t)) && first_ref(t) is None,
    decreases n,
{
    if let ResolveStep::Next(t) = resolve_step(s, params) {
        lemma_within_ok_no_ref(t, params, (n - 1) as nat);
    }
}

/// The resolved texts of a list of fields hold no param reference.
proof fn lemma_fields_no_ref(fs: Seq<TemplateField>, params: Map<Seq<char>, ParamValue>)
    requires
        fields_end(fs, params),
        resolve_fields(fs, params) is Ok,
    ensures
        forall|i: int| 0 <= i < fs.len() ==> first_ref(#[trigger] resolve_fields(fs, params)->Ok_0[i]) is None,
        resolve_fields(fs, params)->Ok_0.len() == fs.len(),
    decreases fs.len(),
{
    if fs.len() > 0 {
        lemma_fields_no_ref(fs.drop_last(), params);
        let t = fs.last().1;
        let n = choose|n: nat| #[trigger] resolve_within(t, params, n) is Some;
        lemma_within_ok_no_ref(t, params, n);
    }
}

/// A text with no first reference holds no reference at all.
proof fn lemma_no_first_ref(s: Seq<char>)
    requires
        first_ref(s) is None,
    ensures
        !contains_seq(s, param_prefix()),
{
    lemma_first_where(s.len(), |i: int| occurs_at(s, param_prefix(), i));
    if contains_seq(s, param_prefix()) {
        let j = choose|j: int| occurs_at(s, param_prefix(), j);
        assert((|i: int| occurs_at(s, param_prefix(), i))(j));
    }
}

/// A text without references resolves to itself.
proof fn lemma_no_ref_resolves_to_itself(t: Seq<char>, params: Map<Seq<char>, ParamValue>)
    requires
        !contains_seq(t, param_prefix()),
    ensures
        resolution_ends(t, params),
        resolve_template(t, params) == Ok::<Seq<char>, ResolveFailure>(t),
{
    let p = |i: int| occurs_at(t, param_prefix(), i);
    assert forall|j: int| 0 <= j < t.len() implies !#[trigger] p(j) by {
        if p(j) {
            assert(contains_seq(t, param_prefix()));
        }
    }
    lemma_first_where_none(t.len(), p);
    assert(resolve_within(t, params, 0) is Some);
}

/// Each field of a successful resolution resolves to its text in the result.
proof fn lemma_fields_each(fs: Seq<TemplateField>, params: Map<Seq<char>, ParamValue>)
    requires
        resolve_fields(fs, params) is Ok,
    ensures
        resolve_fields(fs, params)->Ok_0.len() == fs.len(),
        forall|j: int| 0 <= j < fs.len() ==> resolve_template(#[trigger] fs[j].1, params) == Ok::<Seq<char>, ResolveFailure>(resolve_fields(fs, params)->Ok_0[j]),
    decreases fs.len(),
{
    if fs.len() > 0 {
        lemma_fields_each(fs.drop_last(), params);
        assert forall|j: int| 0 <= j < fs.len() implies resolve_template(#[trigger] fs[j].1, params) == Ok::<Seq<char>, ResolveFailure>(resolve_fields(fs, params)->Ok_0[j]) by {
            if j < fs.len() - 1 {
                assert(fs[j] == fs.drop_last()[j]);
            }
        }
    }
}

/// With no failing resource in `rs`, none fails in any prefix either.
proof fn lemma_no_failure_prefix(rs: Seq<SpecResource>, params: Map<Seq<char>, ParamValue>, m: int)
    requires
        0 <= m <= rs.len(),
        first_failure(rs, params) is None,
    ensures
        first_failure(rs.subrange(0, m), params) is None,
    decreases rs.len(),
{
    if m == rs.len() {
        assert(rs.subrange(0, m) =~= rs);
    } else {
        lemma_no_failure_prefix(rs.drop_last(), params, m);
        assert(rs.drop_last().subrange(0, m) =~= rs.subrange(0, m));
    }
}

/// No param reference remains after materialization: when every resource of
/// `rs` is materialized into `out` (what a successful `materialize` ensures),
/// no string field of any resource of `out` holds `${params.`, each keeps the
/// id, `for_each` and non-string fields of the resource it came from, and a
/// string field that held no reference is left as it was.
pub proof fn law_materialized_resources_hold_no_reference(
    rs: Seq<SpecResource>,
    params: Map<Seq<char>, ParamValue>,
    out: Seq<SpecResource>,
)
    requires
        resources_end(rs, params),
        first_failure(rs, params) is None,
        out.len() == rs.len(),
        forall|i: int| 0 <= i < rs.len() ==> resource_done(#[trigger] out[i], rs[i], params),
    ensures
        forall|i: int, j: int| 0 <= i < out.len() && 0 <= j < template_fields(out[i].kind).len()
            ==> !contains_seq(#[trigger] template_fields(out[i].kind)[j].1, param_prefix()),
        forall|i: int| 0 <= i < out.len() ==> (#[trigger] out[i]).id == rs[i].id && out[i].for_each == rs[i].for_each
            && same_shape(out[i].kind, rs[i].kind),
        forall|i: int, j: int| 0 <= i < out.len() && 0 <= j < template_fields(rs[i].kind).len()
            && !contains_seq(#[trigger] template_fields(rs[i].kind)[j].1, param_prefix())
            ==> template_fields(out[i].kind)[j].1 == template_fields(rs[i].kind)[j].1,
{
    assert forall|i: int, j: int| 0 <= i < out.len() && 0 <= j < template_fields(out[i].kind).len()
        implies !contains_seq(#[trigger] template_fields(out[i].kind)[j].1, param_prefix()) by {
        lemma_no_failure_prefix(rs, params, i);
        assert(fields_end(template_fields(rs[i].kind), params));
        assert(resource_done(out[i], rs[i], params));
        lemma_fields_no_ref(template_fields(rs[i].kind), params);
        let vs = resolve_fields(template_fields(rs[i].kind), params)->Ok_0;
        assert(texts_of(template_fields(out[i].kind)) == vs);
        assert(texts_of(template_fields(out[i].kind))[j] == template_fields(out[i].kind)[j].1);
        assert(first_ref(vs[j]) is None);
        lemma_no_first_ref(vs[j]);
    }
    assert forall|i: int| 0 <= i < out.len() implies (#[trigger] out[i]).id == rs[i].id && out[i].for_each == rs[i].for_each
        && same_shape(out[i].kind, rs[i].kind) by {
        assert(resource_done(out[i], rs[i], params));
    }
    assert forall|i: int, j: int| 0 <= i < out.len() && 0 <= j < template_fields(rs[i].kind).len()
        && !contains_seq(#[trigger] template_fields(rs[i].kind)[j].1, param_prefix())
        implies template_fields(out[i].kind)[j].1 == template_fields(rs[i].kind)[j].1 by {
        let fs = template_fields(rs[i].kind);
        assert(resource_done(out[i], rs[i], params));
        lemma_fields_each(fs, params);
        lemma_no_ref_resolves_to_itself(fs[j].1, params);
        let vs = resolve_fields(fs, params)->Ok_0;
        assert(texts_of(template_fields(out[i].kind)) == vs);
        assert(texts_of(template_fields(out[i].kind))[j] == template_fields(out[i].kind)[j].1);
    }
}

} // verus!
