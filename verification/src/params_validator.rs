//! Parameter validation and default resolution.
//!
//! Validates profile params against a component's `ParamsSchema`, applies
//! defaults, and produces `ResolvedParams` ready for materialization.
//! Keys are examined in ascending order, so when several problems exist the
//! one reported is determined by that order.
use vstd::prelude::*;
use crate::params::{ParamProperty, ParamType, ParamValue, ParamsSchema, ResolvedParams, same_value};
use crate::strmap::StrMap;
use crate::text::{concat_all, eq_str, first_where, lemma_first_where, lemma_first_where_found, lemma_first_where_none, string_push, chars_of};

verus! {

/// Errors produced during parameter validation.
#[derive(Debug)]
pub enum ParamsValidationError {
    /// Profile supplies params but the component declares no `params_schema`.
    ParamsNotAccepted { component_id: String },
    /// A required param is missing from the profile.
    MissingRequired { component_id: String, key: String },
    /// An unknown key was provided and `additional_properties` is false.
    UnknownKey { component_id: String, key: String },
    /// The value type does not match the schema's declared type.
    TypeMismatch { component_id: String, key: String, expected: String, found: String },
    /// An enum param value is not one of the allowed values.
    InvalidEnumValue { component_id: String, key: String, value: String, allowed: Vec<String> },
}

// ---------------------------------------------------------------------------
// Messages
// ---------------------------------------------------------------------------

/// A string quoted as Rust's debug formatting writes it, escaping quotes,
/// backslashes, and the tab, newline, carriage-return and NUL characters.
pub open spec fn quoted(s: Seq<char>) -> Seq<char> {
    seq!['"'] + escaped(s) + seq!['"']
}

/// The escaped characters of `s` (see `quoted`).
pub open spec fn escaped(s: Seq<char>) -> Seq<char>
    decreases s.len(),
{
    if s.len() == 0 {
        Seq::empty()
    } else {
        escaped(s.drop_last()) + escape_char(s.last())
    }
}

/// The escape of one character (see `quoted`).
pub open spec fn escape_char(c: char) -> Seq<char> {
    if c == '"' { seq!['\\', '"'] }
    else if c == '\\' { seq!['\\', '\\'] }
    else if c == '\n' { seq!['\\', 'n'] }
    else if c == '\r' { seq!['\\', 'r'] }
    else if c == '\t' { seq!['\\', 't'] }
    else if c == '\0' { seq!['\\', '0'] }
    else { seq![c] }
}

/// A list of strings as debug formatting writes it: `["a", "b"]`.
pub open spec fn quoted_list(items: Seq<Seq<char>>) -> Seq<char>
    decreases items.len(),
{
    if items.len() == 0 {
        seq!['[', ']']
    } else {
        seq!['['] + list_body(items) + seq![']']
    }
}

/// The items of a non-empty list, quoted and separated by `, `.
pub open spec fn list_body(items: Seq<Seq<char>>) -> Seq<char>
    decreases items.len(),
{
    if items.len() <= 1 {
        if items.len() == 0 { Seq::empty() } else { quoted(items[0]) }
    } else {
        list_body(items.drop_last()) + seq![',', ' '] + quoted(items.last())
    }
}

fn push_escaped(out: &mut String, s: &str)
    ensures
        final(out)@ == old(out)@ + escaped(s@),
{
    let v = chars_of(s);
    let ghost start = out@;
    let mut i: usize = 0;
    while i < v.len()
        invariant
            i <= v.len(),
            v@ == s@,
            out@ == start + escaped(s@.subrange(0, i as int)),
        decreases v.len() - i,
    {
        let c = v[i];
        assert(s@.subrange(0, i + 1).drop_last() =~= s@.subrange(0, i as int));
        let ghost before = out@;
        if c == '"' {
            string_push(out, '\\');
            string_push(out, '"');
        } else if c == '\\' {
            string_push(out, '\\');
            string_push(out, '\\');
        } else if c == '\n' {
            string_push(out, '\\');
            string_push(out, 'n');
        } else if c == '\r' {
            string_push(out, '\\');
            string_push(out, 'r');
        } else if c == '\t' {
            string_push(out, '\\');
            string_push(out, 't');
        } else if c == '\0' {
            string_push(out, '\\');
            string_push(out, '0');
        } else {
            string_push(out, c);
        }
        assert(out@ =~= before + escape_char(c));
        i = i + 1;
    }
    assert(s@.subrange(0, v.len() as int) =~= s@);
}

/// Debug formatting of a list of strings.
pub fn format_list(items: &Vec<String>) -> (r: String)
    ensures
        r@ == quoted_list(items@.map_values(|s: String| s@)),
{
    let ghost iv = items@.map_values(|s: String| s@);
    let mut out = String::new();
    string_push(&mut out, '[');
    let mut i: usize = 0;
    while i < items.len()
        invariant
            i <= items.len(),
            iv == items@.map_values(|s: String| s@),
            i == 0 ==> out@ == seq!['['],
            i > 0 ==> out@ == seq!['['] + list_body(iv.subrange(0, i as int)),
        decreases items.len() - i,
    {
        let ghost before = out@;
        if i > 0 {
            string_push(&mut out, ',');
            string_push(&mut out, ' ');
        }
        string_push(&mut out, '"');
        push_escaped(&mut out, items[i].as_str());
        string_push(&mut out, '"');
        proof {
            let sub = iv.subrange(0, i + 1);
            assert(sub.drop_last() =~= iv.subrange(0, i as int));
            if i == 0 {
                assert(out@ =~= seq!['['] + quoted(iv[0]));
                assert(list_body(sub) == quoted(sub[0]));
            } else {
                assert(out@ =~= seq!['['] + (list_body(iv.subrange(0, i as int)) + seq![',', ' '] + quoted(iv[i as int])));
            }
        }
        i = i + 1;
    }
    string_push(&mut out, ']');
    proof {
        assert(iv.subrange(0, items.len() as int) =~= iv);
        if items.len() == 0 {
            assert(out@ =~= seq!['[', ']']);
        } else {
            assert(out@ =~= seq!['['] + list_body(iv) + seq![']']);
        }
    }
    out
}

impl ParamsValidationError {
    /// The message of each error.
    pub open spec fn message_spec(&self) -> Seq<char> {
        match self {
            ParamsValidationError::ParamsNotAccepted { component_id } =>
                "component '"@ + component_id@ + "': params are not accepted (no params_schema declared)"@,
            ParamsValidationError::MissingRequired { component_id, key } =>
                "component '"@ + component_id@ + "': required param '"@ + key@ + "' is missing"@,
            ParamsValidationError::UnknownKey { component_id, key } =>
                "component '"@ + component_id@ + "': unknown param '"@ + key@ + "'"@,
            ParamsValidationError::TypeMismatch { component_id, key, expected, found } =>
                "component '"@ + component_id@ + "': param '"@ + key@ + "' type mismatch: expected "@ + expected@
                    + ", found "@ + found@,
            ParamsValidationError::InvalidEnumValue { component_id, key, value, allowed } =>
                "component '"@ + component_id@ + "': param '"@ + key@ + "' value '"@ + value@
                    + "' is not in allowed values: "@ + quoted_list(allowed@.map_values(|s: String| s@)),
        }
    }

    /// The human-readable message.
    pub fn message(&self) -> (r: String)
        ensures
            r@ == self.message_spec(),
    {
        match self {
            ParamsValidationError::ParamsNotAccepted { component_id } => {
                let parts = vec!["component '", component_id.as_str(), "': params are not accepted (no params_schema declared)"];
                let r = concat_all(&parts);
                proof {
                    reveal_with_fuel(crate::text::concat_seq, 4);
                    assert(parts@.map_values(|p: &str| p@) =~= seq!["component '"@, component_id@, "': params are not accepted (no params_schema declared)"@]);
                }
                r
            },
            ParamsValidationError::MissingRequired { component_id, key } => {
                let parts = vec!["component '", component_id.as_str(), "': required param '", key.as_str(), "' is missing"];
                let r = concat_all(&parts);
                proof {
                    reveal_with_fuel(crate::text::concat_seq, 6);
                    assert(parts@.map_values(|p: &str| p@) =~= seq!["component '"@, component_id@, "': required param '"@, key@, "' is missing"@]);
                }
                r
            },
            ParamsValidationError::UnknownKey { component_id, key } => {
                let parts = vec!["component '", component_id.as_str(), "': unknown param '", key.as_str(), "'"];
                let r = concat_all(&parts);
                proof {
                    reveal_with_fuel(crate::text::concat_seq, 6);
                    assert(parts@.map_values(|p: &str| p@) =~= seq!["component '"@, component_id@, "': unknown param '"@, key@, "'"@]);
                }
                r
            },
            ParamsValidationError::TypeMismatch { component_id, key, expected, found } => {
                let parts = vec!["component '", component_id.as_str(), "': param '", key.as_str(), "' type mismatch: expected ",
                    expected.as_str(), ", found ", found.as_str()];
                let r = concat_all(&parts);
                proof {
                    reveal_with_fuel(crate::text::concat_seq, 9);
                    assert(parts@.map_values(|p: &str| p@) =~= seq!["component '"@, component_id@, "': param '"@, key@,
                        "' type mismatch: expected "@, expected@, ", found "@, found@]);
                }
                r
            },
            ParamsValidationError::InvalidEnumValue { component_id, key, value, allowed } => {
                let list = format_list(allowed);
                let parts = vec!["component '", component_id.as_str(), "': param '", key.as_str(), "' value '", value.as_str(),
                    "' is not in allowed values: ", list.as_str()];
                let r = concat_all(&parts);
                proof {
                    reveal_with_fuel(crate::text::concat_seq, 9);
                    assert(parts@.map_values(|p: &str| p@) =~= seq!["component '"@, component_id@, "': param '"@, key@,
                        "' value '"@, value@, "' is not in allowed values: "@, list@]);
                }
                r
            },
        }
    }
}

// ---------------------------------------------------------------------------
// The meaning of validation
// ---------------------------------------------------------------------------

/// Description of a value's type for messages.
pub open spec fn describe(v: ParamValue) -> Seq<char> {
    match v {
        ParamValue::String(_) => "string"@,
        ParamValue::Source(_) => "object (source)"@,
        ParamValue::Array(_) => "array"@,
    }
}

/// The type a property expects, for messages.
pub open spec fn expected_name(t: ParamType) -> Seq<char> {
    match t {
        ParamType::String => "string"@,
        ParamType::Enum { .. } => "string (enum)"@,
        ParamType::Object { .. } => "object (source)"@,
    }
}

/// Whether `v` fits type `t`: strings for `string`, one of the listed
/// strings for `enum`, a source object for `object`.
pub open spec fn fits(t: ParamType, v: ParamValue) -> bool {
    match (t, v) {
        (ParamType::String, ParamValue::String(_)) => true,
        (ParamType::Enum { values }, ParamValue::String(s)) => values@.map_values(|x: String| x@).contains(s@),
        (ParamType::Object { .. }, ParamValue::Source(_)) => true,
        _ => false,
    }
}

/// The params supplied (none means none).
pub open spec fn supplied(params: Option<&StrMap<ParamValue>>) -> Map<Seq<char>, ParamValue> {
    match params {
        Some(p) => p@,
        None => Map::empty(),
    }
}

/// The keys of the params supplied, in ascending order.
pub open spec fn supplied_keys(params: Option<&StrMap<ParamValue>>) -> Seq<Seq<char>> {
    match params {
        Some(p) => p.keys(),
        None => Seq::empty(),
    }
}

/// Whether supplied key `i` is not declared.
pub open spec fn unknown_pred(s: &ParamsSchema, params: Option<&StrMap<ParamValue>>) -> spec_fn(int) -> bool {
    |i: int| !s.properties@.contains_key(supplied_keys(params)[i])
}

/// Index of the first supplied key the schema does not declare.
pub open spec fn first_unknown(s: &ParamsSchema, params: Option<&StrMap<ParamValue>>) -> Option<int> {
    first_where(supplied_keys(params).len(), unknown_pred(s, params))
}

/// Whether declared property `j` is supplied with a value that does not fit.
pub open spec fn misfit_pred(s: &ParamsSchema, params: Option<&StrMap<ParamValue>>) -> spec_fn(int) -> bool {
    |j: int| supplied(params).contains_key(s.properties.keys()[j])
        && !fits(s.properties.vals()[j].param_type, supplied(params)[s.properties.keys()[j]])
}

/// Index of the first declared property whose supplied value does not fit.
pub open spec fn first_misfit(s: &ParamsSchema, params: Option<&StrMap<ParamValue>>) -> Option<int> {
    first_where(s.properties.keys().len(), misfit_pred(s, params))
}

/// Whether key `k` is resolved: declared and supplied or defaulted, or
/// undeclared but supplied when additional properties are allowed.
pub open spec fn resolved_has(s: &ParamsSchema, params: Option<&StrMap<ParamValue>>, k: Seq<char>) -> bool {
    ||| s.properties@.contains_key(k) && (supplied(params).contains_key(k) || s.properties@[k].default is Some)
    ||| s.additional_properties && supplied(params).contains_key(k) && !s.properties@.contains_key(k)
}

/// The value key `k` resolves to: the supplied one, else the default.
pub open spec fn resolved_value(s: &ParamsSchema, params: Option<&StrMap<ParamValue>>, k: Seq<char>) -> ParamValue {
    if supplied(params).contains_key(k) {
        supplied(params)[k]
    } else {
        s.properties@[k].default->0
    }
}

/// Whether required key `r` does not resolve.
pub open spec fn missing_pred(s: &ParamsSchema, params: Option<&StrMap<ParamValue>>) -> spec_fn(int) -> bool {
    |r: int| !resolved_has(s, params, s.required@[r]@)
}

/// Index of the first required key that does not resolve.
pub open spec fn first_missing(s: &ParamsSchema, params: Option<&StrMap<ParamValue>>) -> Option<int> {
    first_where(s.required@.len(), missing_pred(s, params))
}

/// Whether `e` is the type error of property `j` for the supplied value.
pub open spec fn type_error_is(e: ParamsValidationError, s: &ParamsSchema, params: Option<&StrMap<ParamValue>>, j: int, cid: Seq<char>) -> bool {
    let key = s.properties.keys()[j];
    let prop = s.properties.vals()[j];
    let v = supplied(params)[key];
    match (prop.param_type, v) {
        (ParamType::Enum { values }, ParamValue::String(x)) => e matches ParamsValidationError::InvalidEnumValue { component_id, key: k, value, allowed }
            && component_id@ == cid && k@ == key && value == x && allowed@.map_values(|a: String| a@) == values@.map_values(|a: String| a@),
        _ => e matches ParamsValidationError::TypeMismatch { component_id, key: k, expected, found }
            && component_id@ == cid && k@ == key && expected@ == expected_name(prop.param_type) && found@ == describe(v),
    }
}

/// The outcome of validation, stage by stage: no schema; unknown keys;
/// values that do not fit; required keys that do not resolve.
pub open spec fn outcome_ok(schema: Option<&ParamsSchema>, params: Option<&StrMap<ParamValue>>, out: ResolvedParams) -> bool {
    match schema {
        None => supplied(params).len() == 0 && out.values@ == Map::<Seq<char>, ParamValue>::empty(),
        Some(s) => {
            &&& (s.additional_properties || first_unknown(s, params) is None)
            &&& first_misfit(s, params) is None
            &&& first_missing(s, params) is None
            &&& forall|k: Seq<char>| #[trigger] out.values@.contains_key(k) <==> resolved_has(s, params, k)
            &&& forall|k: Seq<char>| out.values@.contains_key(k) ==> same_value(resolved_value(s, params, k), #[trigger] out.values@[k])
        },
    }
}

/// Whether `e` is the error validation reports.
pub open spec fn outcome_err(schema: Option<&ParamsSchema>, params: Option<&StrMap<ParamValue>>, cid: Seq<char>, e: ParamsValidationError) -> bool {
    match schema {
        None => (e matches ParamsValidationError::ParamsNotAccepted { component_id } && component_id@ == cid) && supplied(params).len() > 0,
        Some(s) => {
            if !s.additional_properties && first_unknown(s, params) is Some {
                e matches ParamsValidationError::UnknownKey { component_id, key } && component_id@ == cid
                    && key@ == supplied_keys(params)[first_unknown(s, params)->0]
            } else if first_misfit(s, params) is Some {
                type_error_is(e, s, params, first_misfit(s, params)->0, cid)
            } else {
                (e matches ParamsValidationError::MissingRequired { component_id, key }
                    && component_id@ == cid && key@ == s.required@[first_missing(s, params)->0]@) && first_missing(s, params) is Some
            }
        },
    }
}

// ---------------------------------------------------------------------------
// Validation
// ---------------------------------------------------------------------------

/// Whether `s` is among `values` (executable).
fn contains_string(values: &Vec<String>, s: &str) -> (r: bool)
    ensures
        r == values@.map_values(|x: String| x@).contains(s@),
{
    let ghost vv = values@.map_values(|x: String| x@);
    let mut i: usize = 0;
    while i < values.len()
        invariant
            i <= values.len(),
            vv == values@.map_values(|x: String| x@),
            forall|j: int| 0 <= j < i ==> vv[j] != s@,
        decreases values.len() - i,
    {
        if eq_str(values[i].as_str(), s) {
            assert(vv[i as int] == s@);
            return true;
        }
        i = i + 1;
    }
    false
}

/// Description of a value's type (executable).
fn describe_value(value: &ParamValue) -> (r: String)
    ensures
        r@ == describe(*value),
{
    match value {
        ParamValue::String(_) => "string".to_owned(),
        ParamValue::Source(_) => "object (source)".to_owned(),
        ParamValue::Array(_) => "array".to_owned(),
    }
}

/// Validate that a param value matches the schema property's declared type.
fn validate_type(component_id: &str, key: &str, prop: &ParamProperty, value: &ParamValue) -> (r: Result<(), ParamsValidationError>)
    ensures
        match r {
            Ok(()) => fits(prop.param_type, *value),
            Err(e) => !fits(prop.param_type, *value) && match (prop.param_type, *value) {
                (ParamType::Enum { values }, ParamValue::String(x)) => e matches ParamsValidationError::InvalidEnumValue { component_id: c, key: k, value: vv, allowed }
                    && c@ == component_id@ && k@ == key@ && vv == x && allowed@.map_values(|a: String| a@) == values@.map_values(|a: String| a@),
                _ => e matches ParamsValidationError::TypeMismatch { component_id: c, key: k, expected, found }
                    && c@ == component_id@ && k@ == key@ && expected@ == expected_name(prop.param_type) && found@ == describe(*value),
            },
        },
{
    match (&prop.param_type, value) {
        (ParamType::String, ParamValue::String(_)) => Ok(()),
        (ParamType::String, _) => Err(ParamsValidationError::TypeMismatch {
            component_id: component_id.to_owned(),
            key: key.to_owned(),
            expected: "string".to_owned(),
            found: describe_value(value),
        }),
        (ParamType::Enum { values }, ParamValue::String(s)) => {
            if contains_string(values, s.as_str()) {
                Ok(())
            } else {
                let allowed = crate::tool::clone_strings(values);
                Err(ParamsValidationError::InvalidEnumValue {
                    component_id: component_id.to_owned(),
                    key: key.to_owned(),
                    value: s.clone(),
                    allowed,
                })
            }
        },
        (ParamType::Enum { .. }, _) => Err(ParamsValidationError::TypeMismatch {
            component_id: component_id.to_owned(),
            key: key.to_owned(),
            expected: "string (enum)".to_owned(),
            found: describe_value(value),
        }),
        (ParamType::Object { .. }, ParamValue::Source(_)) => Ok(()),
        (ParamType::Object { .. }, _) => Err(ParamsValidationError::TypeMismatch {
            component_id: component_id.to_owned(),
            key: key.to_owned(),
            expected: "object (source)".to_owned(),
            found: describe_value(value),
        }),
    }
}

/// Validate profile params against a component's schema and resolve defaults.
///
/// - `schema` is `None` and `params` is `None` or empty → empty `ResolvedParams`
/// - `schema` is `None` but `params` is non-empty → `ParamsNotAccepted`
/// - `schema` is `Some` → reject unknown keys (unless additional properties
///   are allowed), check each declared property's type, apply defaults, pass
///   extra keys through when allowed, and check required keys.
pub fn validate_and_resolve(component_id: &str, schema: Option<&ParamsSchema>, params: Option<&StrMap<ParamValue>>) -> (r: Result<ResolvedParams, ParamsValidationError>)
    ensures
        match r {
            Ok(out) => outcome_ok(schema, params, out),
            Err(e) => outcome_err(schema, params, component_id@, e),
        },
{
    let empty: StrMap<ParamValue> = StrMap::new();
    let p: &StrMap<ParamValue> = match params {
        Some(p) => p,
        None => &empty,
    };
    let ghost pm = supplied(params);
    let ghost pk = supplied_keys(params);
    assert(p@ =~= pm);
    p.lemma_shape();
    empty.lemma_shape();
    assert(p.keys() =~= pk);
    let s = match schema {
        None => {
            if p.len() > 0 {
                return Err(ParamsValidationError::ParamsNotAccepted { component_id: component_id.to_owned() });
            }
            return Ok(ResolvedParams::default());
        },
        Some(s) => s,
    };
    s.properties.lemma_shape();

    // Unknown keys.
    if !s.additional_properties {
        let mut i: usize = 0;
        while i < p.len()
            invariant
                i <= p.keys().len(),
                p.keys() == pk,
                pk == supplied_keys(params),
                schema == Some(s),
                !s.additional_properties,
                forall|j: int| 0 <= j < i ==> s.properties@.contains_key(#[trigger] pk[j]),
            decreases p.keys().len() - i,
        {
            let k = p.key_at(i);
            if !s.properties.contains_key(k.as_str()) {
                proof {
                    assert(k@ == pk[i as int]);
                    assert(unknown_pred(s, params)(i as int));
                    assert forall|x: int| 0 <= x < i implies !#[trigger] unknown_pred(s, params)(x) by {
                        assert(s.properties@.contains_key(pk[x]));
                    }
                    lemma_first_where_found(pk.len(), unknown_pred(s, params), i as int);
                }
                return Err(ParamsValidationError::UnknownKey { component_id: component_id.to_owned(), key: k.clone() });
            }
            i = i + 1;
        }
        proof {
            assert forall|x: int| 0 <= x < pk.len() implies !#[trigger] unknown_pred(s, params)(x) by {
                assert(s.properties@.contains_key(pk[x]));
            }
            lemma_first_where_none(pk.len(), unknown_pred(s, params));
        }
    }

    // Declared properties: check supplied values, apply defaults.
    let ghost props = s.properties@;
    let ghost pkeys = s.properties.keys();
    let ghost pvals = s.properties.vals();
    let mut resolved: StrMap<ParamValue> = StrMap::new();
    let mut j: usize = 0;
    while j < s.properties.len()
        invariant
            j <= pkeys.len(),
            schema == Some(s),
            pkeys == s.properties.keys(),
            pvals == s.properties.vals(),
            props == s.properties@,
            pkeys.len() == pvals.len(),
            pm == supplied(params),
            p@ == pm,
            pk == supplied_keys(params),
            forall|x: int| 0 <= x < pkeys.len() ==> #[trigger] props[pkeys[x]] == pvals[x],
            forall|k: Seq<char>| #[trigger] props.contains_key(k) <==> pkeys.contains(k),
            pkeys.no_duplicates(),
            s.additional_properties || first_unknown(s, params) is None,
            forall|x: int| 0 <= x < j ==> !(pm.contains_key(#[trigger] pkeys[x]) && !fits(pvals[x].param_type, pm[pkeys[x]])),
            forall|k: Seq<char>| #[trigger] resolved@.contains_key(k) <==> (exists|x: int| 0 <= x < j && pkeys[x] == k)
                && props.contains_key(k) && (pm.contains_key(k) || props[k].default is Some),
            forall|k: Seq<char>| resolved@.contains_key(k) ==> same_value(resolved_value(s, params, k), #[trigger] resolved@[k]),
        decreases pkeys.len() - j,
    {
        let key = s.properties.key_at(j);
        let prop = s.properties.value_at(j);
        let ghost kv = key@;
        assert(props.contains_key(kv) && props[kv] == *prop) by { assert(pkeys.contains(kv)); }
        match p.get(key.as_str()) {
            Some(value) => {
                match validate_type(component_id, key.as_str(), prop, value) {
                    Ok(()) => {},
                    Err(e) => {
                        proof {
                            assert(misfit_pred(s, params)(j as int));
                            assert forall|x: int| 0 <= x < j implies !#[trigger] misfit_pred(s, params)(x) by {
                                assert(!(pm.contains_key(pkeys[x]) && !fits(pvals[x].param_type, pm[pkeys[x]])));
                            }
                            lemma_first_where_found(pkeys.len(), misfit_pred(s, params), j as int);
                        }
                        return Err(e);
                    },
                }
                let ghost before = resolved@;
                let v2 = value.duplicate();
                resolved.insert(key.clone(), v2);
                proof {
                    assert forall|k: Seq<char>| #[trigger] resolved@.contains_key(k) <==> (exists|x: int| 0 <= x < j + 1 && pkeys[x] == k)
                        && props.contains_key(k) && (pm.contains_key(k) || props[k].default is Some) by {
                        if k == kv {
                            assert(pkeys[j as int] == k);
                        } else if (exists|x: int| 0 <= x < j + 1 && pkeys[x] == k) {
                            let x = choose|x: int| 0 <= x < j + 1 && pkeys[x] == k;
                            assert(x != j);
                        }
                    }
                }
            },
            None => {
                match &prop.default {
                    Some(d) => {
                        let v2 = d.duplicate();
                        resolved.insert(key.clone(), v2);
                        proof {
                            assert forall|k: Seq<char>| #[trigger] resolved@.contains_key(k) <==> (exists|x: int| 0 <= x < j + 1 && pkeys[x] == k)
                                && props.contains_key(k) && (pm.contains_key(k) || props[k].default is Some) by {
                                if k == kv {
                                    assert(pkeys[j as int] == k);
                                } else if (exists|x: int| 0 <= x < j + 1 && pkeys[x] == k) {
                                    let x = choose|x: int| 0 <= x < j + 1 && pkeys[x] == k;
                                    assert(x != j);
                                }
                            }
                        }
                    },
                    None => {
                        proof {
                            assert forall|k: Seq<char>| #[trigger] resolved@.contains_key(k) <==> (exists|x: int| 0 <= x < j + 1 && pkeys[x] == k)
                                && props.contains_key(k) && (pm.contains_key(k) || props[k].default is Some) by {
                                if (exists|x: int| 0 <= x < j + 1 && pkeys[x] == k) && k != kv {
                                    let x = choose|x: int| 0 <= x < j + 1 && pkeys[x] == k;
                                    assert(x != j);
                                }
                            }
                        }
                    },
                }
            },
        }
        j = j + 1;
    }
    proof {
        assert forall|x: int| 0 <= x < pkeys.len() implies !#[trigger] misfit_pred(s, params)(x) by {
            assert(!(pm.contains_key(pkeys[x]) && !fits(pvals[x].param_type, pm[pkeys[x]])));
        }
        lemma_first_where_none(pkeys.len(), misfit_pred(s, params));
    }

    // Extra keys, when allowed.
    if s.additional_properties {
        let mut i: usize = 0;
        while i < p.len()
            invariant
                i <= pk.len(),
                schema == Some(s),
                p.keys() == pk,
                p@ == pm,
                pm == supplied(params),
                props == s.properties@,
                s.additional_properties,
                first_misfit(s, params) is None,
                forall|k: Seq<char>| #[trigger] pm.contains_key(k) <==> pk.contains(k),
                forall|x: int| 0 <= x < pk.len() ==> #[trigger] pm[pk[x]] == p.vals()[x],
                pk.len() == p.vals().len(),
                pk.no_duplicates(),
                forall|k: Seq<char>| #[trigger] resolved@.contains_key(k) <==>
                    ((props.contains_key(k) && (pm.contains_key(k) || props[k].default is Some))
                    || (!props.contains_key(k) && exists|x: int| 0 <= x < i && pk[x] == k)),
                forall|k: Seq<char>| resolved@.contains_key(k) ==> same_value(resolved_value(s, params, k), #[trigger] resolved@[k]),
            decreases pk.len() - i,
        {
            let k = p.key_at(i);
            let v = p.value_at(i);
            let ghost kv = k@;
            if !s.properties.contains_key(k.as_str()) {
                let v2 = v.duplicate();
                resolved.insert(k.clone(), v2);
            }
            proof {
                assert(pm.contains_key(kv) && pm[kv] == *v) by { assert(pk.contains(kv)); }
                assert forall|q: Seq<char>| #[trigger] resolved@.contains_key(q) <==>
                    ((props.contains_key(q) && (pm.contains_key(q) || props[q].default is Some))
                    || (!props.contains_key(q) && exists|x: int| 0 <= x < i + 1 && pk[x] == q)) by {
                    if q == kv {
                        assert(pk[i as int] == q);
                    } else if !props.contains_key(q) && (exists|x: int| 0 <= x < i + 1 && pk[x] == q) {
                        let x = choose|x: int| 0 <= x < i + 1 && pk[x] == q;
                        assert(x != i);
                    }
                }
            }
            i = i + 1;
        }
        proof {
            assert forall|k: Seq<char>| #[trigger] resolved@.contains_key(k) <==> resolved_has(s, params, k) by {
                if !props.contains_key(k) && pm.contains_key(k) {
                    assert(pk.contains(k));
                    let x = choose|x: int| 0 <= x < pk.len() && pk[x] == k;
                    assert(exists|y: int| 0 <= y < pk.len() && pk[y] == k);
                }
            }
        }
    } else {
        proof {
            assert forall|k: Seq<char>| #[trigger] resolved@.contains_key(k) <==> resolved_has(s, params, k) by {
                if props.contains_key(k) {
                    assert(pkeys.contains(k));
                    let x = choose|x: int| 0 <= x < pkeys.len() && pkeys[x] == k;
                }
            }
        }
    }

    // Required keys.
    let mut r: usize = 0;
    while r < s.required.len()
        invariant
            r <= s.required.len(),
            schema == Some(s),
            forall|k: Seq<char>| #[trigger] resolved@.contains_key(k) <==> resolved_has(s, params, k),
            forall|x: int| 0 <= x < r ==> resolved_has(s, params, #[trigger] s.required@[x]@),
            first_misfit(s, params) is None,
            s.additional_properties || first_unknown(s, params) is None,
        decreases s.required.len() - r,
    {
        if !resolved.contains_key(s.required[r].as_str()) {
            proof {
                assert(missing_pred(s, params)(r as int));
                assert forall|x: int| 0 <= x < r implies !#[trigger] missing_pred(s, params)(x) by {
                    assert(resolved_has(s, params, s.required@[x]@));
                }
                lemma_first_where_found(s.required@.len(), missing_pred(s, params), r as int);
            }
            return Err(ParamsValidationError::MissingRequired { component_id: component_id.to_owned(), key: s.required[r].clone() });
        }
        r = r + 1;
    }
    proof {
        assert forall|x: int| 0 <= x < s.required@.len() implies !#[trigger] missing_pred(s, params)(x) by {
            assert(resolved_has(s, params, s.required@[x]@));
        }
        lemma_first_where_none(s.required@.len(), missing_pred(s, params));
    }
    Ok(ResolvedParams { values: resolved })
}

} // verus!
