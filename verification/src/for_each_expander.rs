//! for_each expansion — expand templated resources over a params array.
//!
//! Takes a `MaterializedComponentSpec` (with any `for_each` fields still in
//! place) and `ResolvedParams`, and expands each `for_each` resource into one
//! resource per array element, replacing `${item}` in every string field.
//! No `for_each` field survives in the output, and all output ids are distinct.
use vstd::prelude::*;
use crate::component_index::{SpecResource, SpecResourceKind, same_kind};
use crate::params::{MaterializedComponentSpec, ParamValue, ResolvedParams};
use crate::text::{concat_all, contains_seq, contains_str, decimal, decimal_string, has_prefix, replace_all, replace_str, strip_prefix, eq_str};
use crate::tool::same_contract;
use crate::params_materializer::{template_fields, same_shape};

verus! {

/// Errors produced during for_each expansion.
#[derive(Debug)]
pub enum ExpanderError {
    /// `for_each` references a params key that does not exist in the resolved params.
    UnknownParam { component_id: String, resource_id: String, key: String },
    /// The params value referenced by `for_each` is not an array.
    NotAnArray { component_id: String, resource_id: String, key: String },
    /// A `for_each` resource id does not contain `${item}`.
    ItemNotInId { component_id: String, resource_id: String },
    /// Two expanded resources have the same id.
    DuplicateId { component_id: String, id: String },
    /// A `for_each` array element is not a string.
    NonStringItem { component_id: String, resource_id: String, key: String, index: usize },
}

impl ExpanderError {
    /// The message of each error.
    pub open spec fn message_spec(&self) -> Seq<char> {
        match self {
            ExpanderError::UnknownParam { component_id, resource_id, key } =>
                "component '"@ + component_id@ + "': resource '"@ + resource_id@
                    + "': for_each references unknown param key '"@ + key@ + "'"@,
            ExpanderError::NotAnArray { component_id, resource_id, key } =>
                "component '"@ + component_id@ + "': resource '"@ + resource_id@
                    + "': for_each param '"@ + key@ + "' is not an array"@,
            ExpanderError::ItemNotInId { component_id, resource_id } =>
                "component '"@ + component_id@ + "': resource '"@ + resource_id@
                    + "': for_each resource id must contain '${item}'"@,
            ExpanderError::DuplicateId { component_id, id } =>
                "component '"@ + component_id@ + "': for_each expansion produced duplicate resource id '"@ + id@ + "'"@,
            ExpanderError::NonStringItem { component_id, resource_id, key, index } =>
                "component '"@ + component_id@ + "': resource '"@ + resource_id@
                    + "': for_each param '"@ + key@ + "' element ["@ + decimal(*index as nat) + "] must be a string"@,
        }
    }

    /// The human-readable message.
    pub fn message(&self) -> (r: String)
        ensures
            r@ == self.message_spec(),
    {
        match self {
            ExpanderError::UnknownParam { component_id, resource_id, key } => {
                let parts = vec!["component '", component_id.as_str(), "': resource '", resource_id.as_str(),
                    "': for_each references unknown param key '", key.as_str(), "'"];
                let r = concat_all(&parts);
                proof {
                    reveal_with_fuel(crate::text::concat_seq, 8);
                    assert(parts@.map_values(|p: &str| p@) =~= seq!["component '"@, component_id@, "': resource '"@, resource_id@,
                        "': for_each references unknown param key '"@, key@, "'"@]);
                }
                r
            },
            ExpanderError::NotAnArray { component_id, resource_id, key } => {
                let parts = vec!["component '", component_id.as_str(), "': resource '", resource_id.as_str(),
                    "': for_each param '", key.as_str(), "' is not an array"];
                let r = concat_all(&parts);
                proof {
                    reveal_with_fuel(crate::text::concat_seq, 8);
                    assert(parts@.map_values(|p: &str| p@) =~= seq!["component '"@, component_id@, "': resource '"@, resource_id@,
                        "': for_each param '"@, key@, "' is not an array"@]);
                }
                r
            },
            ExpanderError::ItemNotInId { component_id, resource_id } => {
                let parts = vec!["component '", component_id.as_str(), "': resource '", resource_id.as_str(),
                    "': for_each resource id must contain '${item}'"];
                let r = concat_all(&parts);
                proof {
                    reveal_with_fuel(crate::text::concat_seq, 6);
                    assert(parts@.map_values(|p: &str| p@) =~= seq!["component '"@, component_id@, "': resource '"@, resource_id@,
                        "': for_each resource id must contain '${item}'"@]);
                }
                r
            },
            ExpanderError::DuplicateId { component_id, id } => {
                let parts = vec!["component '", component_id.as_str(), "': for_each expansion produced duplicate resource id '", id.as_str(), "'"];
                let r = concat_all(&parts);
                proof {
                    reveal_with_fuel(crate::text::concat_seq, 6);
                    assert(parts@.map_values(|p: &str| p@) =~= seq!["component '"@, component_id@,
                        "': for_each expansion produced duplicate resource id '"@, id@, "'"@]);
                }
                r
            },
            ExpanderError::NonStringItem { component_id, resource_id, key, index } => {
                let idx = decimal_string(*index as u128);
                let parts = vec!["component '", component_id.as_str(), "': resource '", resource_id.as_str(),
                    "': for_each param '", key.as_str(), "' element [", idx.as_str(), "] must be a string"];
                let r = concat_all(&parts);
                proof {
                    reveal_with_fuel(crate::text::concat_seq, 10);
                    assert(parts@.map_values(|p: &str| p@) =~= seq!["component '"@, component_id@, "': resource '"@, resource_id@,
                        "': for_each param '"@, key@, "' element ["@, idx@, "] must be a string"@]);
                }
                r
            },
        }
    }
}

/// A `ComponentSpec` after `for_each` expansion.
#[derive(Debug)]
pub struct ExpandedComponentSpec {
    /// Resources with all `for_each` fields expanded.
    pub resources: Vec<SpecResource>,
}

// ---------------------------------------------------------------------------
// The meaning of expansion
// ---------------------------------------------------------------------------

/// The placeholder replaced by each array element.
pub open spec fn item_marker() -> Seq<char> {
    "${item}"@
}

/// The params key named by a `for_each` path (`params.` prefix removed when present).
pub open spec fn param_key(path: Seq<char>) -> Seq<char> {
    if has_prefix(path, "params."@) {
        path.skip(7)
    } else {
        path
    }
}

/// `s` with every `${item}` replaced by `item`.
pub open spec fn with_item(s: Seq<char>, item: Seq<char>) -> Seq<char> {
    replace_all(s, item_marker(), item)
}

/// Why expansion stops, by position.
pub enum ExpandFailure {
    /// Resource `i` names a key absent from the params.
    UnknownParam(int),
    /// Resource `i` names a param that is not an array.
    NotAnArray(int),
    /// Resource `i` has `for_each` but its id lacks `${item}`.
    ItemNotInId(int),
    /// An output id that was already produced.
    DuplicateId(Seq<char>),
    /// Element `j` of the array of resource `i` is not a string.
    NonStringItem(int, int),
}

/// Expansion so far: for each output, the index of its resource and the
/// array element it was made for (none for pass-through); and the output ids.
pub type ExpandAcc = (Seq<(int, Option<Seq<char>>)>, Seq<Seq<char>>);

/// Expansion of the first elements of a resource's array, after `acc`.
pub open spec fn expand_items(i: int, r: SpecResource, elems: Seq<ParamValue>, acc: ExpandAcc) -> Result<ExpandAcc, ExpandFailure>
    decreases elems.len(),
{
    if elems.len() == 0 {
        Ok(acc)
    } else {
        match expand_items(i, r, elems.drop_last(), acc) {
            Err(f) => Err(f),
            Ok(a) => match elems.last() {
                ParamValue::String(s) => {
                    let id = with_item(r.id@, s@);
                    if a.1.contains(id) {
                        Err(ExpandFailure::DuplicateId(id))
                    } else {
                        Ok((a.0.push((i, Some(s@))), a.1.push(id)))
                    }
                },
                _ => Err(ExpandFailure::NonStringItem(i, elems.len() - 1)),
            },
        }
    }
}

/// Expansion of resource `i` after `acc`.
pub open spec fn expand_one(i: int, r: SpecResource, params: Map<Seq<char>, ParamValue>, acc: ExpandAcc) -> Result<ExpandAcc, ExpandFailure> {
    match r.for_each {
        None => {
            if acc.1.contains(r.id@) {
                Err(ExpandFailure::DuplicateId(r.id@))
            } else {
                Ok((acc.0.push((i, None)), acc.1.push(r.id@)))
            }
        },
        Some(p) => {
            if !contains_seq(r.id@, item_marker()) {
                Err(ExpandFailure::ItemNotInId(i))
            } else if !params.contains_key(param_key(p@)) {
                Err(ExpandFailure::UnknownParam(i))
            } else {
                match params[param_key(p@)] {
                    ParamValue::Array(elems) => expand_items(i, r, elems@, acc),
                    _ => Err(ExpandFailure::NotAnArray(i)),
                }
            }
        },
    }
}

/// Expansion of a resource list, in order.
pub open spec fn expand_acc(rs: Seq<SpecResource>, params: Map<Seq<char>, ParamValue>) -> Result<ExpandAcc, ExpandFailure>
    decreases rs.len(),
{
    if rs.len() == 0 {
        Ok((Seq::empty(), Seq::empty()))
    } else {
        match expand_acc(rs.drop_last(), params) {
            Err(f) => Err(f),
            Ok(acc) => expand_one(rs.len() - 1, rs.last(), params, acc),
        }
    }
}

/// Whether `out` is resource kind `k` with `${item}` replaced by `item` in
/// every string field.
pub open spec fn kind_with_item(out: SpecResourceKind, k: SpecResourceKind, item: Seq<char>) -> bool {
    match (out, k) {
        (SpecResourceKind::Package { name: n1, version: v1 }, SpecResourceKind::Package { name, version }) =>
            n1@ == with_item(name@, item) && match (v1, version) {
                (Some(a), Some(b)) => a@ == with_item(b@, item),
                (None, None) => true,
                _ => false,
            },
        (SpecResourceKind::Runtime { name: n1, version: v1 }, SpecResourceKind::Runtime { name, version }) =>
            n1@ == with_item(name@, item) && v1@ == with_item(version@, item),
        (SpecResourceKind::Fs { source: s1, path: p1, entry_type: e1, op: o1 }, SpecResourceKind::Fs { source, path, entry_type, op }) =>
            p1@ == with_item(path@, item) && e1 == entry_type && o1 == op && match (s1, source) {
                (Some(a), Some(b)) => a@ == with_item(b@, item),
                (None, None) => true,
                _ => false,
            },
        (SpecResourceKind::Tool { name: n1, verify: v1 }, SpecResourceKind::Tool { name, verify }) =>
            n1@ == with_item(name@, item) && same_contract(verify, v1),
        _ => false,
    }
}

/// Whether `out` is the output made from resource `r` for `item`.
pub open spec fn expanded_from(out: SpecResource, r: SpecResource, item: Option<Seq<char>>) -> bool {
    &&& out.for_each.is_none()
    &&& match item {
        None => out.id == r.id && same_kind(r.kind, out.kind),
        Some(x) => out.id@ == with_item(r.id@, x) && kind_with_item(out.kind, r.kind, x),
    }
}

/// The params key a resource's `for_each` names (empty when it has none).
pub open spec fn for_each_key(r: SpecResource) -> Seq<char> {
    match r.for_each {
        Some(p) => param_key(p@),
        None => Seq::empty(),
    }
}

/// Whether the exec error `e` reports failure `f` for component `cid`.
pub open spec fn error_reports(e: ExpanderError, f: ExpandFailure, cid: Seq<char>, rs: Seq<SpecResource>) -> bool {
    match (e, f) {
        (ExpanderError::UnknownParam { component_id, resource_id, key }, ExpandFailure::UnknownParam(i)) =>
            component_id@ == cid && resource_id == rs[i].id && key@ == for_each_key(rs[i]),
        (ExpanderError::NotAnArray { component_id, resource_id, key }, ExpandFailure::NotAnArray(i)) =>
            component_id@ == cid && resource_id == rs[i].id && key@ == for_each_key(rs[i]),
        (ExpanderError::ItemNotInId { component_id, resource_id }, ExpandFailure::ItemNotInId(i)) =>
            component_id@ == cid && resource_id == rs[i].id,
        (ExpanderError::DuplicateId { component_id, id }, ExpandFailure::DuplicateId(d)) =>
            component_id@ == cid && id@ == d,
        (ExpanderError::NonStringItem { component_id, resource_id, key, index }, ExpandFailure::NonStringItem(i, j)) =>
            component_id@ == cid && resource_id == rs[i].id && key@ == for_each_key(rs[i]) && index == j,
        _ => false,
    }
}

// ---------------------------------------------------------------------------
// Lemmas
// ---------------------------------------------------------------------------

/// A failure in a prefix of an array is the failure of the whole array.
proof fn lemma_items_err_extends(i: int, r: SpecResource, elems: Seq<ParamValue>, acc: ExpandAcc, m: int)
    requires
        0 <= m <= elems.len(),
        expand_items(i, r, elems.subrange(0, m), acc) is Err,
    ensures
        expand_items(i, r, elems, acc) == expand_items(i, r, elems.subrange(0, m), acc),
    decreases elems.len() - m,
{
    if m < elems.len() {
        let next = elems.subrange(0, m + 1);
        assert(next.drop_last() =~= elems.subrange(0, m));
        lemma_items_err_extends(i, r, elems, acc, m + 1);
    } else {
        assert(elems.subrange(0, m) =~= elems);
    }
}

/// A failure in a prefix of the resources is the failure of the whole list.
proof fn lemma_acc_err_extends(rs: Seq<SpecResource>, params: Map<Seq<char>, ParamValue>, m: int)
    requires
        0 <= m <= rs.len(),
        expand_acc(rs.subrange(0, m), params) is Err,
    ensures
        expand_acc(rs, params) == expand_acc(rs.subrange(0, m), params),
    decreases rs.len() - m,
{
    if m < rs.len() {
        let next = rs.subrange(0, m + 1);
        assert(next.drop_last() =~= rs.subrange(0, m));
        lemma_acc_err_extends(rs, params, m + 1);
    } else {
        assert(rs.subrange(0, m) =~= rs);
    }
}

/// The views of a string vector.
pub open spec fn views(v: Seq<String>) -> Seq<Seq<char>> {
    v.map_values(|s: String| s@)
}

// ---------------------------------------------------------------------------
// Expansion
// ---------------------------------------------------------------------------

/// Whether `id` is among `seen` (executable).
fn seen_contains(seen: &Vec<String>, id: &str) -> (r: bool)
    ensures
        r == views(seen@).contains(id@),
{
    let mut i: usize = 0;
    while i < seen.len()
        invariant
            i <= seen.len(),
            forall|j: int| 0 <= j < i ==> views(seen@)[j] != id@,
        decreases seen.len() - i,
    {
        if eq_str(seen[i].as_str(), id) {
            assert(views(seen@)[i as int] == id@);
            return true;
        }
        i = i + 1;
    }
    false
}

/// `${item}` replaced by `item` in every string field of `kind`.
fn expand_kind(kind: &SpecResourceKind, item: &str) -> (r: SpecResourceKind)
    ensures
        kind_with_item(r, *kind, item@),
{
    proof { reveal_strlit("${item}"); }
    match kind {
        SpecResourceKind::Package { name, version } => SpecResourceKind::Package {
            name: replace_str(name.as_str(), "${item}", item),
            version: match version {
                Some(v) => Some(replace_str(v.as_str(), "${item}", item)),
                None => None,
            },
        },
        SpecResourceKind::Runtime { name, version } => SpecResourceKind::Runtime {
            name: replace_str(name.as_str(), "${item}", item),
            version: replace_str(version.as_str(), "${item}", item),
        },
        SpecResourceKind::Fs { source, path, entry_type, op } => SpecResourceKind::Fs {
            source: match source {
                Some(s) => Some(replace_str(s.as_str(), "${item}", item)),
                None => None,
            },
            path: replace_str(path.as_str(), "${item}", item),
            entry_type: *entry_type,
            op: *op,
        },
        SpecResourceKind::Tool { name, verify } => SpecResourceKind::Tool {
            name: replace_str(name.as_str(), "${item}", item),
            verify: verify.duplicate(),
        },
    }
}

/// Expand a component spec by processing all `for_each` resource declarations.
///
/// Resources without `for_each` are passed through unchanged. Resources with
/// `for_each` are expanded into one resource per array element, in order.
/// Fails on the first resource (and element) that names an unknown param, a
/// param that is not an array, lacks `${item}` in its id, meets a non-string
/// element, or produces an id already produced.
pub fn expand(component_id: &str, materialized: &MaterializedComponentSpec, resolved_params: &ResolvedParams) -> (r: Result<ExpandedComponentSpec, ExpanderError>)
    ensures
        match (r, expand_acc(materialized.resources@, resolved_params.values@)) {
            (Ok(out), Ok(acc)) => {
                &&& out.resources@.len() == acc.0.len()
                &&& forall|k: int| 0 <= k < acc.0.len() ==> 0 <= #[trigger] acc.0[k].0 < materialized.resources@.len()
                    && expanded_from(out.resources@[k], materialized.resources@[acc.0[k].0], acc.0[k].1)
                &&& forall|a: int, b: int| 0 <= a < b < out.resources@.len() ==> out.resources@[a].id@ != out.resources@[b].id@
            },
            (Err(e), Err(f)) => error_reports(e, f, component_id@, materialized.resources@),
            _ => false,
        },
{
    let ghost rs = materialized.resources@;
    let ghost params = resolved_params.values@;
    proof { reveal_strlit("${item}"); reveal_strlit("params."); }
    let mut out: Vec<SpecResource> = Vec::new();
    let mut seen: Vec<String> = Vec::new();
    let ghost mut slots: Seq<(int, Option<Seq<char>>)> = Seq::empty();
    let mut i: usize = 0;
    assert(rs.subrange(0, 0) =~= Seq::<SpecResource>::empty());
    assert(views(seen@) =~= Seq::<Seq<char>>::empty());
    while i < materialized.resources.len()
        invariant
            i <= rs.len(),
            rs == materialized.resources@,
            params == resolved_params.values@,
            expand_acc(rs.subrange(0, i as int), params) == Ok::<ExpandAcc, ExpandFailure>((slots, views(seen@))),
            out@.len() == slots.len(),
            forall|k: int| 0 <= k < slots.len() ==> 0 <= #[trigger] slots[k].0 < rs.len()
                && expanded_from(out@[k], rs[slots[k].0], slots[k].1),
            views(seen@).len() == out@.len(),
            forall|k: int| 0 <= k < out@.len() ==> #[trigger] views(seen@)[k] == out@[k].id@,
            views(seen@).no_duplicates(),
        decreases rs.len() - i,
    {
        let resource = &materialized.resources[i];
        let ghost acc0: ExpandAcc = (slots, views(seen@));
        proof {
            assert(rs.subrange(0, i + 1).drop_last() =~= rs.subrange(0, i as int));
            assert(rs.subrange(0, i + 1).last() == rs[i as int]);
        }
        match &resource.for_each {
            None => {
                if seen_contains(&seen, resource.id.as_str()) {
                    proof { lemma_acc_err_extends(rs, params, i + 1); }
                    return Err(ExpanderError::DuplicateId { component_id: component_id.to_owned(), id: resource.id.clone() });
                }
                let r = SpecResource { id: resource.id.clone(), kind: resource.kind.duplicate(), for_each: None };
                let ghost old_seen = views(seen@);
                seen.push(resource.id.clone());
                out.push(r);
                proof {
                    slots = slots.push((i as int, None));
                    assert(views(seen@) =~= old_seen.push(resource.id@));
                }
            },
            Some(param_path) => {
                if !contains_str(resource.id.as_str(), "${item}") {
                    proof { lemma_acc_err_extends(rs, params, i + 1); }
                    return Err(ExpanderError::ItemNotInId { component_id: component_id.to_owned(), resource_id: resource.id.clone() });
                }
                let stripped = strip_prefix(param_path.as_str(), "params.");
                let key: String = match stripped {
                    Some(k) => k,
                    None => param_path.clone(),
                };
                proof {
                    reveal_strlit("params.");
                    assert("params."@.len() == 7);
                }
                assert(key@ == param_key(param_path@));
                let param_value = match resolved_params.values.get(key.as_str()) {
                    Some(v) => v,
                    None => {
                        proof { lemma_acc_err_extends(rs, params, i + 1); }
                        return Err(ExpanderError::UnknownParam { component_id: component_id.to_owned(), resource_id: resource.id.clone(), key });
                    },
                };
                let elements = match param_value {
                    ParamValue::Array(elems) => elems,
                    _ => {
                        proof { lemma_acc_err_extends(rs, params, i + 1); }
                        return Err(ExpanderError::NotAnArray { component_id: component_id.to_owned(), resource_id: resource.id.clone(), key });
                    },
                };
                let ghost es = elements@;
                let mut j: usize = 0;
                assert(es.subrange(0, 0) =~= Seq::<ParamValue>::empty());
                while j < elements.len()
                    invariant
                        i < rs.len(),
                        j <= es.len(),
                        es == elements@,
                        rs == materialized.resources@,
                        params == resolved_params.values@,
                        *resource == rs[i as int],
                        expand_acc(rs.subrange(0, i as int), params) == Ok::<ExpandAcc, ExpandFailure>(acc0),
                        expand_one(i as int, rs[i as int], params, acc0) == expand_items(i as int, rs[i as int], es, acc0),
                        expand_items(i as int, rs[i as int], es.subrange(0, j as int), acc0) == Ok::<ExpandAcc, ExpandFailure>((slots, views(seen@))),
                        rs.subrange(0, i + 1).drop_last() == rs.subrange(0, i as int),
                        rs.subrange(0, i + 1).last() == rs[i as int],
                        out@.len() == slots.len(),
                        forall|k: int| 0 <= k < slots.len() ==> 0 <= #[trigger] slots[k].0 < rs.len()
                            && expanded_from(out@[k], rs[slots[k].0], slots[k].1),
                        views(seen@).len() == out@.len(),
                        forall|k: int| 0 <= k < out@.len() ==> #[trigger] views(seen@)[k] == out@[k].id@,
                        views(seen@).no_duplicates(),
                        rs[i as int].for_each.is_some() && key@ == for_each_key(rs[i as int]),
                    decreases es.len() - j,
                {
                    proof {
                        reveal_strlit("${item}");
                        assert(es.subrange(0, j + 1).drop_last() =~= es.subrange(0, j as int));
                        assert(es.subrange(0, j + 1).last() == es[j as int]);
                    }
                    let item_str = match &elements[j] {
                        ParamValue::String(s) => s.as_str(),
                        _ => {
                            proof {
                                lemma_items_err_extends(i as int, rs[i as int], es, acc0, j + 1);
                                lemma_acc_err_extends(rs, params, i + 1);
                            }
                            return Err(ExpanderError::NonStringItem {
                                component_id: component_id.to_owned(),
                                resource_id: resource.id.clone(),
                                key,
                                index: j,
                            });
                        },
                    };
                    let expanded_id = replace_str(resource.id.as_str(), "${item}", item_str);
                    if seen_contains(&seen, expanded_id.as_str()) {
                        proof {
                            lemma_items_err_extends(i as int, rs[i as int], es, acc0, j + 1);
                            lemma_acc_err_extends(rs, params, i + 1);
                        }
                        return Err(ExpanderError::DuplicateId { component_id: component_id.to_owned(), id: expanded_id });
                    }
                    let expanded_kind = expand_kind(&resource.kind, item_str);
                    let ghost old_seen = views(seen@);
                    seen.push(expanded_id.clone());
                    out.push(SpecResource { id: expanded_id, kind: expanded_kind, for_each: None });
                    proof {
                        slots = slots.push((i as int, Some(item_str@)));
                        assert(views(seen@) =~= old_seen.push(with_item(rs[i as int].id@, item_str@)));
                    }
                    j = j + 1;
                }
                proof {
                    assert(es.subrange(0, es.len() as int) =~= es);
                }
            },
        }
        i = i + 1;
    }
    proof {
        assert(rs.subrange(0, rs.len() as int) =~= rs);
        assert forall|a: int, b: int| 0 <= a < b < out@.len() implies out@[a].id@ != out@[b].id@ by {
            assert(views(seen@)[a] == out@[a].id@);
            assert(views(seen@)[b] == out@[b].id@);
        }
    }
    Ok(ExpandedComponentSpec { resources: out })
}

/// Law: a resource without `for_each` comes out with the same id and kind.
pub proof fn law_plain_resource_passes_unchanged(out: SpecResource, r: SpecResource)
    requires
        expanded_from(out, r, None),
    ensures
        out.id == r.id,
        out.for_each is None,
        same_kind(r.kind, out.kind),
{
}

/// Law: a resource expanded for an element has `${item}` replaced by the
/// element in its id and in each of its string fields (a tool keeps its
/// verify contract and only its name is expanded), in field order; its entry
/// type, operation and the presence of its optional fields are kept, and it
/// no longer has `for_each`.
pub proof fn law_expansion_replaces_item_in_every_field(out: SpecResource, r: SpecResource, x: Seq<char>)
    requires
        expanded_from(out, r, Some(x)),
    ensures
        out.id@ == with_item(r.id@, x),
        out.for_each is None,
        !(r.kind is Tool) ==> {
            &&& same_shape(out.kind, r.kind)
            &&& template_fields(out.kind).len() == template_fields(r.kind).len()
            &&& forall|j: int| 0 <= j < template_fields(r.kind).len()
                ==> #[trigger] template_fields(out.kind)[j].1 == with_item(template_fields(r.kind)[j].1, x)
        },
        r.kind is Tool ==> out.kind is Tool && out.kind->Tool_name@ == with_item(r.kind->Tool_name@, x)
            && same_contract(r.kind->Tool_verify, out.kind->Tool_verify),
{
    reveal(template_fields);
}

} // verus!
