//! Edits of a config document: adding and removing profile features, setting
//! and unsetting values at dot-separated key paths, and moving feature or
//! backend ids from one source to another.
//!
//! Every edit takes the document as loaded (null-valued keys already
//! dropped, see `strip_null_values`) and gives back the edited document;
//! reading and atomically writing the file is the caller's part.
use vstd::prelude::*;
use crate::config::ConfigError;
use crate::text::{concat2, concat3, eq_str, lemma_split_keep_nonempty, owned, split_pieces, split_pieces_exec, trim_exec, trim_ws};
use crate::yaml::{
    as_text, as_text_ref, empty_mapping, entries_of, entries_view, find_key_exec, inserted, insert_at_path,
    insert_fault, is_mapping, is_mapping_exec, lemma_find_key, lemma_map_set_get, lemma_map_set_twice,
    lemma_mapping_view, map_get, map_remove, map_remove_exec, map_set, map_set_exec, mapping_parts,
    rebuild_mapping, removed, remove_at_path, retag, strs_view, untag, untag_ref, value_at, YamlValue, YamlView,
    parse_yaml, stripped, strip_null_values, yaml_document,
    keys_unique, lemma_map_get_remove_other, lemma_map_get_set_other, law_insert_idempotent,
    law_insert_then_read, law_remove_reports_presence,
};

verus! {

/// The document written by `config init`.
pub const CONFIG_TEMPLATE: &'static str = "\
# loadout config
#
# profile: list of features to enable, grouped by source
# strategy: backend selection overrides (optional)
profile:
  features:
    # Add features using the grouped syntax:
    #   <source_id>:
    #     <feature_name>: {}
    #
    # Example:
    #   local:
    #     git: {}
    #   core:
    #     node: {}
strategy:
  # Override the default backend per resource kind (optional):
  # package:
  #   backend: local/mise
  # runtime:
  #   backend: local/mise
";

/// Whether a config file's text holds nothing but white space (such a file
/// is edited as an empty mapping).
pub fn blank_document(content: &str) -> (r: bool)
    ensures
        r == (trim_ws(content@).len() == 0),
{
    let t = trim_exec(content);
    t.as_str().unicode_len() == 0
}

/// Rejects an empty `value` for the argument called `field`.
pub fn validate_non_empty(field: &str, value: &str) -> (r: Result<(), ConfigError>)
    ensures
        value@.len() == 0 <==> r is Err,
        r matches Err(e) ==> e matches ConfigError::InvalidProfile { reason } && reason@ == field@ + " must not be empty"@,
{
    if value.unicode_len() == 0 {
        Err(ConfigError::InvalidProfile { reason: concat2(field, " must not be empty") })
    } else {
        Ok(())
    }
}

/// Rejects an empty key path.
pub fn check_key_path(key_path: &str) -> (r: Result<(), ConfigError>)
    ensures
        key_path@.len() == 0 <==> r is Err,
        r matches Err(e) ==> e matches ConfigError::InvalidProfile { reason } && reason@ == "key path must not be empty"@,
{
    if key_path.unicode_len() == 0 {
        Err(ConfigError::InvalidProfile { reason: owned("key path must not be empty") })
    } else {
        Ok(())
    }
}

/// The key path of feature `name` of source `source` in the profile.
pub open spec fn feature_path(source: Seq<char>, name: Seq<char>) -> Seq<Seq<char>> {
    seq!["profile"@, "features"@, source, name]
}

/// The error an edit of feature `name` of `source` starts with, if any.
pub open spec fn feature_args_fault(source: Seq<char>, name: Seq<char>) -> Option<Seq<char>> {
    if source.len() == 0 {
        Some("source must not be empty"@)
    } else if name.len() == 0 {
        Some("name must not be empty"@)
    } else {
        None
    }
}

/// Whether `r` is the profile error with message `why`.
pub open spec fn profile_error(r: ConfigError, why: Seq<char>) -> bool {
    r matches ConfigError::InvalidProfile { reason } && reason@ == why
}

proof fn lemma_feature_arg_messages()
    ensures
        "source"@ + " must not be empty"@ == "source must not be empty"@,
        "name"@ + " must not be empty"@ == "name must not be empty"@,
{
    reveal_strlit("source");
    reveal_strlit("name");
    reveal_strlit(" must not be empty");
    reveal_strlit("source must not be empty");
    reveal_strlit("name must not be empty");
    assert("source"@ + " must not be empty"@ =~= "source must not be empty"@);
    assert("name"@ + " must not be empty"@ =~= "name must not be empty"@);
}

fn feature_segments(source: &str, name: &str) -> (r: Vec<String>)
    ensures
        strs_view(r@) == feature_path(source@, name@),
{
    let r = vec![owned("profile"), owned("features"), owned(source), owned(name)];
    proof {
        assert(strs_view(r@) =~= feature_path(source@, name@));
    }
    r
}

/// Adds feature `name` of source `source` to the profile as an empty mapping
/// (`profile.features.<source>.<name>: {}`), creating missing levels; an
/// existing entry is overwritten.
pub fn add_feature(doc: YamlValue, source: &str, name: &str) -> (r: Result<YamlValue, ConfigError>)
    ensures
        match feature_args_fault(source@, name@) {
            Some(why) => r matches Err(e) && profile_error(e, why),
            None => match insert_fault(doc@, feature_path(source@, name@)) {
                Some(why) => r matches Err(e) && profile_error(e, why),
                None => r matches Ok(d) && d@ == inserted(doc@, feature_path(source@, name@), YamlView::Mapping(Seq::empty())),
            },
        },
{
    proof {
        lemma_feature_arg_messages();
    }
    match validate_non_empty("source", source) {
        Err(e) => { return Err(e); },
        Ok(()) => {},
    }
    match validate_non_empty("name", name) {
        Err(e) => { return Err(e); },
        Ok(()) => {},
    }
    let segs = feature_segments(source, name);
    proof {
        assert(strs_view(segs@).skip(0) =~= strs_view(segs@));
    }
    insert_at_path(doc, &segs, 0, empty_mapping())
}

/// Removes feature `name` of source `source` from the profile; the flag says
/// whether it was there.
pub fn remove_feature(doc: YamlValue, source: &str, name: &str) -> (r: Result<(YamlValue, bool), ConfigError>)
    ensures
        match feature_args_fault(source@, name@) {
            Some(why) => r matches Err(e) && profile_error(e, why),
            None => r matches Ok(out) && (out.0@, out.1) == removed(doc@, feature_path(source@, name@)),
        },
{
    proof {
        lemma_feature_arg_messages();
    }
    match validate_non_empty("source", source) {
        Err(e) => { return Err(e); },
        Ok(()) => {},
    }
    match validate_non_empty("name", name) {
        Err(e) => { return Err(e); },
        Ok(()) => {},
    }
    let segs = feature_segments(source, name);
    proof {
        assert(strs_view(segs@).skip(0) =~= strs_view(segs@));
    }
    Ok(remove_at_path(doc, &segs, 0))
}

/// Sets the value at the dot-separated `key_path` (each piece one key; missing
/// levels are created) to `raw_value` read as YAML.
pub fn raw_set(doc: YamlValue, key_path: &str, raw_value: &str) -> (r: Result<YamlValue, ConfigError>)
    ensures
        key_path@.len() == 0 ==> (r matches Err(e) && profile_error(e, "key path must not be empty"@)),
        key_path@.len() > 0 && yaml_document(raw_value@) is Err ==> (r matches Err(e)
            && profile_error(e, "cannot parse '"@ + raw_value@ + "' as YAML"@)),
        key_path@.len() > 0 && yaml_document(raw_value@) is Ok ==> match insert_fault(doc@, split_pieces(key_path@, '.')) {
            Some(why) => r matches Err(e) && profile_error(e, why),
            None => r matches Ok(d) && d@ == inserted(doc@, split_pieces(key_path@, '.'), yaml_document(raw_value@)->Ok_0),
        },
{
    match check_key_path(key_path) {
        Err(e) => { return Err(e); },
        Ok(()) => {},
    }
    let value = match parse_yaml(raw_value) {
        Ok(v) => v,
        Err(_) => {
            return Err(ConfigError::InvalidProfile { reason: concat3("cannot parse '", raw_value, "' as YAML") });
        },
    };
    let segs = split_pieces_exec(key_path, '.');
    proof {
        assert(strs_view(segs@).skip(0) =~= strs_view(segs@));
    }
    insert_at_path(doc, &segs, 0, value)
}

/// The document a config file's text holds, for editing: an empty mapping
/// when the text is blank, else the parsed YAML with every null-valued key
/// dropped (`strip_null_values`); the parse error's text when it is not YAML.
pub fn load_document(content: &str) -> (r: Result<YamlValue, String>)
    ensures
        trim_ws(content@).len() == 0 ==> (r matches Ok(d) && d@ == YamlView::Mapping(Seq::empty())),
        trim_ws(content@).len() > 0 ==> match yaml_document(content@) {
            Ok(v) => r matches Ok(d) && d@ == stripped(v),
            Err(m) => r matches Err(e) && e@ == m,
        },
{
    if blank_document(content) {
        return Ok(empty_mapping());
    }
    match parse_yaml(content) {
        Ok(v) => Ok(strip_null_values(v)),
        Err(e) => Err(e),
    }
}

/// Removes the value at the dot-separated `key_path`; the flag says whether
/// it was there.
pub fn raw_unset(doc: YamlValue, key_path: &str) -> (r: Result<(YamlValue, bool), ConfigError>)
    ensures
        key_path@.len() == 0 ==> (r matches Err(e) && profile_error(e, "key path must not be empty"@)),
        key_path@.len() > 0 ==> (r matches Ok(out) && (out.0@, out.1) == removed(doc@, split_pieces(key_path@, '.'))),
{
    match check_key_path(key_path) {
        Err(e) => { return Err(e); },
        Ok(()) => {},
    }
    let segs = split_pieces_exec(key_path, '.');
    proof {
        assert(strs_view(segs@).skip(0) =~= strs_view(segs@));
    }
    Ok(remove_at_path(doc, &segs, 0))
}


// ---------------------------------------------------------------------------
// Moving a feature to another source
// ---------------------------------------------------------------------------

/// The entries `es` of a `features` mapping with feature `name` moved from
/// source `old` to source `new`, and whether it was moved. The old source is
/// dropped once it has no feature left; the new source is created (appended)
/// where absent; where it exists but is not a mapping, the feature is dropped.
pub open spec fn moved_feature(
    es: Seq<(YamlView, YamlView)>,
    old: Seq<char>,
    name: Seq<char>,
    new: Seq<char>,
) -> (Seq<(YamlView, YamlView)>, bool) {
    match map_get(es, old) {
        Some(oc) => if is_mapping(oc) && map_get(entries_of(oc), name) is Some {
            let val = map_get(entries_of(oc), name)->0;
            let left = map_remove(entries_of(oc), name);
            let es1 = map_set(es, old, retag(oc, YamlView::Mapping(left)));
            let es2 = if left.len() == 0 { map_remove(es1, old) } else { es1 };
            let es3 = if map_get(es2, new) is None { map_set(es2, new, YamlView::Mapping(Seq::empty())) } else { es2 };
            let nc = map_get(es3, new)->0;
            let es4 = if is_mapping(nc) {
                map_set(es3, new, retag(nc, YamlView::Mapping(map_set(entries_of(nc), name, val))))
            } else {
                es3
            };
            (es4, true)
        } else {
            (es, false)
        },
        None => (es, false),
    }
}

/// Moves feature `name` from source `old` to source `new` within the entries of
/// a `features` mapping.
fn move_feature_in_mapping(es: Vec<(YamlValue, YamlValue)>, old: &str, name: &str, new: &str) -> (r: (Vec<(YamlValue, YamlValue)>, bool))
    ensures
        (entries_view(r.0@), r.1) == moved_feature(entries_view(es@), old@, name@, new@),
{
    let ghost ev = entries_view(es@);
    proof {
        lemma_find_key(ev, old@);
    }
    let ok = match find_key_exec(&es, old) {
        Some(i) => match untag_ref(&es[i].1) {
            YamlValue::Mapping(oes) => {
                proof {
                    lemma_mapping_view(*oes);
                    lemma_find_key(entries_view(oes@), name@);
                }
                find_key_exec(oes, name).is_some()
            },
            _ => false,
        },
        None => false,
    };
    if !ok {
        return (es, false);
    }
    let (es1, oc) = map_set_exec(es, old, YamlValue::Null);
    let oc = match oc {
        Some(c) => c,
        None => { return (es1, false); },
    };
    let ghost ocv = oc@;
    let (tags, oes) = mapping_parts(oc);
    let (left, val) = map_remove_exec(oes, name);
    let val = match val {
        Some(v) => v,
        None => { return (es1, false); },
    };
    let now_empty = left.len() == 0;
    let oc2 = rebuild_mapping(tags, left);
    let (es2, _) = map_set_exec(es1, old, oc2);
    proof {
        lemma_map_set_twice(ev, old@, YamlView::Null, oc2@);
    }
    let es3 = if now_empty { map_remove_exec(es2, old).0 } else { es2 };
    let ghost e3 = entries_view(es3@);
    proof {
        lemma_find_key(e3, new@);
    }
    let es4 = match find_key_exec(&es3, new) {
        None => {
            let r = map_set_exec(es3, new, empty_mapping()).0;
            proof {
                lemma_map_set_get(e3, new@, YamlView::Mapping(Seq::empty()));
            }
            r
        },
        Some(_) => es3,
    };
    let ghost e4 = entries_view(es4@);
    proof {
        lemma_find_key(e4, new@);
    }
    let is_map = match find_key_exec(&es4, new) {
        Some(j) => is_mapping_exec(&es4[j].1),
        None => false,
    };
    if !is_map {
        return (es4, true);
    }
    let (es5, nc) = map_set_exec(es4, new, YamlValue::Null);
    let nc = match nc {
        Some(c) => c,
        None => { return (es5, true); },
    };
    let (tags2, nes) = mapping_parts(nc);
    let (nes2, _) = map_set_exec(nes, name, val);
    let nc2 = rebuild_mapping(tags2, nes2);
    let (es6, _) = map_set_exec(es5, new, nc2);
    proof {
        lemma_map_set_twice(e4, new@, YamlView::Null, nc2@);
    }
    (es6, true)
}


/// `v` with feature `name` moved from source `old` to source `new` in the
/// `features` mapping found by following the string keys `path` (nothing
/// changes where a step is missing or not a mapping), and whether it was moved.
pub open spec fn features_moved_at(
    v: YamlView,
    path: Seq<Seq<char>>,
    old: Seq<char>,
    name: Seq<char>,
    new: Seq<char>,
) -> (YamlView, bool)
    decreases path.len(),
{
    if !is_mapping(v) {
        (v, false)
    } else if path.len() == 0 {
        let (es2, moved) = moved_feature(entries_of(v), old, name, new);
        (retag(v, YamlView::Mapping(es2)), moved)
    } else {
        match map_get(entries_of(v), path[0]) {
            Some(c) => {
                let (c2, moved) = features_moved_at(c, path.drop_first(), old, name, new);
                (retag(v, YamlView::Mapping(map_set(entries_of(v), path[0], c2))), moved)
            },
            None => (v, false),
        }
    }
}

fn move_feature_at(node: YamlValue, path: &Vec<String>, from: usize, old: &str, name: &str, new: &str) -> (r: (YamlValue, bool))
    requires
        from <= path.len(),
    ensures
        (r.0@, r.1) == features_moved_at(node@, strs_view(path@).skip(from as int), old@, name@, new@),
    decreases path.len() - from,
{
    let ghost p = strs_view(path@).skip(from as int);
    if !is_mapping_exec(&node) {
        return (node, false);
    }
    let (tags, es) = mapping_parts(node);
    if from == path.len() {
        let (es2, moved) = move_feature_in_mapping(es, old, name, new);
        return (rebuild_mapping(tags, es2), moved);
    }
    proof {
        assert(p[0] == path@[from as int]@);
        assert(p.drop_first() =~= strs_view(path@).skip(from + 1));
    }
    let seg = path[from].as_str();
    let (es1, child) = map_set_exec(es, seg, YamlValue::Null);
    match child {
        None => {
            let (es0, _) = map_remove_exec(es1, seg);
            proof {
                let ev = entries_view(es@);
                lemma_find_key(ev, seg@);
                lemma_map_set_get(ev, seg@, YamlView::Null);
                assert(map_remove(map_set(ev, seg@, YamlView::Null), seg@) =~= ev);
            }
            let r = rebuild_mapping(tags, es0);
            proof {
                crate::yaml::lemma_retag_same(node@);
            }
            (r, false)
        },
        Some(c) => {
            let (c2, moved) = move_feature_at(c, path, from + 1, old, name, new);
            let (es2, _) = map_set_exec(es1, seg, c2);
            proof {
                lemma_map_set_twice(entries_view(es@), seg@, YamlView::Null, c2@);
            }
            (rebuild_mapping(tags, es2), moved)
        },
    }
}

/// The string keys of `es`, in order (a tagged string counts).
pub open spec fn text_keys(es: Seq<(YamlView, YamlView)>) -> Seq<Seq<char>>
    decreases es.len(),
{
    if es.len() == 0 {
        Seq::empty()
    } else {
        let first: Seq<Seq<char>> = match as_text(es[0].0) {
            Some(t) => seq![t],
            None => Seq::empty(),
        };
        first + text_keys(es.drop_first())
    }
}

/// The names of the bundles declared in `doc`.
pub open spec fn bundle_names(doc: YamlView) -> Seq<Seq<char>> {
    if is_mapping(doc) {
        match map_get(entries_of(doc), "bundles"@) {
            Some(b) => if is_mapping(b) { text_keys(entries_of(b)) } else { Seq::empty() },
            None => Seq::empty(),
        }
    } else {
        Seq::empty()
    }
}

/// The key path of bundle `b`'s features.
pub open spec fn bundle_features_path(b: Seq<char>) -> Seq<Seq<char>> {
    seq!["bundles"@, b, "features"@]
}

/// `v` with the feature moved in the features of each bundle of `names`, in order.
pub open spec fn bundles_moved(
    v: YamlView,
    names: Seq<Seq<char>>,
    old: Seq<char>,
    name: Seq<char>,
    new: Seq<char>,
) -> (YamlView, bool)
    decreases names.len(),
{
    if names.len() == 0 {
        (v, false)
    } else {
        let (v1, c1) = features_moved_at(v, bundle_features_path(names[0]), old, name, new);
        let (v2, c2) = bundles_moved(v1, names.drop_first(), old, name, new);
        (v2, c1 || c2)
    }
}

/// `doc` with feature `old/name` renamed to `new/name` in `profile.features` and
/// in every bundle's `features`, and whether anything changed.
pub open spec fn feature_source_rewritten(
    doc: YamlView,
    old: Seq<char>,
    name: Seq<char>,
    new: Seq<char>,
) -> (YamlView, bool) {
    let (d1, c1) = features_moved_at(doc, seq!["profile"@, "features"@], old, name, new);
    let (d2, c2) = bundles_moved(d1, bundle_names(doc), old, name, new);
    (d2, c1 || c2)
}

/// The names of the bundles declared in `doc`.
fn collect_bundle_names(doc: &YamlValue) -> (r: Vec<String>)
    ensures
        strs_view(r@) == bundle_names(doc@),
{
    let mut out: Vec<String> = Vec::new();
    match untag_ref(doc) {
        YamlValue::Mapping(es) => {
            proof {
                lemma_mapping_view(*es);
            }
            match find_key_exec(es, "bundles") {
                Some(i) => {
                    proof {
                        lemma_find_key(entries_view(es@), "bundles"@);
                    }
                    match untag_ref(&es[i].1) {
                        YamlValue::Mapping(bes) => {
                            proof {
                                lemma_mapping_view(*bes);
                            }
                            let ghost bv = entries_view(bes@);
                            let mut k: usize = 0;
                            proof {
                                assert(bv.skip(0) =~= bv);
                                assert(strs_view(out@) =~= Seq::<Seq<char>>::empty());
                            }
                            while k < bes.len()
                                invariant
                                    bv == entries_view(bes@),
                                    k <= bes.len(),
                                    strs_view(out@) + text_keys(bv.skip(k as int)) == text_keys(bv),
                                decreases bes.len() - k,
                            {
                                let ghost before = strs_view(out@);
                                proof {
                                    assert(bv.skip(k as int).drop_first() =~= bv.skip(k + 1));
                                    assert(bv.skip(k as int)[0] == bv[k as int]);
                                }
                                match as_text_ref(&bes[k].0) {
                                    Some(t) => {
                                        out.push(owned(t));
                                        proof {
                                            assert(strs_view(out@) =~= before.push(t@));
                                            assert(before + (seq![t@] + text_keys(bv.skip(k + 1)))
                                                =~= before.push(t@) + text_keys(bv.skip(k + 1)));
                                        }
                                    },
                                    None => {
                                        proof {
                                            assert(Seq::<Seq<char>>::empty() + text_keys(bv.skip(k + 1)) =~= text_keys(bv.skip(k + 1)));
                                        }
                                    },
                                }
                                k = k + 1;
                            }
                            proof {
                                assert(bv.skip(k as int) =~= Seq::<(YamlView, YamlView)>::empty());
                                assert(strs_view(out@) + Seq::<Seq<char>>::empty() =~= strs_view(out@));
                            }
                            out
                        },
                        _ => {
                            proof {
                                assert(strs_view(out@) =~= Seq::<Seq<char>>::empty());
                            }
                            out
                        },
                    }
                },
                None => {
                    proof {
                        assert(strs_view(out@) =~= Seq::<Seq<char>>::empty());
                    }
                    out
                },
            }
        },
        _ => {
            proof {
                assert(strs_view(out@) =~= Seq::<Seq<char>>::empty());
            }
            out
        },
    }
}

/// Renames feature `old_source/name` to `new_source/name` in `profile.features`
/// and in every bundle's `features`; the flag says whether anything changed.
pub fn rewrite_feature_source(doc: YamlValue, old_source: &str, name: &str, new_source: &str) -> (r: (YamlValue, bool))
    ensures
        (r.0@, r.1) == feature_source_rewritten(doc@, old_source@, name@, new_source@),
{
    let names = collect_bundle_names(&doc);
    let profile_path = vec![owned("profile"), owned("features")];
    proof {
        assert(strs_view(profile_path@).skip(0) =~= seq!["profile"@, "features"@]);
    }
    let (mut cur, changed0) = move_feature_at(doc, &profile_path, 0, old_source, name, new_source);
    let mut changed = changed0;
    let ghost start = cur@;
    let ghost nv = strs_view(names@);
    let ghost target = bundles_moved(start, nv, old_source@, name@, new_source@);
    let mut k: usize = 0;
    proof {
        assert(nv.skip(0) =~= nv);
    }
    while k < names.len()
        invariant
            nv == strs_view(names@),
            k <= names.len(),
            bundles_moved(cur@, nv.skip(k as int), old_source@, name@, new_source@).0 == target.0,
            (changed || bundles_moved(cur@, nv.skip(k as int), old_source@, name@, new_source@).1)
                == (changed0 || target.1),
        decreases names.len() - k,
    {
        proof {
            assert(nv.skip(k as int).drop_first() =~= nv.skip(k + 1));
            assert(nv.skip(k as int)[0] == names@[k as int]@);
        }
        let path = vec![owned("bundles"), owned(names[k].as_str()), owned("features")];
        proof {
            assert(strs_view(path@).skip(0) =~= bundle_features_path(names@[k as int]@));
        }
        let (next, moved) = move_feature_at(cur, &path, 0, old_source, name, new_source);
        cur = next;
        changed = changed || moved;
        k = k + 1;
    }
    proof {
        assert(nv.skip(k as int) =~= Seq::<Seq<char>>::empty());
    }
    (cur, changed)
}


// ---------------------------------------------------------------------------
// Renaming a backend id in the strategy
// ---------------------------------------------------------------------------

/// An `overrides` entry's value with `backend: old_id` set to `new_id`, and
/// whether it changed.
pub open spec fn override_rewritten(ov: YamlView, old_id: Seq<char>, new_id: Seq<char>) -> (YamlView, bool) {
    if is_mapping(ov) && map_get(entries_of(ov), "backend"@) is Some
        && as_text(map_get(entries_of(ov), "backend"@)->0) == Some(old_id) {
        (retag(ov, YamlView::Mapping(map_set(entries_of(ov), "backend"@, YamlView::Text(new_id)))), true)
    } else {
        (ov, false)
    }
}

/// Every value of `es` passed through `override_rewritten`.
pub open spec fn overrides_rewritten(es: Seq<(YamlView, YamlView)>, old_id: Seq<char>, new_id: Seq<char>) -> Seq<(YamlView, YamlView)> {
    Seq::new(es.len(), |i: int| (es[i].0, override_rewritten(es[i].1, old_id, new_id).0))
}

/// Whether `override_rewritten` changes some value of `es`.
pub open spec fn overrides_changed(es: Seq<(YamlView, YamlView)>, old_id: Seq<char>, new_id: Seq<char>) -> bool {
    exists|i: int| 0 <= i < es.len() && #[trigger] override_rewritten(es[i].1, old_id, new_id).1
}

/// A strategy kind's value with `default_backend` and every
/// `overrides.*.backend` equal to `old_id` set to `new_id`, and whether it changed.
pub open spec fn kind_rewritten(kv: YamlView, old_id: Seq<char>, new_id: Seq<char>) -> (YamlView, bool) {
    if !is_mapping(kv) {
        (kv, false)
    } else {
        let es = entries_of(kv);
        let c1 = map_get(es, "default_backend"@) is Some && as_text(map_get(es, "default_backend"@)->0) == Some(old_id);
        let es1 = if c1 { map_set(es, "default_backend"@, YamlView::Text(new_id)) } else { es };
        let (es2, c2) = match map_get(es1, "overrides"@) {
            Some(ov) => if is_mapping(ov) {
                (
                    map_set(es1, "overrides"@, retag(ov, YamlView::Mapping(overrides_rewritten(entries_of(ov), old_id, new_id)))),
                    overrides_changed(entries_of(ov), old_id, new_id),
                )
            } else {
                (es1, false)
            },
            None => (es1, false),
        };
        (retag(kv, YamlView::Mapping(es2)), c1 || c2)
    }
}

/// Every value of `es` passed through `kind_rewritten`.
pub open spec fn kinds_rewritten(es: Seq<(YamlView, YamlView)>, old_id: Seq<char>, new_id: Seq<char>) -> Seq<(YamlView, YamlView)> {
    Seq::new(es.len(), |i: int| (es[i].0, kind_rewritten(es[i].1, old_id, new_id).0))
}

/// Whether `kind_rewritten` changes some value of `es`.
pub open spec fn kinds_changed(es: Seq<(YamlView, YamlView)>, old_id: Seq<char>, new_id: Seq<char>) -> bool {
    exists|i: int| 0 <= i < es.len() && #[trigger] kind_rewritten(es[i].1, old_id, new_id).1
}

/// `doc` with backend id `old_id` renamed to `new_id` throughout its
/// `strategy` section, and whether anything changed.
pub open spec fn strategy_rewritten(doc: YamlView, old_id: Seq<char>, new_id: Seq<char>) -> (YamlView, bool) {
    if is_mapping(doc) && map_get(entries_of(doc), "strategy"@) is Some
        && is_mapping(map_get(entries_of(doc), "strategy"@)->0) {
        let st = map_get(entries_of(doc), "strategy"@)->0;
        let ks = entries_of(st);
        (
            retag(doc, YamlView::Mapping(map_set(entries_of(doc), "strategy"@, retag(st, YamlView::Mapping(kinds_rewritten(ks, old_id, new_id)))))),
            kinds_changed(ks, old_id, new_id),
        )
    } else {
        (doc, false)
    }
}

/// Whether the value under `key` in `es` is the string `id`.
fn holds_id(es: &Vec<(YamlValue, YamlValue)>, key: &str, id: &str) -> (r: bool)
    ensures
        r == (map_get(entries_view(es@), key@) is Some && as_text(map_get(entries_view(es@), key@)->0) == Some(id@)),
{
    proof {
        lemma_find_key(entries_view(es@), key@);
    }
    match find_key_exec(es, key) {
        Some(i) => match as_text_ref(&es[i].1) {
            Some(t) => eq_str(t, id),
            None => false,
        },
        None => false,
    }
}

fn rewrite_override(ov: YamlValue, old_id: &str, new_id: &str) -> (r: (YamlValue, bool))
    ensures
        (r.0@, r.1) == override_rewritten(ov@, old_id@, new_id@),
{
    if !is_mapping_exec(&ov) {
        return (ov, false);
    }
    let hit = match untag_ref(&ov) {
        YamlValue::Mapping(es) => {
            proof {
                lemma_mapping_view(*es);
            }
            holds_id(es, "backend", old_id)
        },
        _ => false,
    };
    if !hit {
        return (ov, false);
    }
    let (tags, es) = mapping_parts(ov);
    let (es2, _) = map_set_exec(es, "backend", YamlValue::Text(owned(new_id)));
    (rebuild_mapping(tags, es2), true)
}

fn rewrite_overrides(es: Vec<(YamlValue, YamlValue)>, old_id: &str, new_id: &str) -> (r: (Vec<(YamlValue, YamlValue)>, bool))
    ensures
        entries_view(r.0@) == overrides_rewritten(entries_view(es@), old_id@, new_id@),
        r.1 == overrides_changed(entries_view(es@), old_id@, new_id@),
{
    let ghost ev = entries_view(es@);
    let mut es = es;
    let mut changed = false;
    let mut i: usize = 0;
    while i < es.len()
        invariant
            entries_view(es@).len() == ev.len(),
            i <= es.len(),
            forall|j: int| 0 <= j < i ==> entries_view(es@)[j] == (ev[j].0, override_rewritten(ev[j].1, old_id@, new_id@).0),
            forall|j: int| i <= j < ev.len() ==> entries_view(es@)[j] == ev[j],
            changed == exists|j: int| 0 <= j < i && #[trigger] override_rewritten(ev[j].1, old_id@, new_id@).1,
        decreases es.len() - i,
    {
        let ghost before = entries_view(es@);
        let (k, v) = es.remove(i);
        proof {
            assert(before[i as int] == (k@, v@));
        }
        let ghost kv0 = k@;
        let ghost vv0 = v@;
        let (v2, c) = rewrite_override(v, old_id, new_id);
        es.insert(i, (k, v2));
        proof {
            assert(entries_view(es@)[i as int] == (kv0, v2@));
            assert(ev[i as int] == (kv0, vv0));
            assert forall|j: int| 0 <= j < ev.len() && j != i implies entries_view(es@)[j] == before[j] by {}
            assert forall|j: int| 0 <= j <= i implies entries_view(es@)[j] == (ev[j].0, override_rewritten(ev[j].1, old_id@, new_id@).0) by {
                if j < i {
                    assert(entries_view(es@)[j] == before[j]);
                }
            }
            if c {
                assert(override_rewritten(ev[i as int].1, old_id@, new_id@).1);
            }
        }
        changed = changed || c;
        i = i + 1;
    }
    proof {
        assert(entries_view(es@) =~= overrides_rewritten(ev, old_id@, new_id@));
    }
    (es, changed)
}

fn rewrite_kind(kv: YamlValue, old_id: &str, new_id: &str) -> (r: (YamlValue, bool))
    ensures
        (r.0@, r.1) == kind_rewritten(kv@, old_id@, new_id@),
{
    if !is_mapping_exec(&kv) {
        return (kv, false);
    }
    let (tags, es) = mapping_parts(kv);
    let ghost ev = entries_view(es@);
    let db_hit = holds_id(&es, "default_backend", old_id);
    let es1 = if db_hit {
        map_set_exec(es, "default_backend", YamlValue::Text(owned(new_id))).0
    } else {
        es
    };
    let ghost e1 = entries_view(es1@);
    proof {
        lemma_find_key(e1, "overrides"@);
    }
    let ov_map = match find_key_exec(&es1, "overrides") {
        Some(j) => is_mapping_exec(&es1[j].1),
        None => false,
    };
    let (es2, c2) = if ov_map {
        let (es1b, ov) = map_set_exec(es1, "overrides", YamlValue::Null);
        match ov {
            Some(ov) => {
                let (otags, oes) = mapping_parts(ov);
                let (oes2, c) = rewrite_overrides(oes, old_id, new_id);
                let ov2 = rebuild_mapping(otags, oes2);
                let (es3, _) = map_set_exec(es1b, "overrides", ov2);
                proof {
                    lemma_map_set_twice(e1, "overrides"@, YamlView::Null, ov2@);
                }
                (es3, c)
            },
            None => (es1b, false),
        }
    } else {
        (es1, false)
    };
    (rebuild_mapping(tags, es2), db_hit || c2)
}

fn rewrite_kinds(es: Vec<(YamlValue, YamlValue)>, old_id: &str, new_id: &str) -> (r: (Vec<(YamlValue, YamlValue)>, bool))
    ensures
        entries_view(r.0@) == kinds_rewritten(entries_view(es@), old_id@, new_id@),
        r.1 == kinds_changed(entries_view(es@), old_id@, new_id@),
{
    let ghost ev = entries_view(es@);
    let mut es = es;
    let mut changed = false;
    let mut i: usize = 0;
    while i < es.len()
        invariant
            entries_view(es@).len() == ev.len(),
            i <= es.len(),
            forall|j: int| 0 <= j < i ==> entries_view(es@)[j] == (ev[j].0, kind_rewritten(ev[j].1, old_id@, new_id@).0),
            forall|j: int| i <= j < ev.len() ==> entries_view(es@)[j] == ev[j],
            changed == exists|j: int| 0 <= j < i && #[trigger] kind_rewritten(ev[j].1, old_id@, new_id@).1,
        decreases es.len() - i,
    {
        let ghost before = entries_view(es@);
        let (k, v) = es.remove(i);
        proof {
            assert(before[i as int] == (k@, v@));
        }
        let ghost kv0 = k@;
        let ghost vv0 = v@;
        let (v2, c) = rewrite_kind(v, old_id, new_id);
        es.insert(i, (k, v2));
        proof {
            assert(entries_view(es@)[i as int] == (kv0, v2@));
            assert(ev[i as int] == (kv0, vv0));
            assert forall|j: int| 0 <= j < ev.len() && j != i implies entries_view(es@)[j] == before[j] by {}
            assert forall|j: int| 0 <= j <= i implies entries_view(es@)[j] == (ev[j].0, kind_rewritten(ev[j].1, old_id@, new_id@).0) by {
                if j < i {
                    assert(entries_view(es@)[j] == before[j]);
                }
            }
            if c {
                assert(kind_rewritten(ev[i as int].1, old_id@, new_id@).1);
            }
        }
        changed = changed || c;
        i = i + 1;
    }
    proof {
        assert(entries_view(es@) =~= kinds_rewritten(ev, old_id@, new_id@));
    }
    (es, changed)
}

/// Renames backend id `old_id` to `new_id` in `strategy.*.default_backend` and
/// `strategy.*.overrides.*.backend`; the flag says whether anything changed.
fn rewrite_strategy_ids(doc: YamlValue, old_id: &str, new_id: &str) -> (r: (YamlValue, bool))
    ensures
        (r.0@, r.1) == strategy_rewritten(doc@, old_id@, new_id@),
{
    if !is_mapping_exec(&doc) {
        return (doc, false);
    }
    let st_map = match untag_ref(&doc) {
        YamlValue::Mapping(es) => {
            proof {
                lemma_mapping_view(*es);
                lemma_find_key(entries_view(es@), "strategy"@);
            }
            match find_key_exec(es, "strategy") {
                Some(i) => is_mapping_exec(&es[i].1),
                None => false,
            }
        },
        _ => false,
    };
    if !st_map {
        return (doc, false);
    }
    let (tags, es) = mapping_parts(doc);
    let ghost ev = entries_view(es@);
    let (es1, st) = map_set_exec(es, "strategy", YamlValue::Null);
    let st = match st {
        Some(x) => x,
        None => { return (rebuild_mapping(tags, es1), false); },
    };
    let (stags, ses) = mapping_parts(st);
    let (ses2, c) = rewrite_kinds(ses, old_id, new_id);
    let st2 = rebuild_mapping(stags, ses2);
    let (es2, _) = map_set_exec(es1, "strategy", st2);
    proof {
        lemma_map_set_twice(ev, "strategy"@, YamlView::Null, st2@);
    }
    (rebuild_mapping(tags, es2), c)
}

/// The id `source/name`.
pub open spec fn qualified_id(source: Seq<char>, name: Seq<char>) -> Seq<char> {
    source + "/"@ + name
}

/// Renames backend `old_source/name` to `new_source/name` throughout the
/// strategy section; the flag says whether anything changed.
pub fn rewrite_backend_source(doc: YamlValue, old_source: &str, name: &str, new_source: &str) -> (r: (YamlValue, bool))
    ensures
        (r.0@, r.1) == strategy_rewritten(doc@, qualified_id(old_source@, name@), qualified_id(new_source@, name@)),
{
    let old_id = concat3(old_source, "/", name);
    let new_id = concat3(new_source, "/", name);
    rewrite_strategy_ids(doc, old_id.as_str(), new_id.as_str())
}


// ---------------------------------------------------------------------------
// Laws
// ---------------------------------------------------------------------------

/// Adding a feature that is already present changes nothing: the second
/// addition succeeds and gives the same document.
pub proof fn law_add_feature_idempotent(doc: YamlView, source: Seq<char>, name: Seq<char>)
    requires
        feature_args_fault(source, name) is None,
        insert_fault(doc, feature_path(source, name)) is None,
    ensures
        insert_fault(inserted(doc, feature_path(source, name), YamlView::Mapping(Seq::empty())), feature_path(source, name)) is None,
        inserted(inserted(doc, feature_path(source, name), YamlView::Mapping(Seq::empty())), feature_path(source, name), YamlView::Mapping(Seq::empty()))
            == inserted(doc, feature_path(source, name), YamlView::Mapping(Seq::empty())),
{
    law_insert_idempotent(doc, feature_path(source, name), YamlView::Mapping(Seq::empty()));
}

/// An added feature is present afterwards, and removing it then reports that
/// it was found.
pub proof fn law_added_feature_is_removable(doc: YamlView, source: Seq<char>, name: Seq<char>)
    requires
        feature_args_fault(source, name) is None,
        insert_fault(doc, feature_path(source, name)) is None,
    ensures
        value_at(inserted(doc, feature_path(source, name), YamlView::Mapping(Seq::empty())), feature_path(source, name))
            == Some(YamlView::Mapping(Seq::empty())),
        removed(inserted(doc, feature_path(source, name), YamlView::Mapping(Seq::empty())), feature_path(source, name)).1,
{
    let p = feature_path(source, name);
    law_insert_then_read(doc, p, YamlView::Mapping(Seq::empty()));
    law_remove_reports_presence(inserted(doc, p, YamlView::Mapping(Seq::empty())), p);
}

/// A value set at a key path is read back at that path, and unsetting that
/// path then reports it found.
pub proof fn law_raw_set_then_unset(doc: YamlView, key_path: Seq<char>, x: YamlView)
    requires
        key_path.len() > 0,
        insert_fault(doc, split_pieces(key_path, '.')) is None,
    ensures
        value_at(inserted(doc, split_pieces(key_path, '.'), x), split_pieces(key_path, '.')) == Some(x),
        removed(inserted(doc, split_pieces(key_path, '.'), x), split_pieces(key_path, '.')).1,
{
    let p = split_pieces(key_path, '.');
    lemma_split_keep_nonempty(key_path, '.', Seq::empty());
    law_insert_then_read(doc, p, x);
    law_remove_reports_presence(inserted(doc, p, x), p);
}

/// Removing reports exactly whether the feature was present.
pub proof fn law_remove_feature_reports_presence(doc: YamlView, source: Seq<char>, name: Seq<char>)
    ensures
        removed(doc, feature_path(source, name)).1 <==> value_at(doc, feature_path(source, name)) is Some,
{
    law_remove_reports_presence(doc, feature_path(source, name));
}

/// A feature moved to another source (whose entry is absent or a mapping) is
/// found under the new source with the value it had under the old one.
pub proof fn law_moved_feature_found_under_new_source(
    es: Seq<(YamlView, YamlView)>,
    old: Seq<char>,
    name: Seq<char>,
    new: Seq<char>,
)
    requires
        keys_unique(es),
        old != new,
        map_get(es, old) is Some,
        is_mapping(map_get(es, old)->0),
        map_get(entries_of(map_get(es, old)->0), name) is Some,
        map_get(es, new) is None || is_mapping(map_get(es, new)->0),
    ensures
        moved_feature(es, old, name, new).1,
        map_get(moved_feature(es, old, name, new).0, new) is Some,
        is_mapping(map_get(moved_feature(es, old, name, new).0, new)->0),
        map_get(entries_of(map_get(moved_feature(es, old, name, new).0, new)->0), name)
            == map_get(entries_of(map_get(es, old)->0), name),
{
    let oc = map_get(es, old)->0;
    let val = map_get(entries_of(oc), name)->0;
    let left = crate::yaml::map_remove(entries_of(oc), name);
    let es1 = map_set(es, old, retag(oc, YamlView::Mapping(left)));
    lemma_map_get_set_other(es, old, retag(oc, YamlView::Mapping(left)), new);
    let es2 = if left.len() == 0 { crate::yaml::map_remove(es1, old) } else { es1 };
    if left.len() == 0 {
        lemma_unique_after_set(es, old, retag(oc, YamlView::Mapping(left)));
        lemma_map_get_remove_other(es1, old, new);
    }
    assert(map_get(es2, new) == map_get(es, new));
    let es3 = if map_get(es2, new) is None { map_set(es2, new, YamlView::Mapping(Seq::empty())) } else { es2 };
    lemma_map_set_get(es2, new, YamlView::Mapping(Seq::empty()));
    let nc = map_get(es3, new)->0;
    assert(untag(YamlView::Mapping(Seq::<(YamlView, YamlView)>::empty())) == YamlView::Mapping(Seq::<(YamlView, YamlView)>::empty()));
    assert(is_mapping(nc));
    let inner = map_set(entries_of(nc), name, val);
    lemma_map_set_get(es3, new, retag(nc, YamlView::Mapping(inner)));
    crate::yaml::lemma_untag_wrap(crate::yaml::tags_of(nc), YamlView::Mapping(inner));
    lemma_map_set_get(entries_of(nc), name, val);
}

/// Setting a key keeps the keys unique.
proof fn lemma_unique_after_set(es: Seq<(YamlView, YamlView)>, s: Seq<char>, x: YamlView)
    requires
        keys_unique(es),
    ensures
        keys_unique(map_set(es, s, x)),
{
    lemma_find_key(es, s);
}

/// Renaming a backend id leaves no `default_backend` of that kind holding the
/// old id.
pub proof fn law_default_backend_renamed(kv: YamlView, old_id: Seq<char>, new_id: Seq<char>)
    requires
        old_id != new_id,
    ensures
        ({
            let r = kind_rewritten(kv, old_id, new_id).0;
            !(is_mapping(r) && map_get(entries_of(r), "default_backend"@) is Some
                && as_text(map_get(entries_of(r), "default_backend"@)->0) == Some(old_id))
        }),
{
    if is_mapping(kv) {
        let es = entries_of(kv);
        let c1 = map_get(es, "default_backend"@) is Some && as_text(map_get(es, "default_backend"@)->0) == Some(old_id);
        let es1 = if c1 { map_set(es, "default_backend"@, YamlView::Text(new_id)) } else { es };
        if c1 {
            lemma_map_set_get(es, "default_backend"@, YamlView::Text(new_id));
        }
        reveal_strlit("default_backend");
        reveal_strlit("overrides");
        assert("default_backend"@ != "overrides"@) by {
            assert("default_backend"@.len() != "overrides"@.len());
        }
        if let Some(ov) = map_get(es1, "overrides"@) {
            if is_mapping(ov) {
                lemma_map_get_set_other(es1, "overrides"@, retag(ov, YamlView::Mapping(
                    overrides_rewritten(entries_of(ov), old_id, new_id))), "default_backend"@);
            }
        }
        let (es2, c2) = match map_get(es1, "overrides"@) {
            Some(ov) => if is_mapping(ov) {
                (
                    map_set(es1, "overrides"@, retag(ov, YamlView::Mapping(overrides_rewritten(entries_of(ov), old_id, new_id)))),
                    overrides_changed(entries_of(ov), old_id, new_id),
                )
            } else {
                (es1, false)
            },
            None => (es1, false),
        };
        crate::yaml::lemma_untag_wrap(crate::yaml::tags_of(kv), YamlView::Mapping(es2));
        assert(map_get(es2, "default_backend"@) == map_get(es1, "default_backend"@));
        if c1 {
            assert(untag(YamlView::Text(new_id)) == YamlView::Text(new_id));
        }
    }
}

} // verus!
