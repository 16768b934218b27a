//! A YAML document tree held as plain values.
//!
//! Mappings keep their entries in document order; a key occurs at most once.
//! Inserting under an existing key replaces its value in place, a new key is
//! appended, and removing an entry moves the last entry into its slot.
use vstd::prelude::*;
use crate::config::ConfigError;
use crate::text::{concat3, eq_str, first_where, lemma_first_where, lemma_first_where_found, lemma_first_where_none, owned};

verus! {

broadcast use vstd::std_specs::vec::group_vec_axioms;

/// A YAML node.
#[derive(Debug)]
pub enum YamlValue {
    Null,
    Bool(bool),
    /// A number, in the text it was written with.
    Number(String),
    Text(String),
    Sequence(Vec<YamlValue>),
    Mapping(Vec<(YamlValue, YamlValue)>),
    Tagged(String, Box<YamlValue>),
}

/// The mathematical form of a YAML node.
pub enum YamlView {
    Null,
    Bool(bool),
    Number(Seq<char>),
    Text(Seq<char>),
    Sequence(Seq<YamlView>),
    Mapping(Seq<(YamlView, YamlView)>),
    Tagged(Seq<char>, Box<YamlView>),
}

impl YamlValue {
    pub open spec fn view_of(self) -> YamlView
        decreases self,
    {
        match self {
            YamlValue::Null => YamlView::Null,
            YamlValue::Bool(b) => YamlView::Bool(b),
            YamlValue::Number(n) => YamlView::Number(n@),
            YamlValue::Text(t) => YamlView::Text(t@),
            YamlValue::Sequence(items) => YamlView::Sequence(
                Seq::new(items@.len(), |i: int| if 0 <= i < items@.len() { items@[i].view_of() } else { YamlView::Null }),
            ),
            YamlValue::Mapping(entries) => YamlView::Mapping(
                Seq::new(entries@.len(), |i: int| if 0 <= i < entries@.len() {
                    (entries@[i].0.view_of(), entries@[i].1.view_of())
                } else {
                    (YamlView::Null, YamlView::Null)
                }),
            ),
            YamlValue::Tagged(tag, inner) => YamlView::Tagged(tag@, Box::new(inner.view_of())),
        }
    }
}

impl View for YamlValue {
    type V = YamlView;

    open spec fn view(&self) -> YamlView {
        self.view_of()
    }
}


/// The view of a mapping's entries.
pub open spec fn entries_view(es: Seq<(YamlValue, YamlValue)>) -> Seq<(YamlView, YamlView)> {
    Seq::new(es.len(), |i: int| if 0 <= i < es.len() { (es[i].0@, es[i].1@) } else { (YamlView::Null, YamlView::Null) })
}

/// A mapping node's view is the view of its entries.
pub proof fn lemma_mapping_view(es: Vec<(YamlValue, YamlValue)>)
    ensures
        YamlValue::Mapping(es)@ == YamlView::Mapping(entries_view(es@)),
{
    assert(YamlValue::Mapping(es)@->Mapping_0 =~= entries_view(es@));
}

// ---------------------------------------------------------------------------
// Tags
// ---------------------------------------------------------------------------

/// The node under all of `v`'s tags.
pub open spec fn untag(v: YamlView) -> YamlView
    decreases v,
{
    match v {
        YamlView::Tagged(_, inner) => untag(*inner),
        _ => v,
    }
}

/// The tags around `v`, outermost first.
pub open spec fn tags_of(v: YamlView) -> Seq<Seq<char>>
    decreases v,
{
    match v {
        YamlView::Tagged(t, inner) => seq![t] + tags_of(*inner),
        _ => Seq::empty(),
    }
}

/// `x` under the tags `tags`, outermost first.
pub open spec fn wrap(tags: Seq<Seq<char>>, x: YamlView) -> YamlView
    decreases tags.len(),
{
    if tags.len() == 0 {
        x
    } else {
        YamlView::Tagged(tags[0], Box::new(wrap(tags.drop_first(), x)))
    }
}

/// `v` with the node under its tags replaced by `x`.
pub open spec fn retag(v: YamlView, x: YamlView) -> YamlView {
    wrap(tags_of(v), x)
}

/// Whether `v` is null, looking through tags.
pub open spec fn is_null(v: YamlView) -> bool {
    untag(v) is Null
}

/// Whether `v` is a mapping, looking through tags.
pub open spec fn is_mapping(v: YamlView) -> bool {
    untag(v) is Mapping
}

/// The entries of `v` when it is a mapping (looking through tags).
pub open spec fn entries_of(v: YamlView) -> Seq<(YamlView, YamlView)> {
    match untag(v) {
        YamlView::Mapping(es) => es,
        _ => Seq::empty(),
    }
}

/// A node is its tags around its untagged node.
pub proof fn lemma_untag_retag(v: YamlView)
    ensures
        wrap(tags_of(v), untag(v)) == v,
        !(untag(v) is Tagged),
    decreases v,
{
    if let YamlView::Tagged(t, inner) = v {
        lemma_untag_retag(*inner);
        assert((seq![t] + tags_of(*inner)).drop_first() =~= tags_of(*inner));
    }
}

/// Wrapping an untagged node in tags, then untagging, gives the node back.
pub proof fn lemma_untag_wrap(tags: Seq<Seq<char>>, x: YamlView)
    requires
        !(x is Tagged),
    ensures
        untag(wrap(tags, x)) == x,
        tags_of(wrap(tags, x)) == tags,
    decreases tags.len(),
{
    if tags.len() > 0 {
        lemma_untag_wrap(tags.drop_first(), x);
        assert(seq![tags[0]] + tags.drop_first() =~= tags);
    }
}

/// Adding one innermost tag.
proof fn lemma_wrap_push(tags: Seq<Seq<char>>, t: Seq<char>, x: YamlView)
    ensures
        wrap(tags.push(t), x) == wrap(tags, YamlView::Tagged(t, Box::new(x))),
    decreases tags.len(),
{
    if tags.len() > 0 {
        assert(tags.push(t).drop_first() =~= tags.drop_first().push(t));
        assert(tags.push(t)[0] == tags[0]);
        lemma_wrap_push(tags.drop_first(), t, x);
        assert(wrap(tags.push(t), x) == YamlView::Tagged(tags[0], Box::new(wrap(tags.drop_first().push(t), x))));
    } else {
        assert(tags.push(t).drop_first() =~= Seq::<Seq<char>>::empty());
        assert(tags.push(t)[0] == t);
        assert(wrap(tags.push(t).drop_first(), x) == x);
        assert(wrap(tags, YamlView::Tagged(t, Box::new(x))) == YamlView::Tagged(t, Box::new(x)));
    }
}

/// Whether `v` carries a tag.
pub fn is_tagged(v: &YamlValue) -> (r: bool)
    ensures
        r == v is Tagged,
{
    match v {
        YamlValue::Tagged(_, _) => true,
        _ => false,
    }
}

/// Splits a node into its tags (outermost first) and the node under them.
pub fn peel(v: YamlValue) -> (r: (Vec<String>, YamlValue))
    ensures
        r.0@.map_values(|t: String| t@) == tags_of(v@),
        r.1@ == untag(v@),
{
    let mut tags: Vec<String> = Vec::new();
    let mut cur = v;
    proof {
        assert(tags@.map_values(|t: String| t@) + tags_of(cur@) =~= tags_of(v@));
    }
    while is_tagged(&cur)
        invariant
            tags@.map_values(|t: String| t@) + tags_of(cur@) == tags_of(v@),
            untag(cur@) == untag(v@),
        decreases cur@,
    {
        match cur {
            YamlValue::Tagged(t, inner) => {
                let ghost old_tags = tags@.map_values(|t: String| t@);
                let ghost tv = t@;
                let ghost iv = inner@;
                tags.push(t);
                cur = *inner;
                proof {
                    assert(tags@.map_values(|t: String| t@) =~= old_tags.push(tv));
                    assert(old_tags + (seq![tv] + tags_of(iv)) =~= old_tags.push(tv) + tags_of(iv));
                }
            },
            _ => {},
        }
    }
    proof {
        assert(tags_of(cur@) =~= Seq::<Seq<char>>::empty());
        assert(tags@.map_values(|t: String| t@) + Seq::<Seq<char>>::empty() =~= tags@.map_values(|t: String| t@));
    }
    (tags, cur)
}

/// Puts `x` under the tags `tags` (outermost first).
pub fn wrap_exec(tags: Vec<String>, x: YamlValue) -> (r: YamlValue)
    ensures
        r@ == wrap(tags@.map_values(|t: String| t@), x@),
{
    let mut rest = tags;
    let mut cur = x;
    let ghost all = rest@.map_values(|t: String| t@);
    while rest.len() > 0
        invariant
            wrap(rest@.map_values(|t: String| t@), cur@) == wrap(all, x@),
        decreases rest.len(),
    {
        let ghost before = rest@.map_values(|t: String| t@);
        let t = rest.pop().unwrap();
        proof {
            assert(before =~= rest@.map_values(|t: String| t@).push(t@));
            lemma_wrap_push(rest@.map_values(|t: String| t@), t@, cur@);
        }
        cur = YamlValue::Tagged(t, Box::new(cur));
    }
    proof {
        assert(rest@.map_values(|t: String| t@) =~= Seq::<Seq<char>>::empty());
    }
    cur
}

// ---------------------------------------------------------------------------
// Mapping entries
// ---------------------------------------------------------------------------

/// Whether entry `i` of `es` has the plain string key `s`.
pub open spec fn key_at(es: Seq<(YamlView, YamlView)>, s: Seq<char>) -> spec_fn(int) -> bool {
    |i: int| es[i].0 == YamlView::Text(s)
}

/// The index of the entry with string key `s`, if any (the first one).
pub open spec fn find_key(es: Seq<(YamlView, YamlView)>, s: Seq<char>) -> Option<int> {
    first_where(es.len(), key_at(es, s))
}

/// The value under string key `s`, if any.
pub open spec fn map_get(es: Seq<(YamlView, YamlView)>, s: Seq<char>) -> Option<YamlView> {
    match find_key(es, s) {
        Some(i) => Some(es[i].1),
        None => None,
    }
}

/// `es` with `x` under key `s`: an existing entry keeps its place, a new one is appended.
pub open spec fn map_set(es: Seq<(YamlView, YamlView)>, s: Seq<char>, x: YamlView) -> Seq<(YamlView, YamlView)> {
    match find_key(es, s) {
        Some(i) => es.update(i, (es[i].0, x)),
        None => es.push((YamlView::Text(s), x)),
    }
}

/// `es` without entry `i`, the last entry taking its place.
pub open spec fn swap_removed<A>(es: Seq<A>, i: int) -> Seq<A> {
    if i == es.len() - 1 {
        es.drop_last()
    } else {
        es.drop_last().update(i, es.last())
    }
}

/// `es` without the entry under key `s` (unchanged if there is none).
pub open spec fn map_remove(es: Seq<(YamlView, YamlView)>, s: Seq<char>) -> Seq<(YamlView, YamlView)> {
    match find_key(es, s) {
        Some(i) => swap_removed(es, i),
        None => es,
    }
}

/// Facts about `find_key`.
pub proof fn lemma_find_key(es: Seq<(YamlView, YamlView)>, s: Seq<char>)
    ensures
        find_key(es, s) is Some ==> 0 <= find_key(es, s)->0 < es.len()
            && es[find_key(es, s)->0].0 == YamlView::Text(s)
            && forall|j: int| 0 <= j < find_key(es, s)->0 ==> es[j].0 != YamlView::Text(s),
        find_key(es, s) is None ==> forall|j: int| 0 <= j < es.len() ==> es[j].0 != YamlView::Text(s),
{
    lemma_first_where(es.len(), key_at(es, s));
    if find_key(es, s) is Some {
        assert forall|j: int| 0 <= j < find_key(es, s)->0 implies es[j].0 != YamlView::Text(s) by {
            assert(!key_at(es, s)(j));
        }
    } else {
        assert forall|j: int| 0 <= j < es.len() implies es[j].0 != YamlView::Text(s) by {
            assert(!key_at(es, s)(j));
        }
    }
}

/// Setting a key, then looking it up, finds the value set.
pub proof fn lemma_map_set_get(es: Seq<(YamlView, YamlView)>, s: Seq<char>, x: YamlView)
    ensures
        map_get(map_set(es, s, x), s) == Some(x),
        find_key(map_set(es, s, x), s) == Some(if find_key(es, s) is Some { find_key(es, s)->0 } else { es.len() as int }),
{
    lemma_find_key(es, s);
    let es2 = map_set(es, s, x);
    let i = if find_key(es, s) is Some { find_key(es, s)->0 } else { es.len() as int };
    assert(key_at(es2, s)(i));
    assert forall|j: int| 0 <= j < i implies !#[trigger] key_at(es2, s)(j) by {
        assert(es2[j] == es[j]);
    }
    lemma_first_where_found(es2.len(), key_at(es2, s), i);
}

/// Whether `v` is a plain string equal to `s`.
pub fn is_text(v: &YamlValue, s: &str) -> (r: bool)
    ensures
        r == (v@ == YamlView::Text(s@)),
{
    match v {
        YamlValue::Text(t) => eq_str(t.as_str(), s),
        _ => false,
    }
}

/// The index of the entry with string key `s`, if any.
pub fn find_key_exec(es: &Vec<(YamlValue, YamlValue)>, s: &str) -> (r: Option<usize>)
    ensures
        r matches Some(i) ==> find_key(entries_view(es@), s@) == Some(i as int),
        r is None ==> find_key(entries_view(es@), s@) is None,
{
    let ghost ev = entries_view(es@);
    let mut i: usize = 0;
    while i < es.len()
        invariant
            ev == entries_view(es@),
            i <= es.len(),
            forall|j: int| 0 <= j < i ==> !#[trigger] key_at(ev, s@)(j),
        decreases es.len() - i,
    {
        if is_text(&es[i].0, s) {
            proof {
                lemma_first_where_found(ev.len(), key_at(ev, s@), i as int);
            }
            return Some(i);
        }
        i = i + 1;
    }
    proof {
        lemma_first_where_none(ev.len(), key_at(ev, s@));
    }
    None
}

/// `es` with `x` under key `s`, and the value it replaced.
pub fn map_set_exec(es: Vec<(YamlValue, YamlValue)>, s: &str, x: YamlValue) -> (r: (Vec<(YamlValue, YamlValue)>, Option<YamlValue>))
    ensures
        entries_view(r.0@) == map_set(entries_view(es@), s@, x@),
        r.1 matches Some(old) ==> map_get(entries_view(es@), s@) == Some(old@),
        r.1 is None ==> map_get(entries_view(es@), s@) is None,
{
    let mut es = es;
    let ghost ev = entries_view(es@);
    proof {
        lemma_find_key(ev, s@);
    }
    match find_key_exec(&es, s) {
        Some(i) => {
            let (k, old) = es.remove(i);
            es.insert(i, (k, x));
            proof {
                assert(entries_view(es@) =~= ev.update(i as int, (ev[i as int].0, x@)));
            }
            (es, Some(old))
        },
        None => {
            es.push((YamlValue::Text(owned(s)), x));
            proof {
                assert(entries_view(es@) =~= ev.push((YamlView::Text(s@), x@)));
            }
            (es, None)
        },
    }
}

/// `es` without the entry under key `s`, and that entry's value.
pub fn map_remove_exec(es: Vec<(YamlValue, YamlValue)>, s: &str) -> (r: (Vec<(YamlValue, YamlValue)>, Option<YamlValue>))
    ensures
        entries_view(r.0@) == map_remove(entries_view(es@), s@),
        r.1 matches Some(old) ==> map_get(entries_view(es@), s@) == Some(old@),
        r.1 is None ==> map_get(entries_view(es@), s@) is None,
{
    let mut es = es;
    let ghost ev = entries_view(es@);
    proof {
        lemma_find_key(ev, s@);
    }
    match find_key_exec(&es, s) {
        Some(i) => {
            let ghost old_es = es@;
            let (_k, old) = es.swap_remove(i);
            proof {
                if i as int == ev.len() - 1 {
                    assert(es@ =~= old_es.drop_last());
                } else {
                    assert(es@ =~= old_es.drop_last().update(i as int, old_es.last()));
                }
                assert(entries_view(es@) =~= swap_removed(ev, i as int));
            }
            (es, Some(old))
        },
        None => (es, None),
    }
}


/// Setting a key twice keeps only the second value.
pub proof fn lemma_map_set_twice(es: Seq<(YamlView, YamlView)>, s: Seq<char>, a: YamlView, b: YamlView)
    ensures
        map_set(map_set(es, s, a), s, b) == map_set(es, s, b),
{
    lemma_map_set_get(es, s, a);
    lemma_find_key(es, s);
    if find_key(es, s) is Some {
        assert(map_set(map_set(es, s, a), s, b) =~= map_set(es, s, b));
    } else {
        assert(map_set(map_set(es, s, a), s, b) =~= map_set(es, s, b));
    }
}

/// The node under all of `v`'s tags (borrowed).
pub fn untag_ref(v: &YamlValue) -> (r: &YamlValue)
    ensures
        r@ == untag(v@),
    decreases v,
{
    match v {
        YamlValue::Tagged(_, inner) => untag_ref(inner),
        _ => v,
    }
}

/// Whether `v` is null, looking through tags.
pub fn is_null_exec(v: &YamlValue) -> (r: bool)
    ensures
        r == is_null(v@),
{
    match untag_ref(v) {
        YamlValue::Null => true,
        _ => false,
    }
}

/// Whether `v` is a mapping, looking through tags.
pub fn is_mapping_exec(v: &YamlValue) -> (r: bool)
    ensures
        r == is_mapping(v@),
{
    match untag_ref(v) {
        YamlValue::Mapping(_) => true,
        _ => false,
    }
}

/// An empty mapping.
pub fn empty_mapping() -> (r: YamlValue)
    ensures
        r@ == YamlView::Mapping(Seq::empty()),
{
    let es: Vec<(YamlValue, YamlValue)> = Vec::new();
    proof {
        lemma_mapping_view(es);
        assert(entries_view(es@) =~= Seq::<(YamlView, YamlView)>::empty());
    }
    YamlValue::Mapping(es)
}

/// The string `v` holds, looking through tags.
pub open spec fn as_text(v: YamlView) -> Option<Seq<char>> {
    match untag(v) {
        YamlView::Text(t) => Some(t),
        _ => None,
    }
}

/// The string `v` holds, looking through tags (borrowed).
pub fn as_text_ref(v: &YamlValue) -> (r: Option<&str>)
    ensures
        r matches Some(t) ==> as_text(v@) == Some(t@),
        r is None ==> as_text(v@) is None,
{
    match untag_ref(v) {
        YamlValue::Text(t) => Some(t.as_str()),
        _ => None,
    }
}

/// Splits a mapping (possibly tagged) into its tags and its entries.
pub fn mapping_parts(v: YamlValue) -> (r: (Vec<String>, Vec<(YamlValue, YamlValue)>))
    requires
        is_mapping(v@),
    ensures
        r.0@.map_values(|t: String| t@) == tags_of(v@),
        entries_view(r.1@) == entries_of(v@),
{
    let (tags, core) = peel(v);
    match core {
        YamlValue::Mapping(es) => {
            proof {
                lemma_mapping_view(es);
            }
            (tags, es)
        },
        _ => (tags, Vec::new()),
    }
}

/// A mapping with entries `es` under the tags `tags`.
pub fn rebuild_mapping(tags: Vec<String>, es: Vec<(YamlValue, YamlValue)>) -> (r: YamlValue)
    ensures
        r@ == wrap(tags@.map_values(|t: String| t@), YamlView::Mapping(entries_view(es@))),
{
    proof {
        lemma_mapping_view(es);
    }
    wrap_exec(tags, YamlValue::Mapping(es))
}

/// Putting a node's own entries back under its own tags gives the node.
pub proof fn lemma_retag_same(v: YamlView)
    requires
        is_mapping(v),
    ensures
        retag(v, YamlView::Mapping(entries_of(v))) == v,
{
    lemma_untag_retag(v);
}

/// No two entries of `es` have the same key (as in any YAML mapping).
pub open spec fn keys_unique(es: Seq<(YamlView, YamlView)>) -> bool {
    forall|i: int, j: int| 0 <= i < j < es.len() ==> es[i].0 != es[j].0
}

/// Setting one key leaves the lookup of another unchanged.
pub proof fn lemma_map_get_set_other(es: Seq<(YamlView, YamlView)>, s: Seq<char>, x: YamlView, t: Seq<char>)
    requires
        s != t,
    ensures
        map_get(map_set(es, s, x), t) == map_get(es, t),
        find_key(map_set(es, s, x), t) == find_key(es, t),
{
    let es2 = map_set(es, s, x);
    lemma_find_key(es, s);
    lemma_find_key(es, t);
    assert(YamlView::Text(s) != YamlView::Text(t));
    match find_key(es, t) {
        Some(j) => {
            assert forall|k: int| 0 <= k < j implies !#[trigger] key_at(es2, t)(k) by {
                assert(es2[k].0 == es[k].0);
            }
            assert(key_at(es2, t)(j));
            lemma_first_where_found(es2.len(), key_at(es2, t), j);
        },
        None => {
            assert forall|k: int| 0 <= k < es2.len() implies !#[trigger] key_at(es2, t)(k) by {
                if k < es.len() {
                    assert(es2[k].0 == es[k].0);
                }
            }
            lemma_first_where_none(es2.len(), key_at(es2, t));
        },
    }
}

/// Removing one key leaves the lookup of another unchanged (keys being unique).
pub proof fn lemma_map_get_remove_other(es: Seq<(YamlView, YamlView)>, s: Seq<char>, t: Seq<char>)
    requires
        s != t,
        keys_unique(es),
    ensures
        map_get(map_remove(es, s), t) == map_get(es, t),
{
    lemma_find_key(es, s);
    lemma_find_key(es, t);
    assert(YamlView::Text(s) != YamlView::Text(t));
    if let Some(i) = find_key(es, s) {
        let r = swap_removed(es, i);
        let last = es.len() - 1;
        assert(forall|k: int| 0 <= k < r.len() ==> #[trigger] r[k] == (if k == i { es[last] } else { es[k] }));
        match find_key(es, t) {
            Some(j) => {
                let pos = if j == last { i } else { j };
                assert(key_at(r, t)(pos));
                assert forall|k: int| 0 <= k < pos implies !#[trigger] key_at(r, t)(k) by {
                    if k == i {
                        assert(es[last].0 != es[j].0 || last == j);
                    } else {
                        assert(es[k].0 != es[j].0 || k == j);
                    }
                }
                lemma_first_where_found(r.len(), key_at(r, t), pos);
            },
            None => {
                assert forall|k: int| 0 <= k < r.len() implies !#[trigger] key_at(r, t)(k) by {}
                lemma_first_where_none(r.len(), key_at(r, t));
            },
        }
    }
}

// ---------------------------------------------------------------------------
// Paths of string keys
// ---------------------------------------------------------------------------

/// The node reached from `v` by following the string keys of `path`
/// (looking through tags at each step).
pub open spec fn value_at(v: YamlView, path: Seq<Seq<char>>) -> Option<YamlView>
    decreases path.len(),
{
    if path.len() == 0 {
        Some(v)
    } else if !is_mapping(v) {
        None
    } else {
        match map_get(entries_of(v), path[0]) {
            Some(c) => value_at(c, path.drop_first()),
            None => None,
        }
    }
}

/// The node an insertion descends into under key `s`: the existing value,
/// or an empty mapping where the key is absent or null.
pub open spec fn child_base(es: Seq<(YamlView, YamlView)>, s: Seq<char>) -> YamlView {
    match map_get(es, s) {
        Some(c) => if is_null(c) { YamlView::Mapping(Seq::empty()) } else { c },
        None => YamlView::Mapping(Seq::empty()),
    }
}

/// Why inserting at `path` below `v` fails, if it does.
pub open spec fn insert_fault(v: YamlView, path: Seq<Seq<char>>) -> Option<Seq<char>>
    decreases path.len(),
{
    if !is_mapping(v) {
        Some("expected a YAML mapping at this path"@)
    } else if path.len() <= 1 {
        None
    } else {
        let c = child_base(entries_of(v), path[0]);
        if !is_mapping(c) {
            Some("'"@ + path[0] + "' is not a mapping"@)
        } else {
            insert_fault(c, path.drop_first())
        }
    }
}

/// `v` with `x` placed at `path`; missing or null intermediate nodes become mappings.
pub open spec fn inserted(v: YamlView, path: Seq<Seq<char>>, x: YamlView) -> YamlView
    decreases path.len(),
{
    if path.len() == 0 {
        x
    } else {
        let es = entries_of(v);
        let c = if path.len() == 1 { x } else { inserted(child_base(es, path[0]), path.drop_first(), x) };
        retag(v, YamlView::Mapping(map_set(es, path[0], c)))
    }
}

/// `v` with the node at `path` removed, and whether there was one.
pub open spec fn removed(v: YamlView, path: Seq<Seq<char>>) -> (YamlView, bool)
    decreases path.len(),
{
    if path.len() == 0 || !is_mapping(v) {
        (v, false)
    } else {
        let es = entries_of(v);
        if path.len() == 1 {
            match find_key(es, path[0]) {
                Some(_) => (retag(v, YamlView::Mapping(map_remove(es, path[0]))), true),
                None => (v, false),
            }
        } else {
            match map_get(es, path[0]) {
                Some(c) => {
                    let (c2, found) = removed(c, path.drop_first());
                    (retag(v, YamlView::Mapping(map_set(es, path[0], c2))), found)
                },
                None => (v, false),
            }
        }
    }
}

/// The views of a list of strings.
pub open spec fn strs_view(v: Seq<String>) -> Seq<Seq<char>> {
    v.map_values(|s: String| s@)
}

/// Places `value` at the path `segments[from..]` below `node`, creating missing
/// or null intermediate nodes as empty mappings.
pub fn insert_at_path(node: YamlValue, segments: &Vec<String>, from: usize, value: YamlValue) -> (r: Result<YamlValue, ConfigError>)
    requires
        from < segments.len(),
    ensures
        ({
            let path = strs_view(segments@).skip(from as int);
            match r {
                Ok(d) => insert_fault(node@, path) is None && d@ == inserted(node@, path, value@),
                Err(e) => insert_fault(node@, path) matches Some(why) && e matches ConfigError::InvalidProfile { reason } && reason@ == why,
            }
        }),
    decreases segments.len() - from,
{
    let ghost path = strs_view(segments@).skip(from as int);
    let ghost nv = node@;
    let (tags, core) = peel(node);
    proof {
        lemma_untag_retag(nv);
    }
    let es = match core {
        YamlValue::Mapping(es) => es,
        _ => {
            return Err(ConfigError::InvalidProfile { reason: owned("expected a YAML mapping at this path") });
        },
    };
    proof {
        lemma_mapping_view(es);
        assert(entries_of(nv) == entries_view(es@));
        assert(path[0] == segments@[from as int]@);
        assert(path.drop_first() =~= strs_view(segments@).skip(from + 1));
    }
    let seg = segments[from].as_str();
    if from + 1 == segments.len() {
        let (es2, _) = map_set_exec(es, seg, value);
        proof {
            lemma_mapping_view(es2);
        }
        Ok(wrap_exec(tags, YamlValue::Mapping(es2)))
    } else {
        let (es1, old) = map_set_exec(es, seg, YamlValue::Null);
        let child = match old {
            None => empty_mapping(),
            Some(c) => if is_null_exec(&c) { empty_mapping() } else { c },
        };
        if !is_mapping_exec(&child) {
            return Err(ConfigError::InvalidProfile { reason: concat3("'", seg, "' is not a mapping") });
        }
        let newc = match insert_at_path(child, segments, from + 1, value) {
            Ok(c) => c,
            Err(e) => { return Err(e); },
        };
        let (es3, _) = map_set_exec(es1, seg, newc);
        proof {
            lemma_map_set_twice(entries_view(es@), seg@, YamlView::Null, newc@);
            lemma_mapping_view(es3);
        }
        Ok(wrap_exec(tags, YamlValue::Mapping(es3)))
    }
}

/// Removes the node at the path `segments[from..]` below `node`; the flag says
/// whether there was one.
pub fn remove_at_path(node: YamlValue, segments: &Vec<String>, from: usize) -> (r: (YamlValue, bool))
    requires
        from < segments.len(),
    ensures
        (r.0@, r.1) == removed(node@, strs_view(segments@).skip(from as int)),
    decreases segments.len() - from,
{
    let ghost path = strs_view(segments@).skip(from as int);
    let ghost nv = node@;
    if !is_mapping_exec(&node) {
        return (node, false);
    }
    let (tags, core) = peel(node);
    proof {
        lemma_untag_retag(nv);
    }
    let es = match core {
        YamlValue::Mapping(es) => es,
        other => { return (wrap_exec(tags, other), false); },
    };
    proof {
        lemma_mapping_view(es);
        assert(entries_of(nv) == entries_view(es@));
        assert(path[0] == segments@[from as int]@);
        assert(path.drop_first() =~= strs_view(segments@).skip(from + 1));
        lemma_find_key(entries_view(es@), path[0]);
    }
    let seg = segments[from].as_str();
    if from + 1 == segments.len() {
        let (es2, old) = map_remove_exec(es, seg);
        let found = old.is_some();
        if found {
            proof {
                lemma_mapping_view(es2);
            }
            (wrap_exec(tags, YamlValue::Mapping(es2)), true)
        } else {
            proof {
                lemma_mapping_view(es2);
            }
            (wrap_exec(tags, YamlValue::Mapping(es2)), false)
        }
    } else {
        let (es1, old) = map_set_exec(es, seg, YamlValue::Null);
        match old {
            None => {
                // `es1` gained a null entry under `seg`; take it back off.
                let (es0, _) = map_remove_exec(es1, seg);
                proof {
                    lemma_map_set_get(entries_view(es@), seg@, YamlView::Null);
                    assert(map_remove(map_set(entries_view(es@), seg@, YamlView::Null), seg@) =~= entries_view(es@));
                    lemma_mapping_view(es0);
                }
                (wrap_exec(tags, YamlValue::Mapping(es0)), false)
            },
            Some(child) => {
                let (c2, found) = remove_at_path(child, segments, from + 1);
                let (es3, _) = map_set_exec(es1, seg, c2);
                proof {
                    lemma_map_set_twice(entries_view(es@), seg@, YamlView::Null, c2@);
                    lemma_mapping_view(es3);
                }
                (wrap_exec(tags, YamlValue::Mapping(es3)), found)
            },
        }
    }
}


// ---------------------------------------------------------------------------
// Laws of paths
// ---------------------------------------------------------------------------

/// The node produced for a mapping is untagged back to that mapping.
proof fn lemma_retag_mapping(v: YamlView, es: Seq<(YamlView, YamlView)>)
    ensures
        untag(retag(v, YamlView::Mapping(es))) == YamlView::Mapping(es),
        tags_of(retag(v, YamlView::Mapping(es))) == tags_of(v),
        is_mapping(retag(v, YamlView::Mapping(es))),
        entries_of(retag(v, YamlView::Mapping(es))) == es,
        !is_null(retag(v, YamlView::Mapping(es))),
{
    lemma_untag_wrap(tags_of(v), YamlView::Mapping(es));
}

/// Read after write: once a value is placed at a path, following that path
/// finds it.
pub proof fn law_insert_then_read(v: YamlView, path: Seq<Seq<char>>, x: YamlView)
    requires
        path.len() >= 1,
        insert_fault(v, path) is None,
    ensures
        value_at(inserted(v, path, x), path) == Some(x),
    decreases path.len(),
{
    let es = entries_of(v);
    let c = if path.len() == 1 { x } else { inserted(child_base(es, path[0]), path.drop_first(), x) };
    lemma_retag_mapping(v, map_set(es, path[0], c));
    lemma_map_set_get(es, path[0], c);
    if path.len() > 1 {
        law_insert_then_read(child_base(es, path[0]), path.drop_first(), x);
    }
}

/// Removing at a path reports exactly whether something was there.
pub proof fn law_remove_reports_presence(v: YamlView, path: Seq<Seq<char>>)
    requires
        path.len() >= 1,
    ensures
        removed(v, path).1 <==> value_at(v, path) is Some,
    decreases path.len(),
{
    if is_mapping(v) {
        let es = entries_of(v);
        lemma_find_key(es, path[0]);
        if let Some(c) = map_get(es, path[0]) {
            if path.len() > 1 {
                law_remove_reports_presence(c, path.drop_first());
            } else {
                assert(value_at(c, path.drop_first()) == Some(c));
            }
        }
    }
}

/// Placing the same value at the same path twice is the same as placing it
/// once, and the second placement cannot fail where the first did not.
pub proof fn law_insert_idempotent(v: YamlView, path: Seq<Seq<char>>, x: YamlView)
    requires
        path.len() >= 1,
        insert_fault(v, path) is None,
    ensures
        insert_fault(inserted(v, path, x), path) is None,
        inserted(inserted(v, path, x), path, x) == inserted(v, path, x),
    decreases path.len(),
{
    let es = entries_of(v);
    let c = if path.len() == 1 { x } else { inserted(child_base(es, path[0]), path.drop_first(), x) };
    let es1 = map_set(es, path[0], c);
    let v1 = inserted(v, path, x);
    lemma_retag_mapping(v, es1);
    lemma_map_set_get(es, path[0], c);
    lemma_map_set_twice(es, path[0], c, c);
    if path.len() > 1 {
        let cb = child_base(es, path[0]);
        law_insert_idempotent(cb, path.drop_first(), x);
        lemma_retag_mapping(cb, map_set(entries_of(cb), path.drop_first()[0], if path.len() == 2 { x } else {
            inserted(child_base(entries_of(cb), path.drop_first()[0]), path.drop_first().drop_first(), x)
        }));
        assert(child_base(es1, path[0]) == c);
    }
}

// ---------------------------------------------------------------------------
// Dropping null values
// ---------------------------------------------------------------------------

/// `v` with every null-valued key removed from every mapping reached through
/// mappings (a tagged mapping is left as it is).
pub open spec fn stripped(v: YamlView) -> YamlView
    decreases v,
{
    match v {
        YamlView::Mapping(es) => YamlView::Mapping(stripped_entries(es)),
        _ => v,
    }
}

/// The entries of `es` whose value is not null (looking through tags), each value stripped.
pub open spec fn stripped_entries(es: Seq<(YamlView, YamlView)>) -> Seq<(YamlView, YamlView)>
    decreases es,
{
    if es.len() == 0 {
        Seq::empty()
    } else {
        let rest = stripped_entries(es.subrange(1, es.len() as int));
        if is_null(es[0].1) {
            rest
        } else {
            seq![(es[0].0, stripped(es[0].1))] + rest
        }
    }
}


/// Whether no mapping reached through mappings from `v` has a null value.
pub open spec fn free_of_nulls(v: YamlView) -> bool
    decreases v,
{
    match v {
        YamlView::Mapping(es) => entries_free_of_nulls(es),
        _ => true,
    }
}

/// Whether no value of `es`, nor any mapping reached through them, is null.
pub open spec fn entries_free_of_nulls(es: Seq<(YamlView, YamlView)>) -> bool
    decreases es,
{
    if es.len() == 0 {
        true
    } else {
        !is_null(es[0].1) && free_of_nulls(es[0].1) && entries_free_of_nulls(es.subrange(1, es.len() as int))
    }
}

/// After stripping, no mapping reached through mappings holds a null value.
pub proof fn law_stripped_free_of_nulls(v: YamlView)
    ensures
        free_of_nulls(stripped(v)),
    decreases v,
{
    if let YamlView::Mapping(es) = v {
        lemma_stripped_entries_free_of_nulls(es);
    }
}

/// Stripped entries hold no null value, at any depth through mappings.
proof fn lemma_stripped_entries_free_of_nulls(es: Seq<(YamlView, YamlView)>)
    ensures
        entries_free_of_nulls(stripped_entries(es)),
    decreases es,
{
    if es.len() > 0 {
        let rest = es.subrange(1, es.len() as int);
        lemma_stripped_entries_free_of_nulls(rest);
        if !is_null(es[0].1) {
            law_stripped_free_of_nulls(es[0].1);
            lemma_stripped_not_null(es[0].1);
            let r = seq![(es[0].0, stripped(es[0].1))] + stripped_entries(rest);
            assert(r.subrange(1, r.len() as int) =~= stripped_entries(rest));
        }
    }
}

/// Stripping never turns a non-null node into a null one.
proof fn lemma_stripped_not_null(v: YamlView)
    requires
        !is_null(v),
    ensures
        !is_null(stripped(v)),
{
}

/// Removes every null-valued key from every mapping reached through mappings.
pub fn strip_null_values(v: YamlValue) -> (r: YamlValue)
    ensures
        r@ == stripped(v@),
    decreases v,
{
    match v {
        YamlValue::Mapping(es) => {
            proof {
                lemma_mapping_view(es);
            }
            let out = strip_entries(es);
            proof {
                lemma_mapping_view(out);
            }
            YamlValue::Mapping(out)
        },
        other => other,
    }
}

/// The entries whose value is not null, each value stripped.
fn strip_entries(es: Vec<(YamlValue, YamlValue)>) -> (r: Vec<(YamlValue, YamlValue)>)
    ensures
        entries_view(r@) == stripped_entries(entries_view(es@)),
    decreases es@,
{
    let ghost ev = entries_view(es@);
    if es.len() == 0 {
        proof {
            assert(entries_view(es@) =~= Seq::<(YamlView, YamlView)>::empty());
        }
        return es;
    }
    let mut rest = es;
    let ghost orig = rest@;
    let (k, val) = rest.remove(0);
    proof {
        assert(rest@ =~= orig.subrange(1, orig.len() as int));
        assert(entries_view(rest@) =~= ev.subrange(1, ev.len() as int));
        assert(orig[0] == (k, val));
    }
    let tail = strip_entries(rest);
    if is_null_exec(&val) {
        tail
    } else {
        let sv = strip_null_values(val);
        let mut out: Vec<(YamlValue, YamlValue)> = Vec::new();
        out.push((k, sv));
        let mut tail = tail;
        out.append(&mut tail);
        proof {
            assert(entries_view(out@) =~= seq![(ev[0].0, stripped(ev[0].1))] + stripped_entries(ev.subrange(1, ev.len() as int)));
        }
        out
    }
}


// ---------------------------------------------------------------------------
// Parsing YAML text
// ---------------------------------------------------------------------------

#[verifier::external_type_specification]
#[verifier::external_body]
pub struct ExSerdeYamlValue(serde_yaml::Value);

/// What `serde_yaml::from_str::<serde_yaml::Value>` makes of `text`: the
/// document it parses to, or the display text of its error.
pub uninterp spec fn yaml_document(text: Seq<char>) -> Result<YamlView, Seq<char>>;

/// The library's node for a `serde_yaml` value, one variant for one variant
/// (numbers kept in their display text, tags in theirs).
#[verifier::external_body]
fn node_from_serde(v: serde_yaml::Value) -> YamlValue {
    match v {
        serde_yaml::Value::Null => YamlValue::Null,
        serde_yaml::Value::Bool(b) => YamlValue::Bool(b),
        serde_yaml::Value::Number(n) => YamlValue::Number(n.to_string()),
        serde_yaml::Value::String(s) => YamlValue::Text(s),
        serde_yaml::Value::Sequence(xs) => YamlValue::Sequence(xs.into_iter().map(node_from_serde).collect()),
        serde_yaml::Value::Mapping(m) => YamlValue::Mapping(m.into_iter().map(entry_from_serde).collect()),
        serde_yaml::Value::Tagged(t) => {
            let t = *t;
            YamlValue::Tagged(t.tag.to_string(), Box::new(node_from_serde(t.value)))
        },
    }
}

/// The library's entry for a `serde_yaml` mapping entry.
#[verifier::external_body]
fn entry_from_serde(e: (serde_yaml::Value, serde_yaml::Value)) -> (YamlValue, YamlValue) {
    (node_from_serde(e.0), node_from_serde(e.1))
}

/// Calls `serde_yaml::from_str::<serde_yaml::Value>(text)`. Claimed: the
/// outcome depends on the text alone, named `yaml_document`; the error is
/// its display text.
#[verifier::external_body]
pub(crate) fn parse_yaml(text: &str) -> (r: Result<YamlValue, String>)
    ensures
        match r {
            Ok(v) => yaml_document(text@) == Ok::<YamlView, Seq<char>>(v@),
            Err(e) => yaml_document(text@) == Err::<YamlView, Seq<char>>(e@),
        },
{
    match serde_yaml::from_str::<serde_yaml::Value>(text) {
        Ok(v) => Ok(node_from_serde(v)),
        Err(e) => Err(e.to_string()),
    }
}

} // verus!
