//! Canonical identifier types used throughout the pipeline.
use vstd::prelude::*;
use crate::text::{chars_of, concat2, count_char, count_char_exec, find_char, first_index_of, lemma_first_index_of, lemma_count_char_contains, contains_char};

verus! {

/// Whether `s` is `<source>/<name>` with exactly one `/` and both parts non-empty.
pub open spec fn is_canonical(s: Seq<char>) -> bool {
    &&& count_char(s, '/') == 1
    &&& first_index_of(s, '/') > 0
    &&& first_index_of(s, '/') < s.len() - 1
}

/// The part of a canonical id before its `/`.
pub open spec fn canonical_source(s: Seq<char>) -> Seq<char> {
    s.subrange(0, first_index_of(s, '/'))
}

/// The part of a canonical id after its `/`.
pub open spec fn canonical_name(s: Seq<char>) -> Seq<char> {
    s.subrange(first_index_of(s, '/') + 1, s.len() as int)
}

/// The message explaining why `s` is not a canonical id.
pub open spec fn canonical_error(s: Seq<char>) -> Seq<char> {
    if count_char(s, '/') != 1 {
        "canonical id must contain exactly one '/': "@ + s
    } else if first_index_of(s, '/') == 0 {
        "source part must not be empty in: "@ + s
    } else {
        "name part must not be empty in: "@ + s
    }
}

/// Whether `s` is a valid source id: non-empty and free of `/`.
pub open spec fn is_source_id(s: Seq<char>) -> bool {
    s.len() > 0 && !s.contains('/')
}

/// The message explaining why `s` is not a source id.
pub open spec fn source_id_error(s: Seq<char>) -> Seq<char> {
    if s.len() == 0 {
        "source id must not be empty"@
    } else {
        "source id must not contain '/': "@ + s
    }
}

/// Error returned when constructing an ID from an invalid string.
#[derive(Debug, PartialEq)]
pub struct IdError {
    msg: String,
}

impl IdError {
    /// The reason the id was refused.
    pub closed spec fn reason(&self) -> Seq<char> {
        self.msg@
    }

    /// The full message: `invalid id: <reason>`.
    pub fn message(&self) -> (r: String)
        ensures
            r@ == "invalid id: "@ + self.reason(),
    {
        concat2("invalid id: ", self.msg.as_str())
    }
}

/// Checks that `s` is in canonical form.
fn validate_canonical(s: &str) -> (r: Result<(), IdError>)
    ensures
        match r {
            Ok(()) => is_canonical(s@),
            Err(e) => !is_canonical(s@) && e.reason() == canonical_error(s@),
        },
{
    if count_char_exec(s, '/') != 1 {
        return Err(IdError { msg: concat2("canonical id must contain exactly one '/': ", s) });
    }
    let v = chars_of(s);
    proof { lemma_count_char_contains(s@, '/'); }
    let p = match find_char(&v, '/') {
        Some(p) => p,
        None => { return Err(IdError { msg: concat2("canonical id must contain exactly one '/': ", s) }); },
    };
    proof { lemma_first_index_of(s@, '/', p as int); }
    if p == 0 {
        return Err(IdError { msg: concat2("source part must not be empty in: ", s) });
    }
    assert(p < v.len());
    if p == v.len() - 1 {
        return Err(IdError { msg: concat2("name part must not be empty in: ", s) });
    }
    Ok(())
}

/// Splits a canonical id into its source and name parts.
fn split_canonical(s: &str) -> (r: (&str, &str))
    requires
        is_canonical(s@),
    ensures
        r.0@ == canonical_source(s@),
        r.1@ == canonical_name(s@),
{
    let v = chars_of(s);
    proof { lemma_count_char_contains(s@, '/'); }
    let p = match find_char(&v, '/') {
        Some(p) => p,
        None => { proof { assert(false); } 0 },
    };
    proof { lemma_first_index_of(s@, '/', p as int); }
    assert(p < v.len());
    (s.substring_char(0, p), s.substring_char(p + 1, v.len()))
}

/// Canonical component identifier: `<source_id>/<name>` (e.g. `core/git`).
#[derive(Debug, PartialEq, Eq, Hash)]
pub struct CanonicalComponentId(String);

impl CanonicalComponentId {
    #[verifier::type_invariant]
    closed spec fn wf(&self) -> bool {
        is_canonical(self.0@)
    }

    /// The id's characters.
    pub closed spec fn view(&self) -> Seq<char> {
        self.0@
    }

    /// Construct from a string that is already in canonical form.
    /// Returns an error if the string does not contain exactly one `/`
    /// or if either part is empty.
    pub fn new(s: &str) -> (r: Result<Self, IdError>)
        ensures
            match r {
                Ok(id) => is_canonical(s@) && id@ == s@,
                Err(e) => !is_canonical(s@) && e.reason() == canonical_error(s@),
            },
    {
        validate_canonical(s)?;
        Ok(CanonicalComponentId(s.to_owned()))
    }

    /// Return the raw string value.
    pub fn as_str(&self) -> (r: &str)
        ensures
            r@ == self@,
            is_canonical(self@),
    {
        proof { use_type_invariant(self); }
        self.0.as_str()
    }

    /// Return the source part (before `/`).
    pub fn source(&self) -> (r: &str)
        ensures
            r@ == canonical_source(self@),
    {
        proof { use_type_invariant(self); }
        split_canonical(self.0.as_str()).0
    }

    /// Return the name part (after `/`).
    pub fn name(&self) -> (r: &str)
        ensures
            r@ == canonical_name(self@),
    {
        proof { use_type_invariant(self); }
        split_canonical(self.0.as_str()).1
    }
}

impl Clone for CanonicalComponentId {
    fn clone(&self) -> (r: Self)
        ensures
            r == *self,
    {
        proof { use_type_invariant(self); }
        CanonicalComponentId(self.0.clone())
    }
}

/// Canonical feature identifier: same form as a component id.
pub type CanonicalFeatureId = CanonicalComponentId;

/// Canonical backend identifier: `<source_id>/<name>` (e.g. `core/brew`).
#[derive(Debug, PartialEq, Eq, Hash)]
pub struct CanonicalBackendId(String);

impl CanonicalBackendId {
    #[verifier::type_invariant]
    closed spec fn wf(&self) -> bool {
        is_canonical(self.0@)
    }

    /// The id's characters.
    pub closed spec fn view(&self) -> Seq<char> {
        self.0@
    }

    /// Construct from a string that is already in canonical form.
    pub fn new(s: &str) -> (r: Result<Self, IdError>)
        ensures
            match r {
                Ok(id) => is_canonical(s@) && id@ == s@,
                Err(e) => !is_canonical(s@) && e.reason() == canonical_error(s@),
            },
    {
        validate_canonical(s)?;
        Ok(CanonicalBackendId(s.to_owned()))
    }

    /// Return the raw string value.
    pub fn as_str(&self) -> (r: &str)
        ensures
            r@ == self@,
            is_canonical(self@),
    {
        proof { use_type_invariant(self); }
        self.0.as_str()
    }

    /// Return the source part (before `/`).
    pub fn source(&self) -> (r: &str)
        ensures
            r@ == canonical_source(self@),
    {
        proof { use_type_invariant(self); }
        split_canonical(self.0.as_str()).0
    }

    /// Return the name part (after `/`).
    pub fn name(&self) -> (r: &str)
        ensures
            r@ == canonical_name(self@),
    {
        proof { use_type_invariant(self); }
        split_canonical(self.0.as_str()).1
    }
}

impl Clone for CanonicalBackendId {
    fn clone(&self) -> (r: Self)
        ensures
            r == *self,
    {
        proof { use_type_invariant(self); }
        CanonicalBackendId(self.0.clone())
    }
}

/// Source identifier (e.g. `core`, `local`, `community`).
#[derive(Debug, PartialEq, Eq, Hash)]
pub struct SourceId(String);

impl SourceId {
    #[verifier::type_invariant]
    closed spec fn wf(&self) -> bool {
        is_source_id(self.0@)
    }

    /// The id's characters.
    pub closed spec fn view(&self) -> Seq<char> {
        self.0@
    }

    /// Construct a source id: non-empty, without `/`.
    pub fn new(s: &str) -> (r: Result<Self, IdError>)
        ensures
            match r {
                Ok(id) => is_source_id(s@) && id@ == s@,
                Err(e) => !is_source_id(s@) && e.reason() == source_id_error(s@),
            },
    {
        if s.is_empty() {
            return Err(IdError { msg: "source id must not be empty".to_owned() });
        }
        if contains_char(s, '/') {
            return Err(IdError { msg: concat2("source id must not contain '/': ", s) });
        }
        Ok(SourceId(s.to_owned()))
    }

    /// Return the raw string value.
    pub fn as_str(&self) -> (r: &str)
        ensures
            r@ == self@,
            is_source_id(self@),
    {
        proof { use_type_invariant(self); }
        self.0.as_str()
    }
}

impl Clone for SourceId {
    fn clone(&self) -> (r: Self)
        ensures
            r == *self,
    {
        proof { use_type_invariant(self); }
        SourceId(self.0.clone())
    }
}

/// Topologically sorted list of component IDs produced by the resolver.
pub type ResolvedComponentOrder = Vec<CanonicalComponentId>;

} // verus!
