//! Source registry — canonical ID to filesystem path resolution and allow-list enforcement.
//!
//! Features:
//! - `core/<name>` → `{repo_root}/features/<name>`
//! - `user/<name>` → `{config_home}/features/<name>`
//! - `<ext>/<name>` → `{data_home}/sources/<ext>/features/<name>`
//!
//! Backends resolve the same way under `backends/`. `core` and `user` are
//! implicit sources, always available and always allowed; any other source
//! must be declared, and its `allow` field decides what it may provide
//! (absent: nothing; `"*"`: everything; detailed: per-kind lists).
use vstd::prelude::*;
use crate::id::{CanonicalBackendId, CanonicalComponentId, CanonicalFeatureId, canonical_source, canonical_name};
use crate::path::{path_join, path_join_exec};
use crate::sources::{AllowList, AllowSpec, SourceEntry, SourcesSpec};
use crate::text::{concat_all, eq_str, first_where, lemma_first_where_found, lemma_first_where_none};

verus! {

/// Errors produced by source registry operations.
#[derive(Debug)]
pub enum RegistryError {
    /// An external source ID was referenced but is not declared in `sources.yaml`.
    UnknownSource { source_id: String },
    /// The source has no allow-list (deny-all).
    FeatureDeniedNoAllowList { feature_id: String, source_id: String },
    /// The allow-list of the source does not permit this feature.
    FeatureNotAllowed { feature_id: String, source_id: String },
    /// The source has no allow-list (deny-all).
    BackendDeniedNoAllowList { backend_id: String, source_id: String },
    /// The allow-list of the source does not permit this backend.
    BackendNotAllowed { backend_id: String, source_id: String },
}

impl RegistryError {
    /// The message of each error.
    pub open spec fn message_spec(&self) -> Seq<char> {
        match self {
            RegistryError::UnknownSource { source_id } => "unknown source '"@ + source_id@ + "': not declared in sources.yaml"@,
            RegistryError::FeatureDeniedNoAllowList { feature_id, source_id } =>
                "feature '"@ + feature_id@ + "' is not allowed by source '"@ + source_id@ + "': source has no allow-list (deny-all)"@,
            RegistryError::FeatureNotAllowed { feature_id, source_id } =>
                "feature '"@ + feature_id@ + "' is not in the allow-list of source '"@ + source_id@ + "'"@,
            RegistryError::BackendDeniedNoAllowList { backend_id, source_id } =>
                "backend '"@ + backend_id@ + "' is not allowed by source '"@ + source_id@ + "': source has no allow-list (deny-all)"@,
            RegistryError::BackendNotAllowed { backend_id, source_id } =>
                "backend '"@ + backend_id@ + "' is not in the allow-list of source '"@ + source_id@ + "'"@,
        }
    }

    /// The human-readable message.
    pub fn message(&self) -> (r: String)
        ensures
            r@ == self.message_spec(),
    {
        match self {
            RegistryError::UnknownSource { source_id } => crate::text::concat3("unknown source '", source_id.as_str(), "': not declared in sources.yaml"),
            RegistryError::FeatureDeniedNoAllowList { feature_id, source_id } => {
                let parts = vec!["feature '", feature_id.as_str(), "' is not allowed by source '", source_id.as_str(), "': source has no allow-list (deny-all)"];
                let r = concat_all(&parts);
                proof {
                    reveal_with_fuel(crate::text::concat_seq, 6);
                    assert(parts@.map_values(|p: &str| p@) =~= seq!["feature '"@, feature_id@, "' is not allowed by source '"@, source_id@, "': source has no allow-list (deny-all)"@]);
                }
                r
            },
            RegistryError::FeatureNotAllowed { feature_id, source_id } => {
                let parts = vec!["feature '", feature_id.as_str(), "' is not in the allow-list of source '", source_id.as_str(), "'"];
                let r = concat_all(&parts);
                proof {
                    reveal_with_fuel(crate::text::concat_seq, 6);
                    assert(parts@.map_values(|p: &str| p@) =~= seq!["feature '"@, feature_id@, "' is not in the allow-list of source '"@, source_id@, "'"@]);
                }
                r
            },
            RegistryError::BackendDeniedNoAllowList { backend_id, source_id } => {
                let parts = vec!["backend '", backend_id.as_str(), "' is not allowed by source '", source_id.as_str(), "': source has no allow-list (deny-all)"];
                let r = concat_all(&parts);
                proof {
                    reveal_with_fuel(crate::text::concat_seq, 6);
                    assert(parts@.map_values(|p: &str| p@) =~= seq!["backend '"@, backend_id@, "' is not allowed by source '"@, source_id@, "': source has no allow-list (deny-all)"@]);
                }
                r
            },
            RegistryError::BackendNotAllowed { backend_id, source_id } => {
                let parts = vec!["backend '", backend_id.as_str(), "' is not in the allow-list of source '", source_id.as_str(), "'"];
                let r = concat_all(&parts);
                proof {
                    reveal_with_fuel(crate::text::concat_seq, 6);
                    assert(parts@.map_values(|p: &str| p@) =~= seq!["backend '"@, backend_id@, "' is not in the allow-list of source '"@, source_id@, "'"@]);
                }
                r
            },
        }
    }
}

/// Whether a source id is implicit (`core` or `user`).
pub open spec fn is_implicit(source_id: Seq<char>) -> bool {
    source_id == "core"@ || source_id == "user"@
}

/// Whether source entry `i` has id `s`.
pub open spec fn source_pred(sources: Seq<SourceEntry>, s: Seq<char>) -> spec_fn(int) -> bool {
    |i: int| sources[i].id@ == s
}

/// The first declared source with id `s`.
pub open spec fn find_source_spec(sources: Seq<SourceEntry>, s: Seq<char>) -> Option<int> {
    first_where(sources.len(), source_pred(sources, s))
}

/// Whether `names` lists `name`.
pub open spec fn lists(names: Seq<String>, name: Seq<char>) -> bool {
    exists|k: int| 0 <= k < names.len() && #[trigger] names[k]@ == name
}

/// Whether an allow-list admits `name`.
pub open spec fn list_admits(l: Option<AllowList>, name: Seq<char>) -> bool {
    match l {
        None => false,
        Some(AllowList::All(_)) => true,
        Some(AllowList::Names(names)) => lists(names@, name),
    }
}

/// The directory segment of a kind (`features` or `backends`).
pub open spec fn segment(backend: bool) -> Seq<char> {
    if backend { "backends"@ } else { "features"@ }
}

/// The source registry resolves canonical IDs to filesystem paths and enforces allow-lists.
pub struct SourceRegistry {
    /// External sources declared in `sources.yaml`.
    sources: Vec<SourceEntry>,
    /// The repository root (contains `features/` and `backends/`).
    repo_root: String,
    /// The user config home (for the `user` source).
    config_home: String,
    /// The data home (contains `sources/<id>/...` of external sources).
    data_home: String,
}

impl SourceRegistry {
    /// The declared external sources.
    pub closed spec fn declared(&self) -> Seq<SourceEntry> {
        self.sources@
    }

    /// The repository root.
    pub closed spec fn repo_root_spec(&self) -> Seq<char> {
        self.repo_root@
    }

    /// The config home.
    pub closed spec fn config_home_spec(&self) -> Seq<char> {
        self.config_home@
    }

    /// The data home.
    pub closed spec fn data_home_spec(&self) -> Seq<char> {
        self.data_home@
    }

    /// The directory of `<source>/<name>` of the given kind, or `None` for an
    /// undeclared external source.
    pub open spec fn dir_spec(&self, source: Seq<char>, name: Seq<char>, backend: bool) -> Option<Seq<char>> {
        if source == "core"@ {
            Some(path_join(path_join(self.repo_root_spec(), segment(backend)), name))
        } else if source == "user"@ {
            Some(path_join(path_join(self.config_home_spec(), segment(backend)), name))
        } else if find_source_spec(self.declared(), source) is Some {
            Some(path_join(path_join(path_join(path_join(self.data_home_spec(), "sources"@), source), segment(backend)), name))
        } else {
            None
        }
    }

    /// Build a registry from the declared sources and explicit base directories.
    pub fn new(sources: SourcesSpec, repo_root: &str, config_home: &str, data_home: &str) -> (r: Self)
        ensures
            r.declared() == sources.sources@,
            r.repo_root_spec() == repo_root@,
            r.config_home_spec() == config_home@,
            r.data_home_spec() == data_home@,
    {
        SourceRegistry {
            sources: sources.sources,
            repo_root: repo_root.to_owned(),
            config_home: config_home.to_owned(),
            data_home: data_home.to_owned(),
        }
    }

    /// The first declared source with id `source_id`.
    fn find_source(&self, source_id: &str) -> (r: Result<&SourceEntry, RegistryError>)
        ensures
            match r {
                Ok(e) => (find_source_spec(self.declared(), source_id@) matches Some(i) && *e == self.declared()[i]) && e.id@ == source_id@,
                Err(err) => (err matches RegistryError::UnknownSource { source_id: s } && s@ == source_id@)
                    && find_source_spec(self.declared(), source_id@) is None,
            },
    {
        let mut i: usize = 0;
        while i < self.sources.len()
            invariant
                i <= self.sources@.len(),
                forall|k: int| 0 <= k < i ==> !#[trigger] source_pred(self.sources@, source_id@)(k),
            decreases self.sources@.len() - i,
        {
            if eq_str(self.sources[i].id.as_str(), source_id) {
                proof { lemma_first_where_found(self.sources@.len(), source_pred(self.sources@, source_id@), i as int); }
                return Ok(&self.sources[i]);
            }
            i = i + 1;
        }
        proof { lemma_first_where_none(self.sources@.len(), source_pred(self.sources@, source_id@)); }
        Err(RegistryError::UnknownSource { source_id: source_id.to_owned() })
    }

    /// The directory of `<source_id>/<name>` of the given kind.
    fn resolve_dir(&self, source_id: &str, name: &str, backend: bool) -> (r: Result<String, RegistryError>)
        ensures
            match (r, self.dir_spec(source_id@, name@, backend)) {
                (Ok(p), Some(q)) => p@ == q,
                (Err(err), None) => err matches RegistryError::UnknownSource { source_id: s } && s@ == source_id@,
                _ => false,
            },
    {
        let seg = if backend { "backends" } else { "features" };
        if eq_str(source_id, "core") {
            let base = path_join_exec(self.repo_root.as_str(), seg);
            Ok(path_join_exec(base.as_str(), name))
        } else if eq_str(source_id, "user") {
            let base = path_join_exec(self.config_home.as_str(), seg);
            Ok(path_join_exec(base.as_str(), name))
        } else {
            if let Err(e) = self.find_source(source_id) {
                return Err(e);
            }
            let a = path_join_exec(self.data_home.as_str(), "sources");
            let b = path_join_exec(a.as_str(), source_id);
            let c = path_join_exec(b.as_str(), seg);
            Ok(path_join_exec(c.as_str(), name))
        }
    }

    /// Resolve the filesystem directory for a canonical feature ID.
    ///
    /// Does not check whether the directory exists, nor the allow-list.
    pub fn feature_dir(&self, id: &CanonicalFeatureId) -> (r: Result<String, RegistryError>)
        ensures
            match (r, self.dir_spec(canonical_source(id@), canonical_name(id@), false)) {
                (Ok(p), Some(q)) => p@ == q,
                (Err(err), None) => err matches RegistryError::UnknownSource { source_id: s } && s@ == canonical_source(id@),
                _ => false,
            },
    {
        self.resolve_dir(id.source(), id.name(), false)
    }

    /// Resolve the filesystem directory for a canonical backend ID.
    ///
    /// Does not check whether the directory exists, nor the allow-list.
    pub fn backend_dir(&self, id: &CanonicalBackendId) -> (r: Result<String, RegistryError>)
        ensures
            match (r, self.dir_spec(canonical_source(id@), canonical_name(id@), true)) {
                (Ok(p), Some(q)) => p@ == q,
                (Err(err), None) => err matches RegistryError::UnknownSource { source_id: s } && s@ == canonical_source(id@),
                _ => false,
            },
    {
        self.resolve_dir(id.source(), id.name(), true)
    }

    /// Whether a feature is allowed: implicit sources always; an external
    /// source only when declared and its allow-list admits the feature's name.
    pub open spec fn feature_allowed_spec(&self, id: Seq<char>) -> bool {
        let s = canonical_source(id);
        is_implicit(s) || match find_source_spec(self.declared(), s) {
            None => false,
            Some(i) => match self.declared()[i].allow {
                None => false,
                Some(AllowSpec::All(_)) => true,
                Some(AllowSpec::Detailed(d)) => list_admits(d.features, canonical_name(id)),
            },
        }
    }

    /// Whether a backend is allowed (as for features, with the backend list).
    pub open spec fn backend_allowed_spec(&self, id: Seq<char>) -> bool {
        let s = canonical_source(id);
        is_implicit(s) || match find_source_spec(self.declared(), s) {
            None => false,
            Some(i) => match self.declared()[i].allow {
                None => false,
                Some(AllowSpec::All(_)) => true,
                Some(AllowSpec::Detailed(d)) => list_admits(d.backends, canonical_name(id)),
            },
        }
    }

    /// Check whether a canonical feature ID is permitted by its source's allow-list.
    ///
    /// Errors: `UnknownSource` for an undeclared external source;
    /// `FeatureDeniedNoAllowList` when the source has no allow-list;
    /// `FeatureNotAllowed` when the allow-list does not admit it.
    pub fn check_feature_allowed(&self, id: &CanonicalFeatureId) -> (r: Result<(), RegistryError>)
        ensures
            r is Ok <==> self.feature_allowed_spec(id@),
            match r {
                Err(RegistryError::UnknownSource { source_id }) => find_source_spec(self.declared(), canonical_source(id@)) is None
                    && source_id@ == canonical_source(id@),
                Err(RegistryError::FeatureDeniedNoAllowList { feature_id, source_id }) =>
                    find_source_spec(self.declared(), canonical_source(id@)) is Some
                    && self.declared()[find_source_spec(self.declared(), canonical_source(id@))->0].allow is None
                    && feature_id@ == id@ && source_id@ == canonical_source(id@),
                Err(RegistryError::FeatureNotAllowed { feature_id, source_id }) =>
                    find_source_spec(self.declared(), canonical_source(id@)) is Some
                    && self.declared()[find_source_spec(self.declared(), canonical_source(id@))->0].allow is Some
                    && feature_id@ == id@ && source_id@ == canonical_source(id@),
                Err(_) => false,
                Ok(()) => true,
            },
    {
        let source_id = id.source();
        if eq_str(source_id, "core") || eq_str(source_id, "user") {
            return Ok(());
        }
        match self.find_source(source_id) {
            Ok(entry) => check_allowed(entry, id.as_str(), id.name(), false),
            Err(e) => Err(e),
        }
    }

    /// Check whether a canonical backend ID is permitted by its source's allow-list.
    ///
    /// Errors: `UnknownSource` for an undeclared external source;
    /// `BackendDeniedNoAllowList` when the source has no allow-list;
    /// `BackendNotAllowed` when the allow-list does not admit it.
    pub fn check_backend_allowed(&self, id: &CanonicalBackendId) -> (r: Result<(), RegistryError>)
        ensures
            r is Ok <==> self.backend_allowed_spec(id@),
            match r {
                Err(RegistryError::UnknownSource { source_id }) => find_source_spec(self.declared(), canonical_source(id@)) is None
                    && source_id@ == canonical_source(id@),
                Err(RegistryError::BackendDeniedNoAllowList { backend_id, source_id }) =>
                    find_source_spec(self.declared(), canonical_source(id@)) is Some
                    && self.declared()[find_source_spec(self.declared(), canonical_source(id@))->0].allow is None
                    && backend_id@ == id@ && source_id@ == canonical_source(id@),
                Err(RegistryError::BackendNotAllowed { backend_id, source_id }) =>
                    find_source_spec(self.declared(), canonical_source(id@)) is Some
                    && self.declared()[find_source_spec(self.declared(), canonical_source(id@))->0].allow is Some
                    && backend_id@ == id@ && source_id@ == canonical_source(id@),
                Err(_) => false,
                Ok(()) => true,
            },
    {
        let source_id = id.source();
        if eq_str(source_id, "core") || eq_str(source_id, "user") {
            return Ok(());
        }
        match self.find_source(source_id) {
            Ok(entry) => check_allowed(entry, id.as_str(), id.name(), true),
            Err(e) => Err(e),
        }
    }
}

/// Whether `names` lists `name` (executable).
fn lists_exec(names: &Vec<String>, name: &str) -> (r: bool)
    ensures
        r == lists(names@, name@),
{
    let mut k: usize = 0;
    while k < names.len()
        invariant
            k <= names@.len(),
            forall|j: int| 0 <= j < k ==> names@[j]@ != name@,
        decreases names@.len() - k,
    {
        if eq_str(names[k].as_str(), name) {
            return true;
        }
        k = k + 1;
    }
    false
}

/// Check an id (`full`, with name part `name`) against a source entry's allow-list.
fn check_allowed(entry: &SourceEntry, full: &str, name: &str, backend: bool) -> (r: Result<(), RegistryError>)
    ensures
        r is Ok <==> match entry.allow {
            None => false,
            Some(AllowSpec::All(_)) => true,
            Some(AllowSpec::Detailed(d)) => list_admits(if backend { d.backends } else { d.features }, name@),
        },
        match r {
            Err(RegistryError::FeatureDeniedNoAllowList { feature_id, source_id }) =>
                !backend && entry.allow is None && feature_id@ == full@ && source_id == entry.id,
            Err(RegistryError::FeatureNotAllowed { feature_id, source_id }) =>
                !backend && entry.allow is Some && feature_id@ == full@ && source_id == entry.id,
            Err(RegistryError::BackendDeniedNoAllowList { backend_id, source_id }) =>
                backend && entry.allow is None && backend_id@ == full@ && source_id == entry.id,
            Err(RegistryError::BackendNotAllowed { backend_id, source_id }) =>
                backend && entry.allow is Some && backend_id@ == full@ && source_id == entry.id,
            Err(_) => false,
            Ok(()) => true,
        },
{
    match &entry.allow {
        None => {
            if backend {
                Err(RegistryError::BackendDeniedNoAllowList { backend_id: full.to_owned(), source_id: entry.id.clone() })
            } else {
                Err(RegistryError::FeatureDeniedNoAllowList { feature_id: full.to_owned(), source_id: entry.id.clone() })
            }
        },
        Some(AllowSpec::All(_)) => Ok(()),
        Some(AllowSpec::Detailed(d)) => {
            let list = if backend { &d.backends } else { &d.features };
            let ok = match list {
                None => false,
                Some(AllowList::All(_)) => true,
                Some(AllowList::Names(names)) => lists_exec(names, name),
            };
            if ok {
                Ok(())
            } else if backend {
                Err(RegistryError::BackendNotAllowed { backend_id: full.to_owned(), source_id: entry.id.clone() })
            } else {
                Err(RegistryError::FeatureNotAllowed { feature_id: full.to_owned(), source_id: entry.id.clone() })
            }
        },
    }
}

} // verus!
