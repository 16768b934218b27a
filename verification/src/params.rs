//! Parameter types for component parameterization.
//!
//! Params allow profiles to inject identity attribute values into component resource
//! templates. Params must not change resource count, kind, or id (structural invariance).
use vstd::prelude::*;
use crate::fs::FsSourceKind;
use crate::strmap::StrMap;
use crate::component_index::SpecResource;

verus! {

/// Schema for parameters accepted by a component.
#[derive(Debug)]
pub struct ParamsSchema {
    /// Property definitions keyed by param name.
    pub properties: StrMap<ParamProperty>,
    /// Param names that must be provided by the profile.
    pub required: Vec<String>,
    /// When `false` (default), unknown param keys are rejected.
    pub additional_properties: bool,
}

/// Schema definition for a single parameter.
#[derive(Debug, PartialEq)]
pub struct ParamProperty {
    /// Type constraint for this parameter.
    pub param_type: ParamType,
    /// Default value applied when the profile omits this param.
    pub default: Option<ParamValue>,
}

/// Type constraint for a parameter.
#[derive(Debug, PartialEq)]
pub enum ParamType {
    /// Plain string value.
    String,
    /// Structured source object with `kind` and `path`.
    Object { properties: Option<SourceParamObjectSchema> },
    /// One of a fixed set of string values.
    Enum { values: Vec<String> },
}

/// Nested object schema for source params (`{ kind, path }`).
#[derive(Debug, PartialEq)]
pub struct SourceParamObjectSchema {
    pub kind: Option<SourceKindSchema>,
    pub path: Option<SourcePathSchema>,
}

/// Schema for the `kind` field in a source param object.
#[derive(Debug, PartialEq)]
pub struct SourceKindSchema {
    pub values: Vec<String>,
}

/// Schema for the `path` field in a source param object (must be string).
#[derive(Debug, PartialEq)]
pub struct SourcePathSchema {
    pub path_type: String,
}

/// A concrete parameter value, either from a profile or from a default.
#[derive(Debug, PartialEq)]
pub enum ParamValue {
    /// A plain string value (covers `string` and `enum` param types).
    String(String),
    /// A list of values (iterated by `for_each`).
    Array(Vec<ParamValue>),
    /// A structured source reference (covers `object` param type for fs sources).
    Source(SourceParamValue),
}

/// A structured source reference provided as a param value.
#[derive(Debug, PartialEq)]
pub struct SourceParamValue {
    pub kind: FsSourceKind,
    pub path: String,
}

/// Params after schema validation and default value resolution.
#[derive(Debug)]
pub struct ResolvedParams {
    /// Resolved param values keyed by param name.
    pub values: StrMap<ParamValue>,
}

impl Default for ResolvedParams {
    fn default() -> (r: Self)
        ensures
            r.values@ == Map::<Seq<char>, ParamValue>::empty(),
    {
        ResolvedParams { values: StrMap::new() }
    }
}

/// A component spec after all `${params.*}` references have been resolved.
#[derive(Debug)]
pub struct MaterializedComponentSpec {
    /// Resources with all param references resolved to concrete values.
    pub resources: Vec<SpecResource>,
}

/// Whether two param values hold the same content.
pub open spec fn same_value(a: ParamValue, b: ParamValue) -> bool
    decreases a,
{
    match (a, b) {
        (ParamValue::String(x), ParamValue::String(y)) => x == y,
        (ParamValue::Source(x), ParamValue::Source(y)) => x == y,
        (ParamValue::Array(xs), ParamValue::Array(ys)) => same_values(xs@, ys@),
        _ => false,
    }
}

/// Whether two sequences of param values hold the same contents, in order.
pub open spec fn same_values(xs: Seq<ParamValue>, ys: Seq<ParamValue>) -> bool
    decreases xs,
{
    if xs.len() == 0 {
        ys.len() == 0
    } else {
        ys.len() == xs.len() && same_value(xs.last(), ys.last()) && same_values(xs.drop_last(), ys.drop_last())
    }
}

impl SourceParamValue {
    /// A copy of this source reference.
    pub fn duplicate(&self) -> (r: Self)
        ensures
            r == *self,
    {
        SourceParamValue { kind: self.kind, path: self.path.clone() }
    }
}

impl ParamValue {
    /// A copy of this value.
    pub fn duplicate(&self) -> (r: Self)
        ensures
            same_value(*self, r),
        decreases self,
    {
        match self {
            ParamValue::String(s) => ParamValue::String(s.clone()),
            ParamValue::Source(x) => ParamValue::Source(x.duplicate()),
            ParamValue::Array(xs) => {
                let mut out: Vec<ParamValue> = Vec::new();
                let mut i: usize = 0;
                while i < xs.len()
                    invariant
                        i <= xs.len(),
                        *self == ParamValue::Array(*xs),
                        same_values(xs@.subrange(0, i as int), out@),
                    decreases xs.len() - i,
                {
                    proof {
                        assert(decreases_to!(*self => self->Array_0));
                        assert(decreases_to!(*xs => xs@));
                        assert(decreases_to!(xs@ => xs@[i as int]));
                    }
                    let x = xs[i].duplicate();
                    let ghost before = out@;
                    out.push(x);
                    proof {
                        assert(xs@.subrange(0, i + 1).drop_last() =~= xs@.subrange(0, i as int));
                        assert(out@.drop_last() =~= before);
                    }
                    i = i + 1;
                }
                assert(xs@.subrange(0, xs.len() as int) =~= xs@);
                ParamValue::Array(out)
            },
        }
    }
}

} // verus!
