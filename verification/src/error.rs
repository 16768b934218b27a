//! Error types for model-level validation.
use vstd::prelude::*;
use crate::text::{concat_all, decimal, decimal_string};

verus! {

/// Error produced when a schema version field has an unexpected value.
#[derive(Debug, Clone, PartialEq)]
pub struct SchemaVersionError {
    pub expected: u32,
    pub found: u32,
    pub context: &'static str,
}

impl SchemaVersionError {
    /// `<context>: unsupported schema version <found> (expected <expected>)`.
    pub open spec fn message_spec(&self) -> Seq<char> {
        self.context@ + ": unsupported schema version "@ + decimal(self.found as nat) + " (expected "@
            + decimal(self.expected as nat) + ")"@
    }

    /// The human-readable message.
    pub fn message(&self) -> (r: String)
        ensures
            r@ == self.message_spec(),
    {
        let found = decimal_string(self.found as u128);
        let expected = decimal_string(self.expected as u128);
        let parts = vec![self.context, ": unsupported schema version ", found.as_str(), " (expected ", expected.as_str(), ")"];
        let r = concat_all(&parts);
        proof {
            reveal_with_fuel(crate::text::concat_seq, 7);
            assert(parts@.map_values(|p: &str| p@) =~= seq![self.context@, ": unsupported schema version "@, found@, " (expected "@, expected@, ")"@]);
        }
        r
    }
}

/// High-level validation errors for model types.
#[derive(Debug, Clone, PartialEq)]
pub enum ValidationError {
    /// Schema version field is not the expected value.
    SchemaVersion(SchemaVersionError),
    /// A required field is absent or empty.
    MissingField { field: String, context: String },
    /// A field value does not match the expected format or constraint.
    InvalidField { field: String, value: String, reason: String },
    /// A duplicate identifier was found where uniqueness is required.
    DuplicateId { id: String, context: String },
    /// An absolute path is required but a relative path was provided.
    RelativePath { path: String, context: String },
}

impl ValidationError {
    /// The human-readable message of each variant.
    pub open spec fn message_spec(&self) -> Seq<char> {
        match self {
            ValidationError::SchemaVersion(e) => e.message_spec(),
            ValidationError::MissingField { field, context } =>
                context@ + ": missing required field '"@ + field@ + "'"@,
            ValidationError::InvalidField { field, value, reason } =>
                "invalid value for '"@ + field@ + "': "@ + value@ + " ("@ + reason@ + ")"@,
            ValidationError::DuplicateId { id, context } =>
                context@ + ": duplicate id '"@ + id@ + "'"@,
            ValidationError::RelativePath { path, context } =>
                context@ + ": path must be absolute, got '"@ + path@ + "'"@,
        }
    }

    /// The human-readable message.
    pub fn message(&self) -> (r: String)
        ensures
            r@ == self.message_spec(),
    {
        match self {
            ValidationError::SchemaVersion(e) => e.message(),
            ValidationError::MissingField { field, context } => {
                let parts = vec![context.as_str(), ": missing required field '", field.as_str(), "'"];
                let r = concat_all(&parts);
                proof {
                    reveal_with_fuel(crate::text::concat_seq, 5);
                    assert(parts@.map_values(|p: &str| p@) =~= seq![context@, ": missing required field '"@, field@, "'"@]);
                }
                r
            },
            ValidationError::InvalidField { field, value, reason } => {
                let parts = vec!["invalid value for '", field.as_str(), "': ", value.as_str(), " (", reason.as_str(), ")"];
                let r = concat_all(&parts);
                proof {
                    reveal_with_fuel(crate::text::concat_seq, 8);
                    assert(parts@.map_values(|p: &str| p@) =~= seq!["invalid value for '"@, field@, "': "@, value@, " ("@, reason@, ")"@]);
                }
                r
            },
            ValidationError::DuplicateId { id, context } => {
                let parts = vec![context.as_str(), ": duplicate id '", id.as_str(), "'"];
                let r = concat_all(&parts);
                proof {
                    reveal_with_fuel(crate::text::concat_seq, 5);
                    assert(parts@.map_values(|p: &str| p@) =~= seq![context@, ": duplicate id '"@, id@, "'"@]);
                }
                r
            },
            ValidationError::RelativePath { path, context } => {
                let parts = vec![context.as_str(), ": path must be absolute, got '", path.as_str(), "'"];
                let r = concat_all(&parts);
                proof {
                    reveal_with_fuel(crate::text::concat_seq, 5);
                    assert(parts@.map_values(|p: &str| p@) =~= seq![context@, ": path must be absolute, got '"@, path@, "'"@]);
                }
                r
            },
        }
    }
}

impl From<SchemaVersionError> for ValidationError {
    fn from(e: SchemaVersionError) -> (r: Self)
    {
        ValidationError::SchemaVersion(e)
    }
}

impl vstd::std_specs::convert::FromSpecImpl<SchemaVersionError> for ValidationError {
    open spec fn obeys_from_spec() -> bool {
        true
    }

    open spec fn from_spec(e: SchemaVersionError) -> Self {
        ValidationError::SchemaVersion(e)
    }
}

} // verus!
