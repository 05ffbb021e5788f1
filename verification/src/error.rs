//! Crate-level error type.
//!
//! [`Error`] is the unified error type of every fallible operation of the
//! library; [`Result<T>`] abbreviates `std::result::Result<T, Error>`.
use crate::decimal::{decimal, push_decimal};
use crate::text::{owned, push_str};
use serde_json::Error as SerdeJsonError;
use vstd::prelude::*;

verus! {

/// The error type of `serde_json`, carried through by [`Error::Json`].
#[verifier::external_type_specification]
#[verifier::external_body]
pub struct ExJsonError(SerdeJsonError);

/// Crate-level error type.
#[non_exhaustive]
#[derive(Debug)]
pub enum Error {
    /// A serde_json serialization or deserialization error.
    Json(SerdeJsonError),
    /// A member name violates JSON:API 1.1 naming rules.
    InvalidMemberName {
        /// The offending member name.
        name: String,
        /// Human-readable explanation of why validation failed.
        reason: String,
    },
    /// A resource was not found in the registry.
    RegistryLookup {
        /// The JSON:API type string that was queried.
        type_: String,
        /// The resource id that was not found.
        id: String,
    },
    /// A to-one relationship is null; cannot look up a concrete resource.
    NullRelationship,
    /// A to-one lookup on a to-many relationship, or the reverse.
    RelationshipCardinalityMismatch {
        /// The expected cardinality (`"to-one"` or `"to-many"`).
        expected: &'static str,
    },
    /// Lookup by local identifier (`lid`) is not supported.
    LidNotIndexed,
    /// Base media type does not match `application/vnd.api+json`.
    MediaTypeMismatch {
        /// The expected media type.
        expected: String,
        /// The media type that was received.
        got: String,
    },
    /// A media-type parameter other than `ext` or `profile` was present.
    UnsupportedMediaTypeParam {
        /// The unsupported parameter name.
        param: String,
    },
    /// A media-type string could not be parsed (syntax error).
    MediaTypeParse(String),
    /// No acceptable JSON:API media type found in the Accept header.
    NoAcceptableMediaType,
    /// All JSON:API entries in Accept have unsupported parameters (406 semantics).
    AllMediaTypesUnsupportedParams,
    /// A document violates structural rules (e.g. `data` + `errors` both present).
    Structure(String),
    /// An include path references a relationship that does not exist on the type.
    InvalidIncludePath {
        /// The full dot-separated include path.
        path: String,
        /// The path segment that could not be resolved.
        segment: String,
        /// The type on which the segment was not found.
        type_: String,
    },
    /// Structural violation in an atomic operations payload.
    InvalidAtomicOperation {
        /// Zero-based index of the offending operation within the request.
        index: usize,
        /// Human-readable explanation.
        reason: String,
    },
    /// The document has another shape than the one asked for.
    UnexpectedDocumentShape {
        /// What the caller expected.
        expected: &'static str,
        /// What the document actually is.
        found: &'static str,
    },
    /// The wire-side resource `type` differs from the declared one.
    TypeMismatch {
        /// The declared type.
        expected: &'static str,
        /// The `type` value found on the wire.
        got: String,
        /// Path to the offending resource, e.g. `"data[3]"`.
        location: String,
    },
    /// A relationship object on the wire is structurally malformed.
    MalformedRelationship {
        /// Wire name of the offending relationship.
        name: String,
        /// Path to the resource carrying the relationship.
        location: String,
        /// Human-readable explanation of what is wrong.
        reason: String,
    },
    /// A required attribute is absent from the wire `attributes` block.
    MissingAttribute {
        /// The declared type of the resource.
        resource_type: &'static str,
        /// Wire name of the missing attribute.
        attribute: &'static str,
        /// Path to the offending resource.
        location: String,
    },
    /// A relationship references a `(type, id)` pair absent from `included`.
    IncludedRefMissing {
        /// Wire name of the offending relationship.
        name: String,
        /// Referenced resource type.
        type_: String,
        /// Referenced resource id.
        id: String,
        /// Path to the offending relationship.
        location: String,
    },
    /// A request query parameter could not be parsed.
    QueryParse {
        /// The offending parameter (e.g. `"sort"` or `"page[size]"`).
        param: String,
        /// Human-readable explanation.
        reason: String,
    },
}


/// The description of an error. For [`Error::Json`] this is only the start
/// of it: `serde_json`'s own description of the error follows.
pub open spec fn error_text(e: Error) -> Seq<char> {
    match e {
        Error::Json(_) => "JSON serialization error: "@,
        Error::InvalidMemberName { name, reason } => "invalid member name: "@ + name@ + " \u{2014} "@
            + reason@,
        Error::RegistryLookup { type_, id } => "resource not found in registry: type="@ + type_@
            + ", id="@ + id@,
        Error::NullRelationship => "null relationship: cannot look up resource"@,
        Error::RelationshipCardinalityMismatch { expected } => "relationship cardinality mismatch: expected "@
            + expected@,
        Error::LidNotIndexed => "registry does not index by lid"@,
        Error::MediaTypeMismatch { expected, got } => "media type mismatch: expected "@ + expected@
            + ", got "@ + got@,
        Error::UnsupportedMediaTypeParam { param } => "unsupported media type parameter: "@ + param@,
        Error::MediaTypeParse(m) => "media type parse error: "@ + m@,
        Error::NoAcceptableMediaType => "no acceptable JSON:API media type found in Accept header"@,
        Error::AllMediaTypesUnsupportedParams =>
            "all JSON:API media type instances in Accept have unsupported parameters"@,
        Error::Structure(m) => "document structure error: "@ + m@,
        Error::InvalidIncludePath { path, segment, type_ } => "invalid include path '"@ + path@
            + "': relationship '"@ + segment@ + "' not found on type '"@ + type_@ + "'"@,
        Error::InvalidAtomicOperation { index, reason } => "invalid atomic operation at index "@
            + decimal(index as nat) + ": "@ + reason@,
        Error::UnexpectedDocumentShape { expected, found } => "expected "@ + expected@
            + " document, got "@ + found@,
        Error::TypeMismatch { expected, got, location } => "type mismatch at "@ + location@
            + ": expected `"@ + expected@ + "`, got `"@ + got@ + "`"@,
        Error::MalformedRelationship { name, location, reason } => "malformed relationship `"@
            + name@ + "` at "@ + location@ + ": "@ + reason@,
        Error::MissingAttribute { resource_type, attribute, location } =>
            "missing required attribute `"@ + attribute@ + "` on `"@ + resource_type@ + "` at "@
            + location@,
        Error::IncludedRefMissing { name, type_, id, location } => "relationship `"@ + name@
            + "` at "@ + location@ + " references "@ + type_@ + ":"@ + id@
            + ", but no such resource is included"@,
        Error::QueryParse { param, reason } => "invalid query parameter `"@ + param@ + "`: "@
            + reason@,
    }
}

/// The `Display` text of a `serde_json` error: its message, with the line
/// and column where it arose when there are any. The error is opaque here,
/// so nothing is stated of the text.
#[verifier::external_body]
fn json_error_text(e: &SerdeJsonError) -> String {
    format!("{}", e)
}

impl Error {
    /// A human-readable description of the error (its `Display` text).
    pub fn message(&self) -> (s: String)
        ensures
            !(self is Json) ==> s@ == error_text(*self),
            self is Json ==> error_text(*self).is_prefix_of(s@),
    {
        match self {
            Error::Json(e) => {
                let mut s = owned("JSON serialization error: ");
                let t = json_error_text(e);
                push_str(&mut s, t.as_str());
                s
            },
            Error::InvalidMemberName { name, reason } => {
                let mut s = owned("invalid member name: ");
                push_str(&mut s, name.as_str());
                push_str(&mut s, " \u{2014} ");
                push_str(&mut s, reason.as_str());
                s
            },
            Error::RegistryLookup { type_, id } => {
                let mut s = owned("resource not found in registry: type=");
                push_str(&mut s, type_.as_str());
                push_str(&mut s, ", id=");
                push_str(&mut s, id.as_str());
                s
            },
            Error::NullRelationship => owned("null relationship: cannot look up resource"),
            Error::RelationshipCardinalityMismatch { expected } => {
                let mut s = owned("relationship cardinality mismatch: expected ");
                push_str(&mut s, expected);
                s
            },
            Error::LidNotIndexed => owned("registry does not index by lid"),
            Error::MediaTypeMismatch { expected, got } => {
                let mut s = owned("media type mismatch: expected ");
                push_str(&mut s, expected.as_str());
                push_str(&mut s, ", got ");
                push_str(&mut s, got.as_str());
                s
            },
            Error::UnsupportedMediaTypeParam { param } => {
                let mut s = owned("unsupported media type parameter: ");
                push_str(&mut s, param.as_str());
                s
            },
            Error::MediaTypeParse(m) => {
                let mut s = owned("media type parse error: ");
                push_str(&mut s, m.as_str());
                s
            },
            Error::NoAcceptableMediaType => owned(
                "no acceptable JSON:API media type found in Accept header",
            ),
            Error::AllMediaTypesUnsupportedParams => owned(
                "all JSON:API media type instances in Accept have unsupported parameters",
            ),
            Error::Structure(m) => {
                let mut s = owned("document structure error: ");
                push_str(&mut s, m.as_str());
                s
            },
            Error::InvalidIncludePath { path, segment, type_ } => {
                let mut s = owned("invalid include path '");
                push_str(&mut s, path.as_str());
                push_str(&mut s, "': relationship '");
                push_str(&mut s, segment.as_str());
                push_str(&mut s, "' not found on type '");
                push_str(&mut s, type_.as_str());
                push_str(&mut s, "'");
                s
            },
            Error::InvalidAtomicOperation { index, reason } => {
                let mut s = owned("invalid atomic operation at index ");
                push_decimal(&mut s, *index as u64);
                push_str(&mut s, ": ");
                push_str(&mut s, reason.as_str());
                s
            },
            Error::UnexpectedDocumentShape { expected, found } => {
                let mut s = owned("expected ");
                push_str(&mut s, expected);
                push_str(&mut s, " document, got ");
                push_str(&mut s, found);
                s
            },
            Error::TypeMismatch { expected, got, location } => {
                let mut s = owned("type mismatch at ");
                push_str(&mut s, location.as_str());
                push_str(&mut s, ": expected `");
                push_str(&mut s, expected);
                push_str(&mut s, "`, got `");
                push_str(&mut s, got.as_str());
                push_str(&mut s, "`");
                s
            },
            Error::MalformedRelationship { name, location, reason } => {
                let mut s = owned("malformed relationship `");
                push_str(&mut s, name.as_str());
                push_str(&mut s, "` at ");
                push_str(&mut s, location.as_str());
                push_str(&mut s, ": ");
                push_str(&mut s, reason.as_str());
                s
            },
            Error::MissingAttribute { resource_type, attribute, location } => {
                let mut s = owned("missing required attribute `");
                push_str(&mut s, attribute);
                push_str(&mut s, "` on `");
                push_str(&mut s, resource_type);
                push_str(&mut s, "` at ");
                push_str(&mut s, location.as_str());
                s
            },
            Error::IncludedRefMissing { name, type_, id, location } => {
                let mut s = owned("relationship `");
                push_str(&mut s, name.as_str());
                push_str(&mut s, "` at ");
                push_str(&mut s, location.as_str());
                push_str(&mut s, " references ");
                push_str(&mut s, type_.as_str());
                push_str(&mut s, ":");
                push_str(&mut s, id.as_str());
                push_str(&mut s, ", but no such resource is included");
                s
            },
            Error::QueryParse { param, reason } => {
                let mut s = owned("invalid query parameter `");
                push_str(&mut s, param.as_str());
                push_str(&mut s, "`: ");
                push_str(&mut s, reason.as_str());
                s
            },
        }
    }
}

/// Convenience alias.
pub type Result<T> = std::result::Result<T, Error>;

impl From<SerdeJsonError> for Error {
    /// A `serde_json` error becomes [`Error::Json`].
    fn from(e: SerdeJsonError) -> (r: Error) {
        Error::Json(e)
    }
}

impl vstd::std_specs::convert::FromSpecImpl<SerdeJsonError> for Error {
    open spec fn obeys_from_spec() -> bool {
        true
    }

    open spec fn from_spec(e: SerdeJsonError) -> Error {
        Error::Json(e)
    }
}

/// `serde::de::Error::custom(msg)` for `serde_json::Error`: a deserialization
/// error carrying the message `msg`. The error type is opaque here, so
/// nothing is stated of the result.
#[verifier::external_body]
fn custom_json_error(msg: &str) -> SerdeJsonError {
    <SerdeJsonError as serde::de::Error>::custom(msg)
}

/// The error for JSON that does not have the shape a type needs: a
/// [`Error::Json`] carrying `msg`.
pub fn shape_error(msg: &str) -> (e: Error)
    ensures
        e is Json,
{
    Error::Json(custom_json_error(msg))
}

} // verus!
