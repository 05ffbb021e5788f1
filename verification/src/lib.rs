//! A verified JSON:API v1.1 library: the document model with its JSON form,
//! the included-resource registry and resolver, query strings, pagination
//! links, sparse fieldsets, content negotiation, member-name rules, and the
//! Atomic Operations extension.
pub mod atomic;
pub mod builder;
pub mod case;
pub mod decimal;
pub mod encoding;
pub mod error;
pub mod field;
pub mod fieldset;
pub mod json;
pub mod links;
pub mod media_type;
pub mod model;
pub mod pagination;
pub mod query;
pub mod query_parse;
pub mod query_round_trip;
pub mod record;
pub mod registry;
pub mod str_map;
pub mod text;
pub mod validation;

pub use atomic::{
    AtomicOperation, AtomicRequest, AtomicResponse, AtomicResult, OperationRef, OperationTarget,
    ATOMIC_EXT_URI,
};
pub use builder::DocumentBuilder;
pub use case::{CaseConfig, CaseConvention};
pub use error::{Error, Result};
pub use field::Field;
pub use fieldset::{sparse_filter, FieldsetConfig, SparseSerializer};
pub use json::{JsonNumber, JsonObject, JsonValue, Meta};
pub use media_type::{negotiate_accept, validate_content_type, JsonApiMediaType};
pub use model::{
    ApiError, Document, ErrorLinks, ErrorSource, HasLinks, HasMeta, Hreflang, Identity,
    JsonApiObject, Link, LinkObject, Links, PrimaryData, Relationship, RelationshipData, Resource,
    ResourceIdentifier, ResourceObject,
};
pub use pagination::{
    CursorLinks, CursorPage, OffsetPage, PageNumberPage, PageStrategy, PaginationLinks,
    CURSOR_PAGINATION_PROFILE,
};
pub use query::QueryBuilder;
pub use query_parse::{Query, SortField};
pub use registry::{Registry, ResolveConfig};
pub use str_map::StrMap;
pub use validation::{validate_member_name, MemberNameKind};
