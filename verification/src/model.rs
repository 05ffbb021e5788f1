//! Core JSON:API types: resources, identifiers, relationships, links,
//! errors and documents.
pub mod api_error;
pub mod document;
pub mod identifier;
pub mod jsonapi_object;
pub mod link;
pub mod relationship;
pub mod resource;

pub use api_error::{ApiError, ErrorLinks, ErrorSource};
pub use document::{Document, PrimaryData};
pub use identifier::{Identity, ResourceIdentifier};
pub use jsonapi_object::JsonApiObject;
pub use link::{Hreflang, Link, LinkObject, Links};
pub use relationship::{Relationship, RelationshipData};
pub use resource::{HasLinks, HasMeta, Resource, ResourceObject};
