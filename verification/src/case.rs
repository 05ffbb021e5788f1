//! Output case convention configuration.
//!
//! [`CaseConvention`] defines the target casing for attribute and relationship
//! member names during serialization (camelCase, snake_case, kebab-case,
//! PascalCase, or pass-through). [`CaseConfig`] bundles the convention.
//! The word-splitting itself is `heck`'s.
use heck::{ToKebabCase, ToLowerCamelCase, ToSnakeCase, ToUpperCamelCase};
use vstd::prelude::*;

verus! {

/// Output case convention for serialized member names.
#[non_exhaustive]
#[derive(Debug, Clone, Copy, PartialEq, Eq, Structural, Default)]
pub enum CaseConvention {
    /// camelCase (e.g. `publishedAt`)
    CamelCase,
    /// snake_case (e.g. `published_at`)
    SnakeCase,
    /// kebab-case (e.g. `published-at`)
    KebabCase,
    /// PascalCase (e.g. `PublishedAt`)
    PascalCase,
    /// Pass-through — use the Rust field name as-is.
    #[default]
    AsIs,
}

/// What `heck`'s `to_lower_camel_case` makes of a name.
pub uninterp spec fn heck_lower_camel(s: Seq<char>) -> Seq<char>;

/// What `heck`'s `to_snake_case` makes of a name.
pub uninterp spec fn heck_snake(s: Seq<char>) -> Seq<char>;

/// What `heck`'s `to_kebab_case` makes of a name.
pub uninterp spec fn heck_kebab(s: Seq<char>) -> Seq<char>;

/// What `heck`'s `to_upper_camel_case` makes of a name.
pub uninterp spec fn heck_upper_camel(s: Seq<char>) -> Seq<char>;

/// `heck::ToLowerCamelCase::to_lower_camel_case` on a `str`; its result is
/// a function of the input alone.
#[verifier::external_body]
fn lower_camel(name: &str) -> (r: String)
    ensures
        r@ == heck_lower_camel(name@),
{
    name.to_lower_camel_case()
}

/// `heck::ToSnakeCase::to_snake_case` on a `str`; its result is a function
/// of the input alone.
#[verifier::external_body]
fn snake(name: &str) -> (r: String)
    ensures
        r@ == heck_snake(name@),
{
    name.to_snake_case()
}

/// `heck::ToKebabCase::to_kebab_case` on a `str`; its result is a function
/// of the input alone.
#[verifier::external_body]
fn kebab(name: &str) -> (r: String)
    ensures
        r@ == heck_kebab(name@),
{
    name.to_kebab_case()
}

/// `heck::ToUpperCamelCase::to_upper_camel_case` on a `str`; its result is a
/// function of the input alone.
#[verifier::external_body]
fn upper_camel(name: &str) -> (r: String)
    ensures
        r@ == heck_upper_camel(name@),
{
    name.to_upper_camel_case()
}

/// The name `convention` produces for `name`.
pub open spec fn converted(convention: CaseConvention, name: Seq<char>) -> Seq<char> {
    match convention {
        CaseConvention::CamelCase => heck_lower_camel(name),
        CaseConvention::SnakeCase => heck_snake(name),
        CaseConvention::KebabCase => heck_kebab(name),
        CaseConvention::PascalCase => heck_upper_camel(name),
        CaseConvention::AsIs => name,
    }
}

impl CaseConvention {
    /// Convert a name to this convention.
    pub fn convert(&self, name: &str) -> (r: String)
        ensures
            r@ == converted(*self, name@),
    {
        match self {
            CaseConvention::CamelCase => lower_camel(name),
            CaseConvention::SnakeCase => snake(name),
            CaseConvention::KebabCase => kebab(name),
            CaseConvention::PascalCase => upper_camel(name),
            CaseConvention::AsIs => name.to_owned(),
        }
    }
}

/// Controls output casing for attribute and relationship member names.
///
/// The default convention is [`CaseConvention::AsIs`] (pass-through).
#[derive(Debug, Clone, Copy, PartialEq, Eq, Structural, Default)]
pub struct CaseConfig {
    /// Case convention applied to attribute and relationship member names.
    pub member_case: CaseConvention,
}

} // verus!
