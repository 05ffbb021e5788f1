//! Tri-state field for JSON:API `PATCH` partial-update semantics.
//!
//! A `PATCH` member is [`Field::Absent`] (not in the request: leave the
//! target unchanged), [`Field::Null`] (explicit `null`: clear it) or
//! [`Field::Value`] (a value: assign it).
use vstd::prelude::*;

verus! {

/// A JSON:API `PATCH` member in one of three states: absent (leave
/// unchanged), null (clear), or set (assign a value). Defaults to absent.
#[derive(Debug, Clone, PartialEq, Eq)]
pub enum Field<T> {
    /// The member was not present in the request; leave it unchanged.
    Absent,
    /// The member was present with value `null`; clear it.
    Null,
    /// The member was present with a value; assign it.
    Value(T),
}

impl<T> Default for Field<T> {
    /// A missing member defaults to [`Field::Absent`].
    fn default() -> (r: Self)
        ensures
            r is Absent,
    {
        Field::Absent
    }
}

impl<T> Field<T> {
    /// Construct a [`Field::Value`] field.
    pub fn set(value: T) -> (r: Self)
        ensures
            r == Field::Value(value),
    {
        Field::Value(value)
    }

    /// Returns `true` if the field is [`Field::Absent`].
    pub fn is_absent(&self) -> (b: bool)
        ensures
            b == (*self is Absent),
    {
        match self {
            Field::Absent => true,
            _ => false,
        }
    }

    /// Returns `true` if the field is [`Field::Null`].
    pub fn is_null(&self) -> (b: bool)
        ensures
            b == (*self is Null),
    {
        match self {
            Field::Null => true,
            _ => false,
        }
    }

    /// Returns `true` if the field is [`Field::Value`].
    pub fn is_set(&self) -> (b: bool)
        ensures
            b == (*self is Value),
    {
        match self {
            Field::Value(_) => true,
            _ => false,
        }
    }

    /// Borrow the contained value when the field is [`Field::Value`].
    pub fn as_set(&self) -> (r: Option<&T>)
        ensures
            match *self {
                Field::Value(v) => r == Some(&v),
                _ => r is None,
            },
    {
        match self {
            Field::Value(value) => Some(value),
            _ => None,
        }
    }

    /// The contained value only when it is [`Field::Value`]; absent and null
    /// both give `None`.
    pub fn into_set(self) -> (r: Option<T>)
        ensures
            match self {
                Field::Value(v) => r == Some(v),
                _ => r is None,
            },
    {
        match self {
            Field::Value(value) => Some(value),
            _ => None,
        }
    }

    /// Map the contained value, preserving the absent / null / set state.
    pub fn map<U, F>(self, f: F) -> (r: Field<U>) where F: FnOnce(T) -> U
        requires
            self matches Field::Value(v) ==> call_requires(f, (v,)),
        ensures
            match self {
                Field::Absent => r is Absent,
                Field::Null => r is Null,
                Field::Value(v) => r matches Field::Value(u) && call_ensures(f, (v,), u),
            },
    {
        match self {
            Field::Absent => Field::Absent,
            Field::Null => Field::Null,
            Field::Value(value) => Field::Value(f(value)),
        }
    }

    /// The contained value if [`Field::Value`], otherwise `default`.
    pub fn unwrap_or(self, default: T) -> (r: T)
        ensures
            match self {
                Field::Value(v) => r == v,
                _ => r == default,
            },
    {
        match self {
            Field::Value(value) => value,
            _ => default,
        }
    }

    /// Apply this patch member onto a nullable target: absent leaves it,
    /// null sets it to `None`, `Value(v)` sets it to `Some(v)`.
    pub fn apply(self, slot: &mut Option<T>)
        ensures
            *final(slot) == match self {
                Field::Absent => *old(slot),
                Field::Null => None,
                Field::Value(v) => Some(v),
            },
    {
        match self {
            Field::Absent => {},
            Field::Null => {
                *slot = None;
            },
            Field::Value(value) => {
                *slot = Some(value);
            },
        }
    }
}

impl<T> vstd::std_specs::convert::FromSpecImpl<T> for Field<T> {
    open spec fn obeys_from_spec() -> bool {
        true
    }

    open spec fn from_spec(v: T) -> Self {
        Field::Value(v)
    }
}

impl<T> From<T> for Field<T> {
    /// A bare value becomes [`Field::Value`].
    fn from(value: T) -> (r: Self)
        ensures
            r == Field::Value(value),
    {
        Field::Value(value)
    }
}

} // verus!
