//! The value model: the closed set of typed values a caller can bind to a
//! placeholder. The ordered collection of bound values is `Values`.

use vstd::prelude::*;

verus! {

/// A typed value bound to a placeholder.
#[derive(Debug, Clone, PartialEq)]
pub enum Value {
    /// The SQL null value.
    Null,
    /// A boolean.
    Bool(bool),
    /// A signed 8-bit integer.
    TinyInt(i8),
    /// A signed 16-bit integer.
    SmallInt(i16),
    /// A signed 32-bit integer.
    Int(i32),
    /// A signed 64-bit integer.
    BigInt(i64),
    /// An unsigned 8-bit integer.
    TinyUnsigned(u8),
    /// An unsigned 16-bit integer.
    SmallUnsigned(u16),
    /// An unsigned 32-bit integer.
    Unsigned(u32),
    /// An unsigned 64-bit integer.
    BigUnsigned(u64),
    /// A character string.
    String(String),
    /// A sequence of raw bytes.
    Bytes(Vec<u8>),
}

/// An ordered collection of bound values: insertion order is binding order.
#[derive(Debug, Clone, PartialEq)]
pub struct Values(pub Vec<Value>);

impl<'a> From<&'a str> for Value {
    fn from(s: &'a str) -> Value {
        Value::String(s.to_owned())
    }
}

impl<'a> vstd::std_specs::convert::FromSpecImpl<&'a str> for Value {
    open spec fn obeys_from_spec() -> bool {
        false
    }

    open spec fn from_spec(s: &'a str) -> Value {
        arbitrary()
    }
}

impl From<String> for Value {
    fn from(s: String) -> Value {
        Value::String(s)
    }
}

impl vstd::std_specs::convert::FromSpecImpl<String> for Value {
    open spec fn obeys_from_spec() -> bool {
        true
    }

    open spec fn from_spec(s: String) -> Value {
        Value::String(s)
    }
}

impl From<Vec<u8>> for Value {
    fn from(b: Vec<u8>) -> Value {
        Value::Bytes(b)
    }
}

impl vstd::std_specs::convert::FromSpecImpl<Vec<u8>> for Value {
    open spec fn obeys_from_spec() -> bool {
        true
    }

    open spec fn from_spec(b: Vec<u8>) -> Value {
        Value::Bytes(b)
    }
}

} // verus!
