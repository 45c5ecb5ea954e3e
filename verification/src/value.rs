//! The shapes a structured value can take.

use vstd::prelude::*;

verus! {

/// A structured value, closed over every shape the serializer handles.
///
/// Integers of every width are held as `i64` or `u64`. Floating-point
/// numbers have no shape here; see [`crate::XlsxSerializer::sheet_mut`].
pub enum Value {
    Bool(bool),
    Int(i64),
    UInt(u64),
    Char(char),
    Text(String),
    /// A byte blob. No cell can hold one.
    Bytes(Vec<u8>),
    /// An optional value that is missing.
    Absent,
    /// An optional value that is there.
    Present(Box<Value>),
    Unit,
    /// A unit with a type name.
    NamedUnit(String),
    /// A value wrapped under a type name.
    NamedWrapper(String, Box<Value>),
    /// One alternative of a tagged choice, without content.
    TaggedUnit(String),
    /// One alternative of a tagged choice, with its content.
    TaggedWrapper(String, Box<Value>),
    /// Elements in order: a list, a tuple, the fields of a record.
    Sequence(Vec<Value>),
    /// Keys with their values, in order.
    Keyed(Vec<(Value, Value)>),
}

} // verus!
