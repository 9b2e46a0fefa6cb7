//! The records an attribute server hosts, and the values that queries on
//! them take and return.

use vstd::prelude::*;
use crate::uuid::AttUuid;

verus! {

/// One addressable record of the attribute table.
///
/// `handle` identifies the record; 0 is reserved and names no record.
#[derive(Debug)]
pub struct Attribute {
    pub handle: u16,
    pub att_type: AttUuid,
    pub value: Vec<u8>,
}

/// What an [`Attribute`] is, with its value as a sequence of bytes.
pub struct AttributeView {
    pub handle: u16,
    pub att_type: AttUuid,
    pub value: Seq<u8>,
}

impl View for Attribute {
    type V = AttributeView;

    open spec fn view(&self) -> AttributeView {
        AttributeView { handle: self.handle, att_type: self.att_type, value: self.value@ }
    }
}

/// Inclusive range of handles that scopes a query. A range whose start lies
/// above its end holds no handle.
#[derive(Clone, Copy, Debug)]
pub struct HandleRange {
    pub start: u16,
    pub end: u16,
}

impl HandleRange {
    /// The range from `start` to `end`, both included.
    pub fn new(start: u16, end: u16) -> (range: HandleRange)
        ensures
            range.start == start,
            range.end == end,
    {
        HandleRange { start, end }
    }

    /// Whether `handle` lies in the range.
    pub open spec fn spec_contains(self, handle: u16) -> bool {
        self.start <= handle && handle <= self.end
    }

    /// Whether `handle` lies in the range.
    #[verifier::when_used_as_spec(spec_contains)]
    pub fn contains(self, handle: u16) -> (r: bool)
        ensures
            r == self.spec_contains(handle),
    {
        self.start <= handle && handle <= self.end
    }
}

/// What a client may do with an attribute.
#[derive(Clone, Copy, Debug, PartialEq, Eq, Structural)]
pub enum AccessRight {
    ReadOnly,
    ReadWrite,
}

/// Why a visitor ended a range query before its last attribute.
#[derive(Clone, Copy, Debug, PartialEq, Eq, Structural)]
pub enum QueryError {
    /// A length was invalid or too short.
    InvalidLength,
    /// A field held an invalid value.
    InvalidValue,
    /// The response buffer is full.
    Eof,
    /// Input was left over.
    IncompleteParse,
}

/// Why a write was refused.
#[derive(Clone, Copy, Debug, PartialEq, Eq, Structural)]
pub enum WriteError {
    /// The payload was empty.
    InvalidLength,
    /// The handle is not that of the writable attribute.
    Unwritable,
}

} // verus!
