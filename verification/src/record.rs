//! The immutable value shapes a client ships: a single record, and a batch
//! ("forward") of entries under one tag.

use vstd::prelude::*;
use crate::event_time::TimestampValue;

verus! {

/// The payload attached to a record: a structured value the wire formats can
/// carry. Applications with richer payloads convert them into this shape
/// before handing them to the client.
#[derive(Debug, Clone, PartialEq)]
pub enum Value {
    /// The absent value.
    Null,
    /// A truth value.
    Boolean(bool),
    /// A signed 64-bit integer.
    Integer(i64),
    /// A piece of text.
    Text(String),
    /// An object of named text fields, in insertion order.
    Object(Vec<(String, String)>),
}

/// A single-entry record shape: one tag, one timestamp, one payload.
#[derive(Debug, Clone, PartialEq)]
pub struct Record {
    pub tag: String,
    pub time: TimestampValue,
    pub data: Value,
}

impl Record {
    /// Pair a tag and a timestamp with a payload.
    pub fn new(tag: String, time: TimestampValue, data: Value) -> (r: Record)
        ensures
            r.tag == tag,
            r.time == time,
            r.data == data,
    {
        Record { tag, time, data }
    }
}

/// One element of a batch: a timestamp and its payload.
pub type Entry = (TimestampValue, Value);

/// The batch ("forward") shape: an ordered sequence of entries under a single
/// tag, with optional trailing metadata. An empty sequence is legal.
#[derive(Debug, Clone, PartialEq)]
pub struct Forward {
    pub tag: String,
    pub entries: Vec<Entry>,
    pub options: Option<Vec<(String, String)>>,
}

impl Forward {
    /// A batch without trailing metadata.
    pub fn new(tag: String, entries: Vec<Entry>) -> (f: Forward)
        ensures
            f.tag == tag,
            f.entries == entries,
            f.options is None,
    {
        Forward { tag, entries, options: None }
    }

    /// A batch with trailing metadata.
    pub fn with_options(tag: String, entries: Vec<Entry>, options: Vec<(String, String)>) -> (f:
        Forward)
        ensures
            f.tag == tag,
            f.entries == entries,
            f.options == Some(options),
    {
        Forward { tag, entries, options: Some(options) }
    }
}

} // verus!
