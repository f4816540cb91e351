//! The record stored under each key: a payload and an expiry marker.

use vstd::prelude::*;

verus! {

/// The expiry marker of a record that never expires.
pub const NEVER_EXPIRES: i32 = -1;

/// What a [`Value`] holds, as plain mathematical values.
pub struct Record {
    pub data: Seq<char>,
    pub ttl: i32,
}

/// A payload together with the instant at which it expires, in seconds since
/// the store's clock was started. A negative `ttl` means that the record
/// never expires.
#[derive(Debug, Clone, PartialEq)]
pub struct Value {
    pub data: String,
    pub ttl: i32,
}

impl View for Value {
    type V = Record;

    open spec fn view(&self) -> Record {
        Record { data: self.data@, ttl: self.ttl }
    }
}

impl Value {
    /// Builds a record; without an expiry it never expires.
    pub fn new(data: String, ttl: Option<i32>) -> (v: Self)
        ensures
            v.data == data,
            v.ttl == (match ttl {
                Some(t) => t,
                None => NEVER_EXPIRES,
            }),
    {
        let ttl: i32 = match ttl {
            Some(t) => t,
            None => NEVER_EXPIRES,
        };
        Self { data, ttl }
    }

    /// The payload.
    pub fn data(&self) -> (d: &String)
        ensures
            d == &self.data,
    {
        &self.data
    }

    /// The expiry marker.
    pub fn ttl(&self) -> (t: i32)
        ensures
            t == self.ttl,
    {
        self.ttl
    }
}

} // verus!
