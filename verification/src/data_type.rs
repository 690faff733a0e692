//! The kinds of value that a key can hold.

use vstd::prelude::*;

verus! {

/// The kind of value that is stored at a key.
#[derive(Debug, Clone, Copy, PartialEq, Eq)]
pub enum DataType {
    /// A string of bytes.
    String,
    /// A list.
    List,
    /// A set without an order.
    PlainSet,
    /// A sorted set.
    ZSet,
    /// A hash.
    Hash,
    /// A stream.
    Stream,
}

} // verus!
