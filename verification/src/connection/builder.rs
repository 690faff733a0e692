//! Builders for commands that take many keys with their values.

use vstd::prelude::*;
use vstd::slice::slice_to_vec;
use crate::value::byte_strings;

verus! {

/// The keys and values of a command that sets many keys at once.
#[derive(Debug, Clone, PartialEq, Eq)]
pub struct MSetBuilder {
    inner: Vec<Vec<u8>>,
}

impl View for MSetBuilder {
    type V = Seq<Seq<u8>>;

    /// Each key followed by its value, in the order in which they were
    /// given.
    closed spec fn view(&self) -> Seq<Seq<u8>> {
        byte_strings(self.inner@)
    }
}

impl MSetBuilder {
    /// A builder without keys.
    pub fn new() -> (builder: MSetBuilder)
        ensures
            builder@ == Seq::<Seq<u8>>::empty(),
    {
        let builder = MSetBuilder { inner: Vec::new() };
        builder
    }

    /// A builder without keys, with room for `capacity` keys and their
    /// values where the allocator can give that much; where it cannot, the
    /// builder starts without room and grows as keys are added.
    pub fn with_capacity(capacity: usize) -> (builder: MSetBuilder)
        ensures
            builder@ == Seq::<Seq<u8>>::empty(),
    {
        let room: usize = if capacity <= usize::MAX / 2 {
            capacity * 2
        } else {
            capacity
        };
        let mut inner: Vec<Vec<u8>> = Vec::new();
        let _ = inner.try_reserve(room);
        let builder = MSetBuilder { inner };
        builder
    }

    /// This builder with `key` set to `value`, after the keys given before.
    pub fn set(self, key: &[u8], value: &[u8]) -> (builder: MSetBuilder)
        ensures
            builder@ == self@.push(key@).push(value@),
    {
        let mut builder = self;
        builder.append(key, value);
        builder
    }

    /// Sets `key` to `value`, after the keys given before.
    pub fn append(&mut self, key: &[u8], value: &[u8])
        ensures
            final(self)@ == old(self)@.push(key@).push(value@),
    {
        self.inner.push(slice_to_vec(key));
        self.inner.push(slice_to_vec(value));
    }

    /// The keys and values, each key followed by its value.
    pub fn pairs(&self) -> (pairs: &[Vec<u8>])
        ensures
            byte_strings(pairs@) == self@,
    {
        self.inner.as_slice()
    }
}

} // verus!
