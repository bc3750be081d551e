use vstd::prelude::*;

verus! {

/// The value side of a record: an owned, opaque byte sequence.
pub type ValueT = Vec<u8>;

/// An owned key/value record. A `Pair` is pure data: once constructed it is
/// owned exclusively by the bucket slot that holds it.
#[derive(Debug, Clone, PartialEq)]
pub struct Pair<K: PartialEq + Clone> {
    pub key: K,
    pub value: ValueT,
}

impl<K: PartialEq + Clone> Pair<K> {
    pub fn new(key: K, value: ValueT) -> (r: Self)
        ensures
            r.key == key,
            r.value == value,
    {
        Pair { key, value }
    }
}

} // verus!
