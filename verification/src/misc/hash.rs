//! A hasher for keys that are hashes already.

use vstd::prelude::*;

verus! {

/// TypeIds are already hashes, so when using a TypeId as a key,
/// there is no point in touching the bits. `TypeIdHasher` holds
/// the inner u64 of the TypeId and returns it untouched.
pub struct TypeIdHasher {
    state: u64,
}

impl TypeIdHasher {
    /// The number that was written last, or zero.
    pub closed spec fn held(&self) -> u64 {
        self.state
    }

    /// Create a hasher that holds zero.
    pub fn new() -> (hasher: Self)
        ensures
            hasher.held() == 0,
    {
        Self { state: 0 }
    }

    /// Take `id` as the hash.
    pub fn write_u64(&mut self, id: u64)
        ensures
            final(self).held() == id,
    {
        self.state = id;
    }

    /// The hash: the number that was written last, untouched.
    pub fn finish(&self) -> (hash: u64)
        ensures
            hash == self.held(),
    {
        self.state
    }
}

impl Default for TypeIdHasher {
    fn default() -> (hasher: Self)
        ensures
            hasher.held() == 0,
    {
        Self { state: 0 }
    }
}

} // verus!
