//! State hasher over xxHash64.
use vstd::prelude::*;

use crate::determinism::{IStateHasher, StateHash};

verus! {

/// The xxHash64 digest of a byte string under a seed.
pub uninterp spec fn xxh64_digest(input: Seq<u8>, seed: u64) -> u64;

/// Calls `xxhash_rust::xxh64::xxh64`, the one-shot xxHash64 of a byte slice
/// under a seed. Claimed: the result is a function of the bytes and the seed
/// alone (`xxh64_digest`); nothing more is said of its value.
#[verifier::external_body]
fn xxh64_one_shot(input: &[u8], seed: u64) -> (r: u64)
    ensures
        r == xxh64_digest(input@, seed),
{
    xxhash_rust::xxh64::xxh64(input, seed)
}

/// State hasher using xxHash64 with seed 0. It keeps the bytes fed since the
/// last reset and digests them when asked.
pub struct XxHasher {
    buffer: Vec<u8>,
}

impl XxHasher {
    pub fn new() -> (r: Self)
        ensures
            r.absorbed() == Seq::<u8>::empty(),
    {
        XxHasher { buffer: Vec::new() }
    }
}

impl Default for XxHasher {
    fn default() -> (r: Self)
        ensures
            r.absorbed() == Seq::<u8>::empty(),
    {
        XxHasher::new()
    }
}

impl IStateHasher for XxHasher {
    closed spec fn absorbed(&self) -> Seq<u8> {
        self.buffer@
    }

    open spec fn digest_of(bytes: Seq<u8>) -> u64 {
        xxh64_digest(bytes, 0)
    }

    fn reset(&mut self) {
        self.buffer = Vec::new();
    }

    fn update(&mut self, data: &[u8]) {
        let mut i: usize = 0;
        let ghost start = self.buffer@;
        while i < data.len()
            invariant
                i <= data@.len(),
                self.buffer@ == start + data@.take(i as int),
            decreases data@.len() - i,
        {
            self.buffer.push(data[i]);
            i = i + 1;
            proof {
                assert(self.buffer@ =~= start + data@.take(i as int));
            }
        }
        proof {
            assert(data@.take(data@.len() as int) =~= data@);
        }
    }

    fn finalize(&self) -> (h: StateHash) {
        StateHash(xxh64_one_shot(self.buffer.as_slice(), 0))
    }
}

} // verus!
