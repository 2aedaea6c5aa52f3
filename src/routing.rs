//! The shard router: a seeded hash of a key's UTF-8 bytes, reduced modulo
//! the number of shards. It depends on the key and the seed alone.
use vstd::prelude::*;
use vstd::utf8::encode_utf8;

verus! {

/// Hash values stay below this bound.
pub const HASH_MODULUS: u64 = 4294967296;

/// Multiplier of the polynomial hash.
pub const HASH_FACTOR: u64 = 31;

/// Polynomial hash of `bytes`, started from the seed.
pub open spec fn hash_bytes(bytes: Seq<u8>, seed: u64) -> int
    decreases bytes.len(),
{
    if bytes.len() == 0 {
        seed as int % HASH_MODULUS as int
    } else {
        (hash_bytes(bytes.drop_last(), seed) * HASH_FACTOR + bytes.last()) % HASH_MODULUS as int
    }
}

/// The shard that holds `key` in a store with `n` shards and the given seed.
pub open spec fn shard_of(key: Seq<char>, seed: u64, n: nat) -> int {
    hash_bytes(encode_utf8(key), seed) % n as int
}

/// Computes `shard_of(key, seed, n)`.
pub fn shard_index(key: &String, seed: u64, n: usize) -> (r: usize)
    requires
        n > 0,
    ensures
        r == shard_of(key@, seed, n as nat),
        r < n,
{
    let bytes: &[u8] = key.as_str().as_bytes();
    let mut h: u64 = seed % HASH_MODULUS;
    let mut i: usize = 0;
    while i < bytes.len()
        invariant
            0 <= i <= bytes@.len(),
            bytes@ == encode_utf8(key@),
            h == hash_bytes(bytes@.subrange(0, i as int), seed),
            h < HASH_MODULUS,
        decreases bytes@.len() - i,
    {
        assert(bytes@.subrange(0, i as int + 1).drop_last() =~= bytes@.subrange(0, i as int));
        h = (h * HASH_FACTOR + bytes[i] as u64) % HASH_MODULUS;
        i += 1;
    }
    assert(bytes@.subrange(0, bytes@.len() as int) =~= bytes@);
    (h % (n as u64)) as usize
}

} // verus!
