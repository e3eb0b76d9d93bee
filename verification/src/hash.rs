//! Hashing of keys: the `Hash` capability and the 64-bit MurmurHash2 variant
//! that is the same on big-endian and little-endian machines.

use vstd::prelude::*;

verus! {

/// The multiplier of MurmurHash2's 64-bit variant.
pub const MURMUR_MULTIPLIER: u64 = 0xc6a4a7935bd1e995;

/// The right shift of MurmurHash2's 64-bit variant.
pub const MURMUR_SHIFT: u64 = 47;

/// The seed with which byte strings are hashed.
pub const BYTES_SEED: u64 = 0xcae4f57;

/// A key that can be hashed to a machine word.
///
/// The hash of a key is a function of the key alone: implementations return
/// `spec_hash` of the key on every call.
pub trait Hash {
    /// The hash of this key.
    spec fn spec_hash(&self) -> usize;

    fn hash(&self) -> (h: usize)
        ensures
            h == self.spec_hash(),
    ;
}

/// The eight bytes of `key` from `at` on, read as a little-endian word.
pub open spec fn word_le(key: Seq<u8>, at: int) -> u64 {
    (key[at] as u64) | (key[at + 1] as u64) << 8 | (key[at + 2] as u64) << 16 | (key[at
        + 3] as u64) << 24 | (key[at + 4] as u64) << 32 | (key[at + 5] as u64) << 40 | (key[at
        + 6] as u64) << 48 | (key[at + 7] as u64) << 56
}

/// The state `h` after the word `k` has been mixed into it.
pub open spec fn mix_word(h: u64, k: u64) -> u64 {
    let k1 = k.wrapping_mul(MURMUR_MULTIPLIER);
    let k2 = k1 ^ (k1 >> MURMUR_SHIFT);
    let k3 = k2.wrapping_mul(MURMUR_MULTIPLIER);
    (h ^ k3).wrapping_mul(MURMUR_MULTIPLIER)
}

/// The state `h` after the first `blocks` eight-byte words of `key` have been
/// mixed into it, in order.
pub open spec fn mix_blocks(key: Seq<u8>, h: u64, blocks: nat) -> u64
    decreases blocks,
{
    if blocks == 0 {
        h
    } else {
        mix_word(mix_blocks(key, h, (blocks - 1) as nat), word_le(key, 8 * (blocks - 1)))
    }
}

/// The state `h` after the `n` bytes of `key` from `end` on have been folded
/// into it, the byte at offset `j` shifted left by `8 * j` bits.
pub open spec fn mix_tail(key: Seq<u8>, end: int, h: u64, n: nat) -> u64
    decreases n,
{
    if n == 0 {
        h
    } else {
        let top = (key[end + n - 1] as u64) << ((8 * (n - 1)) as u64);
        mix_tail(key, end, h ^ top, (n - 1) as nat)
    }
}

/// The final avalanche of the state `h`.
pub open spec fn avalanche(h: u64) -> u64 {
    let h1 = h ^ (h >> MURMUR_SHIFT);
    let h2 = h1.wrapping_mul(MURMUR_MULTIPLIER);
    h2 ^ (h2 >> MURMUR_SHIFT)
}

/// MurmurHash2, 64-bit variant, of `key` with `seed`: the length is mixed into
/// the seed, then every full eight-byte word, then the remaining bytes, and
/// the state is avalanched.
pub open spec fn murmur_hash(key: Seq<u8>, seed: u64) -> u64 {
    let blocks = key.len() / 8;
    let rest = key.len() % 8;
    let h0 = seed ^ (key.len() as u64).wrapping_mul(MURMUR_MULTIPLIER);
    let h1 = mix_blocks(key, h0, blocks);
    let h2 = if rest == 0 {
        h1
    } else {
        mix_tail(key, 8 * (blocks as int), h1, rest).wrapping_mul(MURMUR_MULTIPLIER)
    };
    avalanche(h2)
}

/// Hashes `key` with `seed`.
pub fn murmur_hash_64a(key: &[u8], seed: u64) -> (hash: u64)
    ensures
        hash == murmur_hash(key@, seed),
{
    let m: u64 = MURMUR_MULTIPLIER;
    let r: u64 = MURMUR_SHIFT;
    let mut h: u64 = seed ^ ((key.len() as u64).wrapping_mul(m));
    let mut i: usize = 0;
    let len: usize = key.len() & 7;
    let total: usize = key.len();
    assert(total & 7 == total % 8) by (bit_vector);
    let end: usize = key.len() - len;

    while i < end
        invariant
            end == 8 * (key@.len() / 8),
            i <= end,
            i % 8 == 0,
            m == MURMUR_MULTIPLIER,
            r == MURMUR_SHIFT,
            h == mix_blocks(
                key@,
                seed ^ (key@.len() as u64).wrapping_mul(MURMUR_MULTIPLIER),
                (i / 8) as nat,
            ),
        decreases end - i,
    {
        let mut k: u64 = key[i] as u64;
        k |= (key[i + 1] as u64) << 8;
        k |= (key[i + 2] as u64) << 16;
        k |= (key[i + 3] as u64) << 24;
        k |= (key[i + 4] as u64) << 32;
        k |= (key[i + 5] as u64) << 40;
        k |= (key[i + 6] as u64) << 48;
        k |= (key[i + 7] as u64) << 56;
        assert(k == word_le(key@, i as int));

        k = k.wrapping_mul(m);
        k ^= k >> r;
        k = k.wrapping_mul(m);
        h ^= k;
        h = h.wrapping_mul(m);
        i += 8;
    }

    if len != 0 {
        let ghost h1 = h;
        let mut j: usize = 0;
        while j < len
            invariant
                j <= len,
                0 < len < 8,
                end + len == total == key@.len(),
                mix_tail(key@, end as int, h, (len - j) as nat) == mix_tail(
                    key@,
                    end as int,
                    h1,
                    len as nat,
                ),
            decreases len - j,
        {
            let idx: usize = len - j - 1;
            let shift: u64 = 8 * (idx as u64);
            h ^= (key[end + idx] as u64) << shift;
            j += 1;
        }
        h = h.wrapping_mul(m);
    }
    h ^= h >> r;
    h = h.wrapping_mul(m);
    h ^= h >> r;
    h
}

impl Hash for &[u8] {
    open spec fn spec_hash(&self) -> usize {
        murmur_hash(self@, BYTES_SEED) as usize
    }

    /// The MurmurHash2 of the bytes, cut to a machine word.
    fn hash(&self) -> (h: usize) {
        #[verifier::truncate]
        (murmur_hash_64a(self, BYTES_SEED) as usize)
    }
}

impl Hash for i32 {
    open spec fn spec_hash(&self) -> usize {
        *self as usize
    }

    /// The integer itself, sign-extended to a machine word.
    fn hash(&self) -> (h: usize) {
        #[verifier::truncate]
        (*self as usize)
    }
}

} // verus!
