//! The fixed hash behind the hashing trick.
//!
//! Bucket assignment must be identical across processes and platforms, so the
//! buckets a persisted model was trained against stay valid. The hash is
//! therefore a fixed seeded multiply-xor fold over the string's characters,
//! defined here and proved against its own specification.

use vstd::prelude::*;

verus! {

/// The seed the character fold starts from.
pub const HASH_SEED: u64 = 0xcbf2_9ce4_8422_2325;

/// The odd multiplier applied after each character.
pub const HASH_PRIME: u64 = 0x0000_0100_0000_01b3;

/// One step of the fold: mix one character into the running hash.
pub open spec fn hash_step(h: u64, c: char) -> u64 {
    ((((h ^ ((c as u32) as u64)) as int) * (HASH_PRIME as int)) % 0x1_0000_0000_0000_0000) as u64
}

/// The hash of a character sequence: the seed folded through every character.
pub open spec fn hash_chars(s: Seq<char>) -> u64
    decreases s.len(),
{
    if s.len() == 0 {
        HASH_SEED
    } else {
        hash_step(hash_chars(s.drop_last()), s.last())
    }
}

/// The bucket a string falls into among `width` buckets.
pub open spec fn spec_bucket(s: Seq<char>, width: int) -> int
    recommends
        width >= 1,
{
    (hash_chars(s) as int) % width
}

/// Computes the hash of a string's characters.
pub fn hash_str(s: &str) -> (h: u64)
    ensures
        h == hash_chars(s@),
{
    let n: usize = s.unicode_len();
    let mut h: u64 = HASH_SEED;
    let mut i: usize = 0;
    while i < n
        invariant
            i <= n,
            n == s@.len(),
            h == hash_chars(s@.take(i as int)),
        decreases n - i,
    {
        let c = s.get_char(i);
        let x: u64 = h ^ ((c as u32) as u64);
        let wide: u128 = (x as u128) * (HASH_PRIME as u128);
        let next: u64 = (wide % 0x1_0000_0000_0000_0000u128) as u64;
        proof {
            assert(s@.take(i + 1).drop_last() =~= s@.take(i as int));
            assert(s@.take(i + 1).last() == s@[i as int]);
            assert(hash_step(h, s@[i as int]) == next);
        }
        h = next;
        i = i + 1;
    }
    proof {
        assert(s@.take(n as int) =~= s@);
    }
    h
}

/// Computes a string's bucket among `width` buckets.
pub fn bucket(s: &str, width: usize) -> (b: usize)
    requires
        width >= 1,
    ensures
        b as int == spec_bucket(s@, width as int),
        b < width,
{
    let h = hash_str(s);
    let m: u64 = h % (width as u64);
    m as usize
}

} // verus!
