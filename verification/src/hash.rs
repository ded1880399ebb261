//! The archive's path hash: the sole join key between directory-listing
//! names and the index decoded from the header.
//!
//! The hash is an FNV-1a variant over the uppercased path: starting from
//! 2166136261, each byte first multiplies the accumulator by 1677619
//! (wrapping) and is then XORed in. Letters are folded to upper case
//! byte by byte, so the hash is ASCII-case-insensitive.

use vstd::prelude::*;
use vstd::string::StringSliceAdditionalSpecFns;

verus! {

/// A byte folded to upper case: ASCII lowercase letters lose 0x20,
/// every other byte is unchanged.
pub open spec fn upper_byte(b: u8) -> u8 {
    if 0x61 <= b <= 0x7a {
        (b - 0x20) as u8
    } else {
        b
    }
}

/// A byte string folded to upper case byte by byte.
pub open spec fn upper_bytes(s: Seq<u8>) -> Seq<u8> {
    s.map_values(|b: u8| upper_byte(b))
}

/// One step of the hash: wrapping-multiply the accumulator by 1677619,
/// then XOR in the byte.
pub open spec fn hash_step(acc: u32, b: u8) -> u32 {
    acc.wrapping_mul(1677619) ^ (b as u32)
}

/// The hash accumulated over `s`, starting from `acc`.
pub open spec fn hash_from(acc: u32, s: Seq<u8>) -> u32
    decreases s.len(),
{
    if s.len() == 0 {
        acc
    } else {
        hash_from(hash_step(acc, s[0]), s.drop_first())
    }
}

/// The path hash of a byte string: the FNV-1a variant over its
/// uppercased bytes, seeded with 2166136261.
pub open spec fn path_hash(s: Seq<u8>) -> u32 {
    hash_from(2166136261u32, upper_bytes(s))
}

/// The path hash of a byte slice.
pub fn hash_bytes(data: &[u8]) -> (h: u32)
    ensures
        h == path_hash(data@),
{
    let ghost u = upper_bytes(data@);
    let mut acc: u32 = 2166136261;
    let mut i: usize = 0;
    proof {
        assert(u.skip(0) =~= u);
    }
    while i < data.len()
        invariant
            i <= data@.len(),
            u == upper_bytes(data@),
            path_hash(data@) == hash_from(acc, u.skip(i as int)),
        decreases data@.len() - i,
    {
        let b: u8 = data[i];
        let ub: u8 = if 0x61 <= b && b <= 0x7a {
            b - 0x20
        } else {
            b
        };
        proof {
            assert(u.skip(i as int)[0] == upper_byte(data@[i as int]));
            assert(u.skip(i as int).drop_first() =~= u.skip(i as int + 1));
        }
        acc = acc.wrapping_mul(1677619) ^ (ub as u32);
        i = i + 1;
    }
    proof {
        assert(u.skip(data@.len() as int) =~= Seq::<u8>::empty());
    }
    acc
}

/// The path hash of a string, over its UTF-8 bytes.
pub fn hash(data: &str) -> (h: u32)
    ensures
        h == path_hash(data.spec_bytes()),
{
    hash_bytes(data.as_bytes())
}

/// The hash ignores ASCII case: byte strings equal up to case fold hash
/// alike. With the hash a spec function, determinism is inherent.
pub proof fn lemma_path_hash_case_insensitive(a: Seq<u8>, b: Seq<u8>)
    requires
        upper_bytes(a) == upper_bytes(b),
    ensures
        path_hash(a) == path_hash(b),
{
}

/// Folding case is idempotent: a byte string hashes like its uppercased
/// form.
pub proof fn lemma_path_hash_upper(s: Seq<u8>)
    ensures
        path_hash(upper_bytes(s)) == path_hash(s),
{
    assert(upper_bytes(upper_bytes(s)) =~= upper_bytes(s));
}

} // verus!
