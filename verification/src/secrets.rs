//! Keys: random ones, and wiping them from memory.
use vstd::prelude::*;

use rand::RngCore;
use zeroize::Zeroize;

verus! {

/// Wipes bytes and empties the vector, by `zeroize::Zeroize::zeroize` on
/// `Vec<u8>`, which overwrites elements and spare capacity with zeros and then
/// sets the length to 0. Of the overwriting only the new length can be said.
#[verifier::external_body]
pub(crate) fn wipe_bytes(bytes: &mut Vec<u8>)
    ensures
        final(bytes)@ == Seq::<u8>::empty(),
{
    bytes.zeroize();
}

/// Wipes a key, by `zeroize::Zeroize::zeroize` on an array, which sets every
/// byte to 0.
#[verifier::external_body]
pub(crate) fn wipe_key(key: &mut [u8; 32])
    ensures
        final(key)@ == Seq::new(32, |i: int| 0u8),
{
    key.zeroize();
}

/// Wipes a text and empties it, by `zeroize::Zeroize::zeroize` on `String`,
/// which does to its bytes what it does to a vector.
#[verifier::external_body]
pub(crate) fn wipe_text(text: &mut String)
    ensures
        final(text)@ == Seq::<char>::empty(),
{
    text.zeroize();
}

/// Bytes of the operating system's random number generator, by
/// `rand::RngCore::fill_bytes` on `rand::rngs::OsRng`. Which bytes come is left
/// to chance; there are `n` of them.
#[verifier::external_body]
fn random_bytes(n: usize) -> (bytes: Vec<u8>)
    ensures
        bytes@.len() == n,
{
    let mut bytes = vec![0u8; n];
    rand::rngs::OsRng.fill_bytes(&mut bytes);
    bytes
}

/// Thirty-two bytes as a key.
pub fn key_from(bytes: &[u8]) -> (r: Option<[u8; 32]>)
    ensures
        r is Some <==> bytes@.len() == 32,
        r matches Some(k) ==> k@ == bytes@,
{
    if bytes.len() != 32 {
        return None;
    }
    let mut key: [u8; 32] = [0u8;32];
    let mut i: usize = 0;
    while i < 32
        invariant
            i <= 32,
            bytes@.len() == 32,
            forall|k: int| 0 <= k < i ==> key@[k] == bytes@[k],
        decreases 32 - i,
    {
        key[i] = bytes[i];
        i = i + 1;
    }
    assert(key@ =~= bytes@);
    Some(key)
}

/// A new random key.
pub fn random_key() -> (key: [u8; 32]) {
    let mut bytes = random_bytes(32);
    let key = key_from(bytes.as_slice());
    wipe_bytes(&mut bytes);
    match key {
        Some(k) => k,
        None => [0u8;32],
    }
}

/// The key that two keys combine to: byte by byte, the bits in which they
/// differ.
pub open spec fn combined(a: Seq<u8>, b: Seq<u8>) -> Seq<u8> {
    Seq::new(a.len(), |i: int| a[i] ^ b[i])
}

/// Combines two keys: both are needed to get the result.
pub fn combine_keys(a: &[u8; 32], b: &[u8; 32]) -> (key: [u8; 32])
    ensures
        key@ == combined(a@, b@),
{
    let mut key: [u8; 32] = [0u8;32];
    let mut i: usize = 0;
    while i < 32
        invariant
            i <= 32,
            forall|k: int| 0 <= k < i ==> key@[k] == a@[k] ^ b@[k],
        decreases 32 - i,
    {
        key[i] = a[i] ^ b[i];
        i = i + 1;
    }
    assert(key@ =~= combined(a@, b@));
    key
}

/// Who knows the combined key and one of the two knows the other.
pub proof fn law_combining_is_undone(a: Seq<u8>, b: Seq<u8>)
    requires
        a.len() == b.len(),
    ensures
        combined(combined(a, b), b) == a,
        combined(combined(a, b), a) == b,
        combined(a, b) == combined(b, a),
{
    assert forall|i: int| 0 <= i < a.len() implies (#[trigger] a[i] ^ b[i]) ^ b[i] == a[i] && (a[i]
        ^ b[i]) ^ a[i] == b[i] && a[i] ^ b[i] == b[i] ^ a[i] by {
        let x = a[i];
        let y = b[i];
        assert((x ^ y) ^ y == x && (x ^ y) ^ x == y && x ^ y == y ^ x) by (bit_vector);
    }
    assert(combined(combined(a, b), b) =~= a);
    assert(combined(combined(a, b), a) =~= b);
    assert(combined(a, b) =~= combined(b, a));
}

/// The number that eight bytes stand for, least significant first.
pub open spec fn le64(b: Seq<u8>) -> int {
    b[0] + 0x100 * b[1] + 0x10000 * b[2] + 0x1000000 * b[3] + 0x100000000 * b[4] + 0x10000000000
        * b[5] + 0x1000000000000 * b[6] + 0x100000000000000 * b[7]
}

pub(crate) fn number_from(b: &[u8]) -> (n: u64)
    requires
        b@.len() == 8,
    ensures
        n == le64(b@),
{
    let lo: u64 = b[0] as u64 + 0x100 * (b[1] as u64) + 0x10000 * (b[2] as u64) + 0x1000000 * (
    b[3] as u64);
    let hi: u64 = b[4] as u64 + 0x100 * (b[5] as u64) + 0x10000 * (b[6] as u64) + 0x1000000 * (
    b[7] as u64);
    lo + 0x100000000 * hi
}

/// A random number.
pub fn random_number() -> (n: u64) {
    let bytes = random_bytes(8);
    number_from(bytes.as_slice())
}

/// Where one key is all zeros the other comes out; two equal keys give zeros.
pub proof fn law_zeros_change_no_key(a: Seq<u8>)
    ensures
        combined(a, Seq::new(a.len(), |i: int| 0u8)) == a,
        combined(a, a) == Seq::new(a.len(), |i: int| 0u8),
{
    let zeros = Seq::new(a.len(), |i: int| 0u8);
    assert forall|i: int| 0 <= i < a.len() implies #[trigger] a[i] ^ 0u8 == a[i] && a[i] ^ a[i]
        == 0u8 by {
        let x = a[i];
        assert(x ^ 0u8 == x && x ^ x == 0u8) by (bit_vector);
    }
    assert(combined(a, zeros) =~= a);
    assert(combined(a, a) =~= zeros);
}

} // verus!
