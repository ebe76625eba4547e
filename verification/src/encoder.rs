//! The hashed token under which the local part of an address is published:
//! the SHA-1 digest of its UTF-8 bytes, written in Z-Base-32.

use sequoia_openpgp::types::HashAlgorithm;
use vstd::arithmetic::power2::pow2;
use vstd::prelude::*;
use vstd::utf8::encode_utf8;

verus! {

/// The digest that the OpenPGP library's SHA-1 context yields for `data`.
///
/// The library hashes with collision detection: on input that carries a known
/// collision attack the digest differs from plain SHA-1, on all other input it
/// is the SHA-1 digest.
pub uninterp spec fn sha1_digest(data: Seq<u8>) -> Seq<u8>;

/// The Z-Base-32 alphabet, the digit of value 0 first.
pub open spec fn zbase32_alphabet() -> Seq<char> {
    seq![
        'y', 'b', 'n', 'd', 'r', 'f', 'g', '8', 'e', 'j', 'k', 'm', 'c', 'p', 'q', 'x',
        'o', 't', '1', 'u', 'w', 'i', 's', 'z', 'a', '3', '4', '5', 'h', '7', '6', '9',
    ]
}

/// Bit `i` of `data`, counted from the most significant bit of the first byte.
/// Bits at `bits` and beyond count as zero.
pub open spec fn bit_at(data: Seq<u8>, bits: int, i: int) -> int {
    if 0 <= i < bits && i / 8 < data.len() {
        (data[i / 8] as int / pow2((7 - i % 8) as nat) as int) % 2
    } else {
        0
    }
}

/// The value of the `g`-th group of five bits of `data`.
pub open spec fn quintet(data: Seq<u8>, bits: int, g: int) -> int {
    16 * bit_at(data, bits, 5 * g) + 8 * bit_at(data, bits, 5 * g + 1) + 4 * bit_at(
        data,
        bits,
        5 * g + 2,
    ) + 2 * bit_at(data, bits, 5 * g + 3) + bit_at(data, bits, 5 * g + 4)
}

/// The first `bits` bits of `data` in Z-Base-32: one digit for each group of
/// five bits, the last group padded with zero bits.
pub open spec fn zbase32_text(data: Seq<u8>, bits: int) -> Seq<char> {
    Seq::new(((bits + 4) / 5) as nat, |g: int| zbase32_alphabet()[quintet(data, bits, g)])
}

/// The token of a local part: its SHA-1 digest, all 160 bits, in Z-Base-32.
pub open spec fn local_part_token(local_part: Seq<char>) -> Seq<char> {
    zbase32_text(sha1_digest(encode_utf8(local_part)), 160)
}

/// Hashes `data` with a `HashAlgorithm::SHA1` context of the OpenPGP library.
/// The context writes all 20 bytes of its digest, also where it reports a
/// detected collision.
#[verifier::external_body]
fn sha1(data: &[u8]) -> (digest: Vec<u8>)
    ensures
        digest@ == sha1_digest(data@),
        digest@.len() == 20,
{
    let mut digest = vec![0u8; 20];
    let mut ctx = HashAlgorithm::SHA1.context().expect("must be implemented").for_digest();
    ctx.update(data);
    let _ = ctx.digest(&mut digest);
    digest
}

/// Calls `zbase32::encode`, which writes the first `bits` bits of `data` with
/// the alphabet above and panics where `data` is shorter than `bits` bits.
#[verifier::external_body]
fn zbase32_encode(data: &[u8], bits: u64) -> (text: String)
    requires
        bits <= 8 * data@.len(),
    ensures
        text@ == zbase32_text(data@, bits as int),
{
    zbase32::encode(data, bits)
}

/// Returns the 32-character token of the local part of an address.
pub fn encode_local_part(local_part: &str) -> (token: String)
    ensures
        token@ == local_part_token(local_part@),
        token@.len() == 32,
        sha1_digest(encode_utf8(local_part@)).len() == 20,
{
    let digest = sha1(local_part.as_bytes());
    // 20 bytes are 160 bits, which fill 32 digits of five bits each.
    zbase32_encode(digest.as_slice(), 160)
}

} // verus!
