//! Content fingerprints: what the change detector compares.
//!
//! A fingerprint is the BLAKE3 digest of a file's bytes, written in
//! hexadecimal. It serves equality comparison only.

use crate::hex::{encode, hex_chars};
use vstd::prelude::*;

verus! {

/// The 32-byte BLAKE3 digest of `input`, as `blake3::hash` computes it.
pub uninterp spec fn blake3_digest(input: Seq<u8>) -> Seq<u8>;

/// Calls `blake3::hash`. Trusted: the digest depends on the input bytes
/// alone and is 32 bytes long (`blake3::OUT_LEN`).
#[verifier::external_body]
fn digest(input: &[u8]) -> (out: Vec<u8>)
    ensures
        out@ == blake3_digest(input@),
        out@.len() == 32,
{
    blake3::hash(input).as_bytes().to_vec()
}

/// The fingerprint of a byte string: its digest in 64 hexadecimal digits.
pub open spec fn fingerprint_of(bytes: Seq<u8>) -> Seq<char> {
    hex_chars(blake3_digest(bytes))
}

/// Computes the fingerprint of `bytes`. The result is a function of the
/// bytes alone: equal inputs have equal fingerprints, whenever and however
/// often they are asked for.
pub fn fingerprint(bytes: &[u8]) -> (print: String)
    ensures
        print@ == fingerprint_of(bytes@),
        print@.len() == 64,
{
    let raw: Vec<u8> = digest(bytes);
    encode(raw.as_slice())
}

} // verus!
