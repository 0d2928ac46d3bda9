//! Content identifiers: BLAKE3 digests written in lowercase hexadecimal.
use vstd::prelude::*;
use crate::text::push_char;

verus! {

/// The BLAKE3 digest (32 bytes) of `input`.
pub uninterp spec fn blake3_digest(input: Seq<u8>) -> Seq<u8>;

/// Calls `blake3::hash` and hands out the raw bytes of the digest.
///
/// Trusted: the digest is the one `blake3::hash` computes for these bytes, and a
/// BLAKE3 `Hash` holds `OUT_LEN` = 32 bytes.
#[verifier::external_body]
fn blake3_hash(input: &[u8]) -> (digest: [u8; 32])
    ensures
        digest@ == blake3_digest(input@),
        digest@.len() == 32,
{
    *blake3::hash(input).as_bytes()
}

/// Lowercase hexadecimal digit for a nibble.
pub open spec fn hex_digit(n: nat) -> char {
    if n < 10 {
        crate::text::digit_char(n)
    } else if n == 10 { 'a' } else if n == 11 { 'b' } else if n == 12 { 'c' }
    else if n == 13 { 'd' } else if n == 14 { 'e' } else { 'f' }
}

/// Lowercase hexadecimal notation of a byte string, two digits per byte, high
/// nibble first (what `blake3::Hash::to_hex` writes).
pub open spec fn hex_lower(bytes: Seq<u8>) -> Seq<char>
    decreases bytes.len(),
{
    if bytes.len() == 0 {
        seq![]
    } else {
        hex_lower(bytes.drop_last()) + seq![
            hex_digit((bytes.last() / 16) as nat),
            hex_digit((bytes.last() % 16) as nat),
        ]
    }
}

fn nibble_char(n: u8) -> (c: char)
    requires
        n < 16,
    ensures
        c == hex_digit(n as nat),
{
    if n < 10 {
        crate::text::digit(n as u64)
    } else if n == 10 { 'a' } else if n == 11 { 'b' } else if n == 12 { 'c' }
    else if n == 13 { 'd' } else if n == 14 { 'e' } else { 'f' }
}

/// Writes `bytes` in lowercase hexadecimal.
pub fn to_hex(bytes: &[u8]) -> (s: String)
    ensures
        s@ == hex_lower(bytes@),
        s@.len() == 2 * bytes@.len(),
{
    let mut s = String::new();
    let mut i: usize = 0;
    while i < bytes.len()
        invariant
            i <= bytes@.len(),
            s@ == hex_lower(bytes@.subrange(0, i as int)),
            s@.len() == 2 * i,
        decreases bytes@.len() - i,
    {
        let b: u8 = bytes[i];
        push_char(&mut s, nibble_char(b / 16));
        push_char(&mut s, nibble_char(b % 16));
        proof {
            let next = bytes@.subrange(0, i + 1);
            assert(next.drop_last() =~= bytes@.subrange(0, i as int));
            assert(next.last() == b);
        }
        i = i + 1;
    }
    assert(bytes@.subrange(0, bytes@.len() as int) =~= bytes@);
    s
}

/// The identifier of content with the given bytes: its BLAKE3 digest in
/// lowercase hexadecimal.
pub open spec fn spec_content_id(bytes: Seq<u8>) -> Seq<char> {
    hex_lower(blake3_digest(bytes))
}

/// Hashes `bytes` with BLAKE3 and writes the digest in lowercase hexadecimal
/// (what `blake3::hash(bytes).to_string()` gives).
pub fn content_id(bytes: &[u8]) -> (id: String)
    ensures
        id@ == spec_content_id(bytes@),
        id@.len() == 64,
{
    let digest = blake3_hash(bytes);
    to_hex(&digest)
}

} // verus!
