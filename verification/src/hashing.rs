//! The hashing primitives, taken on trust from outside crates.
//!
//! SHA-256 comes from the `sha2` crate: the absorbed byte stream of a
//! hasher is named by [`sha_stream`], and the digest of a stream by
//! [`sha256_of`]; the wrappers state how each call moves them. Base64
//! rendering comes from the `base64` crate, against an exact
//! specification of the standard alphabet with padding.

use vstd::prelude::*;

use sha2::Digest;

verus! {

#[verifier::external_type_specification]
#[verifier::external_body]
pub struct ExSha256(sha2::Sha256);

/// The bytes a hasher has absorbed since its creation.
pub uninterp spec fn sha_stream(h: sha2::Sha256) -> Seq<u8>;

/// The SHA-256 digest of a byte stream.
pub uninterp spec fn sha256_of(stream: Seq<u8>) -> Seq<u8>;

/// Relies on `sha2::Sha256::new` (via `sha2::Digest`): a fresh hasher has
/// absorbed nothing.
#[verifier::external_body]
pub(crate) fn sha256_new() -> (h: sha2::Sha256)
    ensures
        sha_stream(h) == Seq::<u8>::empty(),
{
    sha2::Sha256::new()
}

/// Relies on `sha2::Digest::update`: absorbing appends the given bytes to
/// the hashed stream.
#[verifier::external_body]
pub(crate) fn sha256_update(h: &mut sha2::Sha256, bytes: &[u8])
    ensures
        sha_stream(*final(h)) == sha_stream(*old(h)) + bytes@,
{
    h.update(bytes);
}

/// Relies on `sha2::Digest::finalize`: the digest is 32 bytes and is a
/// function of the absorbed stream alone.
#[verifier::external_body]
pub(crate) fn sha256_finalize(h: sha2::Sha256) -> (r: Vec<u8>)
    ensures
        r@ == sha256_of(sha_stream(h)),
        r@.len() == 32,
{
    h.finalize().to_vec()
}

/// The byte of the base64 standard alphabet at index `v`.
pub open spec fn b64_char(v: int) -> u8
    recommends
        0 <= v < 64,
{
    if v < 26 {
        (65 + v) as u8  // 'A'..='Z'
    } else if v < 52 {
        (71 + v) as u8  // 'a'..='z'
    } else if v < 62 {
        (v - 4) as u8  // '0'..='9'
    } else if v == 62 {
        43u8  // '+'
    } else {
        47u8  // '/'
    }
}

/// Standard base64 with `=` padding: each group of three input bytes
/// yields four alphabet bytes; a trailing group of one or two bytes is
/// padded to four with `=` (61).
pub open spec fn base64_of(bytes: Seq<u8>) -> Seq<u8>
    decreases bytes.len(),
{
    if bytes.len() == 0 {
        Seq::empty()
    } else if bytes.len() == 1 {
        seq![b64_char(bytes[0] as int / 4), b64_char((bytes[0] as int % 4) * 16), 61u8, 61u8]
    } else if bytes.len() == 2 {
        seq![
            b64_char(bytes[0] as int / 4),
            b64_char((bytes[0] as int % 4) * 16 + bytes[1] as int / 16),
            b64_char((bytes[1] as int % 16) * 4),
            61u8,
        ]
    } else {
        seq![
            b64_char(bytes[0] as int / 4),
            b64_char((bytes[0] as int % 4) * 16 + bytes[1] as int / 16),
            b64_char((bytes[1] as int % 16) * 4 + bytes[2] as int / 64),
            b64_char(bytes[2] as int % 64),
        ] + base64_of(bytes.skip(3))
    }
}

/// Every byte of a base64 rendering is printable ASCII.
pub proof fn lemma_base64_ascii(bytes: Seq<u8>)
    ensures
        forall|i: int| 0 <= i < base64_of(bytes).len() ==> base64_of(bytes)[i] < 128,
    decreases bytes.len(),
{
    if bytes.len() >= 3 {
        lemma_base64_ascii(bytes.skip(3));
        let r = base64_of(bytes);
        let tail = base64_of(bytes.skip(3));
        assert forall|i: int| 0 <= i < r.len() implies r[i] < 128 by {
            if i >= 4 {
                assert(r[i] == tail[i - 4]);
            }
        }
    }
}

/// A base64 rendering has four bytes for every started group of three
/// input bytes.
pub proof fn lemma_base64_len(bytes: Seq<u8>)
    ensures
        base64_of(bytes).len() == 4 * ((bytes.len() + 2) / 3),
    decreases bytes.len(),
{
    if bytes.len() >= 3 {
        lemma_base64_len(bytes.skip(3));
    }
}

/// Relies on the `base64` crate's `STANDARD` engine, which encodes with
/// the standard alphabet and `=` padding.
#[verifier::external_body]
pub(crate) fn base64_encode(bytes: &[u8]) -> (r: Vec<u8>)
    ensures
        r@ == base64_of(bytes@),
{
    base64::Engine::encode(&base64::engine::general_purpose::STANDARD, bytes).into_bytes()
}

/// The characters of an ASCII byte sequence.
pub open spec fn ascii_chars(bs: Seq<u8>) -> Seq<char> {
    bs.map_values(|b: u8| ((b as u32) as char))
}

/// Relies on `String::from_utf8`: ASCII bytes decode to exactly their own
/// characters.
#[verifier::external_body]
pub(crate) fn string_from_ascii(bytes: Vec<u8>) -> (r: String)
    requires
        forall|i: int| 0 <= i < bytes@.len() ==> bytes@[i] < 128,
    ensures
        r@ == ascii_chars(bytes@),
{
    match String::from_utf8(bytes) {
        Ok(s) => s,
        Err(_) => String::new(),
    }
}

} // verus!
