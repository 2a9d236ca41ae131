//! Cryptographic primitives and encodings: randomness, HMAC-SHA256,
//! PBKDF2-HMAC-SHA256, constant-time comparison and base64.

use vstd::prelude::*;
use crate::error::AuthError;

verus! {

#[verifier::external_type_specification]
#[verifier::external_body]
pub struct ExRingUnspecified(ring::error::Unspecified);

#[verifier::external_type_specification]
#[verifier::external_body]
pub struct ExBase64DecodeError(base64::DecodeError);

/// Inputs this long or longer are beyond what the hash functions accept.
pub open spec fn within_input_limit(len: int) -> bool {
    len < 0x1000_0000_0000_0000 && len <= usize::MAX / 2
}

/// Whether a buffer of `len` bytes may be hashed or encoded.
pub fn input_len_ok(len: usize) -> (r: bool)
    ensures
        r == within_input_limit(len as int),
{
    (len as u64) < 0x1000_0000_0000_0000u64 && len <= usize::MAX / 2
}

/// A character of the standard base64 alphabet or its padding.
pub open spec fn is_base64_standard_char(c: char) -> bool {
    ('A' <= c <= 'Z') || ('a' <= c <= 'z') || ('0' <= c <= '9') || c == '+' || c == '/' || c == '='
}

/// A character of the URL-safe base64 alphabet.
pub open spec fn is_base64_url_char(c: char) -> bool {
    ('A' <= c <= 'Z') || ('a' <= c <= 'z') || ('0' <= c <= '9') || c == '-' || c == '_'
}

/// The standard padded base64 text of `bytes`.
pub uninterp spec fn base64_standard(bytes: Seq<u8>) -> Seq<char>;

/// The bytes that standard padded base64 text decodes to, if it is valid.
pub uninterp spec fn base64_standard_decoded(text: Seq<char>) -> Option<Seq<u8>>;

/// The URL-safe unpadded base64 text of `bytes`.
pub uninterp spec fn base64_url(bytes: Seq<u8>) -> Seq<char>;

/// The bytes that URL-safe unpadded base64 text decodes to, if it is valid.
pub uninterp spec fn base64_url_decoded(text: Seq<char>) -> Option<Seq<u8>>;

/// The HMAC-SHA256 tag of `data` under `key`.
pub uninterp spec fn hmac_sha256(key: Seq<u8>, data: Seq<u8>) -> Seq<u8>;

/// The 32-byte PBKDF2-HMAC-SHA256 key derived from `secret` and `salt`.
pub uninterp spec fn pbkdf2_hmac_sha256(iterations: u32, salt: Seq<u8>, secret: Seq<u8>) -> Seq<u8>;

/// Fills `buf` from the operating system's secure random source with
/// `ring::rand::SecureRandom::fill` on `ring::rand::SystemRandom`. Claims only
/// that the length of `buf` is kept.
#[verifier::external_body]
fn system_random_fill(buf: &mut Vec<u8>) -> (r: Result<(), ring::error::Unspecified>)
    ensures
        final(buf)@.len() == old(buf)@.len(),
{
    ring::rand::SecureRandom::fill(&ring::rand::SystemRandom::new(), buf.as_mut_slice())
}

/// `len` bytes from the secure random source.
pub fn random_bytes(len: usize) -> (r: Result<Vec<u8>, AuthError>)
    ensures
        match r {
            Ok(v) => v@.len() == len,
            Err(e) => e is Crypto,
        },
{
    let mut buf: Vec<u8> = Vec::new();
    let mut i: usize = 0;
    while i < len
        invariant
            buf@.len() == i,
            i <= len,
        decreases len - i,
    {
        buf.push(0u8);
        i += 1;
    }
    match system_random_fill(&mut buf) {
        Ok(()) => Ok(buf),
        Err(_) => Err(AuthError::Crypto(String::from_str("ring operation failed"))),
    }
}

/// A random identifier: `len` random bytes in URL-safe unpadded base64.
pub fn random_id(len: usize) -> (r: Result<String, AuthError>)
    requires
        within_input_limit(len as int),
    ensures
        match r {
            Ok(s) => s@.len() == (4 * len + 2) / 3 && exists|b: Seq<u8>| b.len() == len && s@ == base64_url(b),
            Err(e) => e is Crypto,
        },
{
    let bytes = random_bytes(len)?;
    Ok(encode_base64_url(bytes.as_slice()))
}

/// Encodes with `base64::engine::general_purpose::STANDARD`. Claims that the
/// text is [`base64_standard`] of the input, four characters for each started
/// group of three bytes (the padded length of `base64::encoded_len`), uses
/// only that alphabet, and decodes back to the input.
#[verifier::external_body]
pub fn encode_base64_standard(bytes: &[u8]) -> (r: String)
    requires
        within_input_limit(bytes@.len() as int),
    ensures
        r@ == base64_standard(bytes@),
        r@.len() == 4 * ((bytes@.len() + 2) / 3),
        forall|i: int| 0 <= i < r@.len() ==> is_base64_standard_char(#[trigger] r@[i]),
        base64_standard_decoded(r@) == Some(bytes@),
{
    base64::Engine::encode(&base64::engine::general_purpose::STANDARD, bytes)
}

/// Decodes with `base64::engine::general_purpose::STANDARD`. Claims that the
/// result is [`base64_standard_decoded`] of the text, an error exactly when
/// that is none, and no more bytes than the text has characters.
#[verifier::external_body]
pub fn decode_base64_standard(text: &str) -> (r: Result<Vec<u8>, base64::DecodeError>)
    ensures
        match r {
            Ok(v) => base64_standard_decoded(text@) == Some(v@) && v@.len() <= text@.len(),
            Err(_) => base64_standard_decoded(text@) is None,
        },
{
    base64::Engine::decode(&base64::engine::general_purpose::STANDARD, text)
}

/// Encodes with `base64::engine::general_purpose::URL_SAFE_NO_PAD`. Claims that
/// the text is [`base64_url`] of the input, with one character for each
/// started six bits (the unpadded length of `base64::encoded_len`), uses only
/// that alphabet, and decodes back to the input.
#[verifier::external_body]
pub fn encode_base64_url(bytes: &[u8]) -> (r: String)
    requires
        within_input_limit(bytes@.len() as int),
    ensures
        r@ == base64_url(bytes@),
        r@.len() == (4 * bytes@.len() + 2) / 3,
        forall|i: int| 0 <= i < r@.len() ==> is_base64_url_char(#[trigger] r@[i]),
        base64_url_decoded(r@) == Some(bytes@),
{
    base64::Engine::encode(&base64::engine::general_purpose::URL_SAFE_NO_PAD, bytes)
}

/// Decodes with `base64::engine::general_purpose::URL_SAFE_NO_PAD`. Claims that
/// the result is [`base64_url_decoded`] of the text, an error exactly when that
/// is none, and no more bytes than the text has characters.
#[verifier::external_body]
pub fn decode_base64_url(text: &str) -> (r: Result<Vec<u8>, base64::DecodeError>)
    ensures
        match r {
            Ok(v) => base64_url_decoded(text@) == Some(v@) && v@.len() <= text@.len(),
            Err(_) => base64_url_decoded(text@) is None,
        },
{
    base64::Engine::decode(&base64::engine::general_purpose::URL_SAFE_NO_PAD, text)
}

/// Signs with `ring::hmac::sign` under a `ring::hmac::Key` made from `key` for
/// `HMAC_SHA256`. Claims that the tag is [`hmac_sha256`] of key and data.
#[verifier::external_body]
pub fn hmac_sign(key: &[u8], data: &[u8]) -> (r: Vec<u8>)
    requires
        within_input_limit(key@.len() as int),
        within_input_limit(data@.len() as int),
    ensures
        r@ == hmac_sha256(key@, data@),
        r@.len() == 32,
{
    let k = ring::hmac::Key::new(ring::hmac::HMAC_SHA256, key);
    ring::hmac::sign(&k, data).as_ref().to_vec()
}

/// Checks a tag with `ring::hmac::verify` under a `ring::hmac::Key` made from
/// `key` for `HMAC_SHA256`. Claims that, for data within the input limit, it
/// accepts exactly the tag [`hmac_sha256`] of key and data; nothing is
/// claimed for longer data.
#[verifier::external_body]
pub fn hmac_check(key: &[u8], data: &[u8], tag: &[u8]) -> (r: bool)
    requires
        within_input_limit(key@.len() as int),
    ensures
        within_input_limit(data@.len() as int) ==> (r == (tag@ == hmac_sha256(key@, data@))),
{
    let k = ring::hmac::Key::new(ring::hmac::HMAC_SHA256, key);
    ring::hmac::verify(&k, data, tag).is_ok()
}

/// Derives a 32-byte key with `ring::pbkdf2::derive` and
/// `PBKDF2_HMAC_SHA256`. Claims that the key is [`pbkdf2_hmac_sha256`] of the
/// arguments.
#[verifier::external_body]
pub fn pbkdf2_derive(iterations: u32, salt: &[u8], secret: &[u8]) -> (r: Vec<u8>)
    requires
        iterations > 0,
        within_input_limit(salt@.len() as int),
        within_input_limit(secret@.len() as int),
    ensures
        r@ == pbkdf2_hmac_sha256(iterations, salt@, secret@),
        r@.len() == 32,
{
    let mut out = [0u8; 32];
    let n = std::num::NonZeroU32::new(iterations).unwrap();
    ring::pbkdf2::derive(ring::pbkdf2::PBKDF2_HMAC_SHA256, n, salt, secret, &mut out);
    out.to_vec()
}

/// Compares with `subtle::ConstantTimeEq::ct_eq` on byte slices, in time that
/// does not depend on the contents. Claims that the answer is whether the
/// slices are equal.
#[verifier::external_body]
pub fn constant_time_eq(a: &[u8], b: &[u8]) -> (r: bool)
    ensures
        r == (a@ == b@),
{
    bool::from(subtle::ConstantTimeEq::ct_eq(a, b))
}

} // verus!
