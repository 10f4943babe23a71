//! The cryptographic functions that the exchange is built from.

use base64::Engine;
use ring::rand::SecureRandom;
use ring::rand::SystemRandom;
use sha2::Digest;
use vstd::prelude::*;
use vstd::string::*;
use vstd::utf8::*;

verus! {

#[verifier::external_type_specification]
#[verifier::external_body]
pub struct ExSystemRandom(ring::rand::SystemRandom);

/// The key that PBKDF2 with HMAC-SHA-256 derives, 32 bytes long.
pub uninterp spec fn pbkdf2_key(password: Seq<u8>, salt: Seq<u8>, iterations: u32) -> Seq<u8>;

/// The HMAC-SHA-256 tag of a message.
pub uninterp spec fn hmac_tag(key: Seq<u8>, message: Seq<u8>) -> Seq<u8>;

/// The SHA-256 digest of some bytes.
pub uninterp spec fn sha256_digest(data: Seq<u8>) -> Seq<u8>;

/// The standard base64 text of some bytes, with padding.
pub uninterp spec fn base64_text(data: Seq<u8>) -> Seq<char>;

/// The bytes of a standard base64 text; `None` where it is none.
pub uninterp spec fn base64_bytes(text: Seq<char>) -> Option<Seq<u8>>;

/// The greatest length of an input to the digest functions, far beyond what a
/// machine can hold.
pub open spec fn digestible(len: nat) -> bool {
    len <= 0x0800_0000_0000_0000
}

/// `ring::pbkdf2::derive` with HMAC-SHA-256 and 32 bytes of output. The key is
/// a function of the password, the salt and the number of iterations.
#[verifier::external_body]
pub(crate) fn derive_key(password: &[u8], salt: &[u8], iterations: u32) -> (r: [u8; 32])
    requires
        iterations > 0,
        digestible(password@.len()),
        digestible(salt@.len()),
    ensures
        r@ == pbkdf2_key(password@, salt@, iterations),
{
    let mut out: [u8; 32] = [0u8; 32];
    let iterations = std::num::NonZeroU32::new(iterations).unwrap();
    ring::pbkdf2::derive(ring::pbkdf2::PBKDF2_HMAC_SHA256, iterations, salt, password, &mut out);
    out
}

/// `ring::hmac::sign` with HMAC-SHA-256. The tag is a function of the key and
/// the message.
#[verifier::external_body]
pub(crate) fn hmac_sha256(key: &[u8], message: &[u8]) -> (r: [u8; 32])
    requires
        digestible(key@.len()),
        digestible(message@.len()),
    ensures
        r@ == hmac_tag(key@, message@),
{
    let key = ring::hmac::Key::new(ring::hmac::HMAC_SHA256, key);
    let tag = ring::hmac::sign(&key, message);
    let mut out: [u8; 32] = [0u8; 32];
    out.copy_from_slice(tag.as_ref());
    out
}

/// `sha2::Sha256`. The digest is a function of the data.
#[verifier::external_body]
pub(crate) fn sha256(data: &[u8]) -> (r: [u8; 32])
    ensures
        r@ == sha256_digest(data@),
{
    let mut hasher = sha2::Sha256::new();
    hasher.update(data);
    hasher.finalize().into()
}

/// `base64::engine::general_purpose::STANDARD.encode`: four characters of ASCII
/// for each three bytes begun. Decoding the text gives the bytes back.
#[verifier::external_body]
pub(crate) fn base64_encode(data: &[u8]) -> (r: String)
    requires
        digestible(data@.len()),
    ensures
        r@ == base64_text(data@),
        encode_utf8(r@).len() == (data@.len() + 2) / 3 * 4,
        base64_bytes(r@) == Some(data@),
{
    base64::engine::general_purpose::STANDARD.encode(data)
}

/// `base64::engine::general_purpose::STANDARD.decode`. The bytes are a function
/// of the text.
#[verifier::external_body]
pub(crate) fn base64_decode(text: &str) -> (r: Option<Vec<u8>>)
    ensures
        r is Some <==> base64_bytes(text@) is Some,
        r is Some ==> base64_bytes(text@) == Some(r->0@),
{
    base64::engine::general_purpose::STANDARD.decode(text).ok()
}

/// `ring::rand::SystemRandom::new`: a handle on the system's random numbers.
pub assume_specification[ ring::rand::SystemRandom::new ]() -> ring::rand::SystemRandom
;

/// `SystemRandom::fill` on `n` bytes, which may fail. Nothing is promised of
/// the bytes. A vector holds at most `isize::MAX` of them.
#[verifier::external_body]
pub(crate) fn random_bytes(rng: &SystemRandom, n: usize) -> (r: Option<Vec<u8>>)
    requires
        n <= isize::MAX,
    ensures
        r is Some ==> r->0@.len() == n,
{
    let mut bytes: Vec<u8> = vec![0u8; n];
    rng.fill(&mut bytes).ok()?;
    Some(bytes)
}

/// `std::str::from_utf8`: the text that the bytes encode, where they are valid
/// UTF-8.
#[verifier::external_body]
pub(crate) fn utf8_text(bytes: &[u8]) -> (r: Option<String>)
    ensures
        r is Some <==> valid_utf8(bytes@),
        r is Some ==> r->0@ == decode_utf8(bytes@),
{
    std::str::from_utf8(bytes).ok().map(|text| text.to_owned())
}

} // verus!
