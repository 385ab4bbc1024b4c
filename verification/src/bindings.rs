//! Trusted bindings to the outside crates that supply the cryptographic
//! primitives: SHA-512 and HMAC-SHA512 digests, the AES-192-CBC block
//! cipher, Base64 text coding, and UTF-8 decoding from `std`.
//!
//! Each result that has no short mathematical statement is given an
//! uninterpreted name; the contracts here state only what the crates'
//! sources and documentation show, and everything downstream is proved
//! from these contracts alone.

use vstd::prelude::*;
use vstd::utf8::{encode_utf8, valid_utf8};
use sha2::Digest;

verus! {

/// `s` cut or zero-extended to exactly `n` bytes. The primitives below all
/// return outputs of a length fixed by their inputs; stating their results
/// through `fit_len` makes that length part of the definition.
pub open spec fn fit_len(s: Seq<u8>, n: nat) -> Seq<u8> {
    Seq::new(n, |i: int| if 0 <= i < s.len() { s[i] } else { 0u8 })
}

pub uninterp spec fn sha512_raw(data: Seq<u8>) -> Seq<u8>;

/// The 64-byte SHA-512 digest of `data`.
pub open spec fn spec_sha512(data: Seq<u8>) -> Seq<u8> {
    fit_len(sha512_raw(data), 64)
}

pub uninterp spec fn hmac_sha512_raw(key: Seq<u8>, msg: Seq<u8>) -> Seq<u8>;

/// The 64-byte HMAC-SHA512 tag over `msg` under `key`.
pub open spec fn spec_hmac_sha512(key: Seq<u8>, msg: Seq<u8>) -> Seq<u8> {
    fit_len(hmac_sha512_raw(key, msg), 64)
}

pub uninterp spec fn aes192_cbc_enc_raw(key: Seq<u8>, iv: Seq<u8>, data: Seq<u8>) -> Seq<u8>;

/// AES-192-CBC encryption of block-aligned `data`: output length equals the
/// input length (no padding at this layer).
pub open spec fn spec_aes192_cbc_enc(key: Seq<u8>, iv: Seq<u8>, data: Seq<u8>) -> Seq<u8> {
    fit_len(aes192_cbc_enc_raw(key, iv, data), data.len())
}

pub uninterp spec fn aes192_cbc_dec_raw(key: Seq<u8>, iv: Seq<u8>, data: Seq<u8>) -> Seq<u8>;

/// AES-192-CBC decryption of block-aligned `data`: output length equals the
/// input length.
pub open spec fn spec_aes192_cbc_dec(key: Seq<u8>, iv: Seq<u8>, data: Seq<u8>) -> Seq<u8> {
    fit_len(aes192_cbc_dec_raw(key, iv, data), data.len())
}

pub uninterp spec fn base64_chars(data: Seq<u8>) -> Seq<char>;

/// Relies on `sha2::Sha512` through `Digest::digest`: the digest is 64 bytes
/// and a function of the input bytes alone.
#[verifier::external_body]
pub(crate) fn sha512(data: &[u8]) -> (r: Vec<u8>)
    ensures
        r@ == fit_len(sha512_raw(data@), 64),
{
    sha2::Sha512::digest(data).to_vec()
}

/// Relies on `ring::hmac` with `HMAC_SHA512` (`Key::new` then `sign`): the
/// tag is 64 bytes and a function of key and message alone.
#[verifier::external_body]
pub(crate) fn hmac_sha512(key: &[u8], msg: &[u8]) -> (r: Vec<u8>)
    ensures
        r@ == fit_len(hmac_sha512_raw(key@, msg@), 64),
{
    let k = ring::hmac::Key::new(ring::hmac::HMAC_SHA512, key);
    ring::hmac::sign(&k, msg).as_ref().to_vec()
}

/// Relies on `libaes::Cipher::new_192` and `cbc_encrypt` with automatic
/// padding switched off: on block-aligned input the output is the CBC
/// ciphertext, of the same length, a function of key, IV and data alone.
#[verifier::external_body]
pub(crate) fn aes192_cbc_encrypt(key: &[u8], iv: &[u8], data: &[u8]) -> (r: Vec<u8>)
    requires
        key@.len() == 24,
        iv@.len() == 16,
        data@.len() % 16 == 0,
    ensures
        r@ == fit_len(aes192_cbc_enc_raw(key@, iv@, data@), data@.len()),
{
    let mut k = [0u8; 24];
    k.copy_from_slice(key);
    let mut cipher = libaes::Cipher::new_192(&k);
    cipher.set_auto_padding(false);
    cipher.cbc_encrypt(iv, data)
}

/// Relies on `libaes::Cipher::new_192` and `cbc_decrypt` with automatic
/// padding switched off: on block-aligned input the output has the input's
/// length, CBC decryption inverts CBC encryption under the same key and IV,
/// and encrypting the output gives back the input.
#[verifier::external_body]
pub(crate) fn aes192_cbc_decrypt(key: &[u8], iv: &[u8], data: &[u8]) -> (r: Vec<u8>)
    requires
        key@.len() == 24,
        iv@.len() == 16,
        data@.len() % 16 == 0,
    ensures
        r@ == fit_len(aes192_cbc_dec_raw(key@, iv@, data@), data@.len()),
        spec_aes192_cbc_enc(key@, iv@, r@) == data@,
        forall|pt: Seq<u8>|
            pt.len() % 16 == 0 && data@ == spec_aes192_cbc_enc(key@, iv@, pt) ==> r@ == pt,
{
    let mut k = [0u8; 24];
    k.copy_from_slice(key);
    let mut cipher = libaes::Cipher::new_192(&k);
    cipher.set_auto_padding(false);
    cipher.cbc_decrypt(iv, data)
}

/// Relies on `base64::engine::general_purpose::STANDARD` (RFC 4648 alphabet
/// with `=` padding): encoding is a function of the bytes alone.
#[verifier::external_body]
pub(crate) fn base64_encode(data: &[u8]) -> (r: String)
    ensures
        r@ == base64_chars(data@),
{
    base64::Engine::encode(&base64::engine::general_purpose::STANDARD, data)
}

/// Relies on `base64::engine::general_purpose::STANDARD` decoding, which
/// requires canonical padding and rejects non-zero trailing bits: it accepts
/// exactly the canonical encodings, and inverts encoding.
#[verifier::external_body]
pub(crate) fn base64_decode(text: &str) -> (r: Option<Vec<u8>>)
    ensures
        r is Some ==> text@ == base64_chars(r.unwrap()@),
        forall|b: Seq<u8>| text@ == base64_chars(b) ==> r is Some && r.unwrap()@ == b,
{
    match base64::Engine::decode(&base64::engine::general_purpose::STANDARD, text) {
        Ok(v) => Some(v),
        Err(_) => None,
    }
}

/// Relies on `String::from_utf8`: it succeeds exactly on valid UTF-8 and
/// returns the string whose UTF-8 encoding is the input.
#[verifier::external_body]
pub(crate) fn bytes_to_string(data: Vec<u8>) -> (r: Option<String>)
    ensures
        r is Some <==> valid_utf8(data@),
        r is Some ==> encode_utf8(r.unwrap()@) == data@,
{
    match String::from_utf8(data) {
        Ok(s) => Some(s),
        Err(_) => None,
    }
}

} // verus!
