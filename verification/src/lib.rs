//! A verified secure-payload library for a payment-platform integration.
//!
//! The core is the encryption and signing pipeline: a structured checkout
//! payload is serialized to a tagged binary form, encrypted with AES-192 in
//! CBC mode under a key derived from a shared secret, and Base64-encoded for
//! transport; attestation records are canonicalized and signed with
//! HMAC-SHA512. Plain data models for the surrounding REST and webhook
//! exchange round out the crate.

pub mod bindings;
pub mod canonical;
pub mod cipher;
pub mod pkcs7;
pub mod rest;
pub mod webhook;
pub mod wire;

use vstd::prelude::*;
use vstd::utf8::encode_utf8;
use crate::bindings::{base64_chars, base64_encode, hmac_sha512, spec_hmac_sha512};
use crate::canonical::{append_bytes, append_escaped, json_escape_bytes};
use crate::cipher::{
    spec_decode_blob, spec_derive_key, spec_encode_message, CipherError, CodecError, MessageCipher,
};
use crate::wire::{spec_wire, wire_sizes_ok};

verus! {

/// The structured checkout payload that travels, encrypted, between the
/// merchant and the platform: a timestamp, a client identifier, an optional
/// signature (empty when absent), and an open key/value metadata map kept
/// in insertion order. Every field round-trips byte-exactly through
/// serialize, encrypt, decrypt, deserialize.
#[derive(Clone, Debug, PartialEq)]
pub struct CheckoutPayloadModel {
    pub timestamp: i64,
    pub client_id: String,
    pub sign: String,
    pub metadata: Vec<(String, String)>,
}

/// The mathematical view of a payload record: string fields as character
/// sequences, the metadata map as a sequence of key/value pairs.
#[verifier::ext_equal]
pub struct PayloadView {
    pub timestamp: i64,
    pub client_id: Seq<char>,
    pub sign: Seq<char>,
    pub metadata: Seq<(Seq<char>, Seq<char>)>,
}

impl View for CheckoutPayloadModel {
    type V = PayloadView;

    open spec fn view(&self) -> PayloadView {
        PayloadView {
            timestamp: self.timestamp,
            client_id: self.client_id@,
            sign: self.sign@,
            metadata: Seq::new(
                self.metadata@.len(),
                |i: int| (self.metadata@[i].0@, self.metadata@[i].1@),
            ),
        }
    }
}

impl CheckoutPayloadModel {
    /// Serializes, encrypts (embedded-IV mode) and Base64-encodes this
    /// record under the given shared secret.
    pub fn encrypt(&self, key: &str) -> (r: Result<String, CipherError>)
        requires
            spec_wire(self@).len() + 16 <= usize::MAX,
        ensures
            r is Ok <==> spec_wire(self@).len() >= 16,
            r is Ok ==> r.unwrap()@ == spec_encode_message(self@, key@),
            r is Err ==> r == Err::<String, CipherError>(CipherError::PlaintextTooShort),
    {
        MessageCipher::encrypt(self, key)
    }

    /// Decodes, decrypts and deserializes a message produced by `encrypt`
    /// under the same secret; an exact inverse on everything `encrypt`
    /// produces, and an error on everything that is not such a message
    /// under this secret.
    pub fn try_decrypt(data: &str, key: &str) -> (r: Result<CheckoutPayloadModel, CodecError>)
        ensures
            (forall|blob: Seq<u8>| data@ != base64_chars(blob)) <==> r == Err::<
                CheckoutPayloadModel,
                CodecError,
            >(CodecError::InvalidEncoding),
            forall|blob: Seq<u8>|
                data@ == base64_chars(blob) ==> match spec_decode_blob(blob, key@) {
                    Ok(v) => r is Ok && r.unwrap()@ == v,
                    Err(e) => r == Err::<CheckoutPayloadModel, CodecError>(e),
                },
            forall|v: PayloadView|
                wire_sizes_ok(v) && spec_wire(v).len() >= 16 && data@ == spec_encode_message(
                    v,
                    key@,
                ) ==> r is Ok && r.unwrap()@ == v,
    {
        MessageCipher::decrypt(data, key)
    }
}

/// The attestation record whose canonical JSON form is signed: a decimal
/// amount (kept as its exact number text), an order identifier, and a
/// currency code. Field order in the canonical form is fixed by this
/// declaration.
#[derive(Clone, Debug, PartialEq)]
pub struct CheckoutSign {
    pub amount: String,
    pub order_id: String,
    pub currency: String,
}

/// The view of an attestation record.
#[verifier::ext_equal]
pub struct CheckoutSignView {
    pub amount: Seq<char>,
    pub order_id: Seq<char>,
    pub currency: Seq<char>,
}

impl View for CheckoutSign {
    type V = CheckoutSignView;

    open spec fn view(&self) -> CheckoutSignView {
        CheckoutSignView { amount: self.amount@, order_id: self.order_id@, currency: self.currency@ }
    }
}

/// The canonical JSON bytes of an attestation record: fixed field order,
/// the amount embedded as a bare number, the strings quoted and escaped.
pub open spec fn spec_sign_json(v: CheckoutSignView) -> Seq<u8> {
    encode_utf8("{\"amount\":"@) + encode_utf8(v.amount) + encode_utf8(",\"order_id\":\""@)
        + json_escape_bytes(encode_utf8(v.order_id)) + encode_utf8("\",\"currency\":\""@)
        + json_escape_bytes(encode_utf8(v.currency)) + encode_utf8("\"}"@)
}

/// The signature of a canonical string under a secret: HMAC-SHA512 with the
/// secret's UTF-8 bytes as the key, Base64-encoded.
pub open spec fn spec_sign_str(data: Seq<char>, secret: Seq<char>) -> Seq<char> {
    base64_chars(spec_hmac_sha512(encode_utf8(secret), encode_utf8(data)))
}

/// The signature of an attestation record under a secret.
pub open spec fn spec_generate_sign(v: CheckoutSignView, secret: Seq<char>) -> Seq<char> {
    base64_chars(spec_hmac_sha512(encode_utf8(secret), spec_sign_json(v)))
}

/// Renders an attestation record to its canonical JSON bytes.
pub fn canonical_json(data: &CheckoutSign) -> (r: Vec<u8>)
    ensures
        r@ == spec_sign_json(data@),
{
    let mut out: Vec<u8> = Vec::new();
    append_bytes(&mut out, "{\"amount\":".as_bytes());
    append_bytes(&mut out, data.amount.as_str().as_bytes());
    append_bytes(&mut out, ",\"order_id\":\"".as_bytes());
    append_escaped(&mut out, data.order_id.as_str().as_bytes());
    append_bytes(&mut out, "\",\"currency\":\"".as_bytes());
    append_escaped(&mut out, data.currency.as_str().as_bytes());
    append_bytes(&mut out, "\"}".as_bytes());
    proof {
        assert(out@ =~= spec_sign_json(data@));
    }
    out
}

/// Signs a pre-canonicalized string: HMAC-SHA512 keyed by the shared secret
/// itself (not by a derived key), Base64-encoded. Deterministic: the result
/// is a function of the string and the secret alone.
pub fn sign_str(data: &str, key: &str) -> (r: String)
    ensures
        r@ == spec_sign_str(data@, key@),
{
    let tag = hmac_sha512(key.as_bytes(), data.as_bytes());
    base64_encode(tag.as_slice())
}

/// Signs an attestation record: canonicalizes it, then computes the keyed
/// hash as `sign_str` does. Deterministic: the result is a function of the
/// record's fields and the secret alone.
pub fn generate_sign(data: &CheckoutSign, key: &str) -> (r: String)
    ensures
        r@ == spec_generate_sign(data@, key@),
{
    let json = canonical_json(data);
    let tag = hmac_sha512(key.as_bytes(), json.as_slice());
    base64_encode(tag.as_slice())
}

/// Key determinism: two keys derived from the same secret are equal, since
/// `derive_key` returns exactly `spec_derive_key` of its input.
pub proof fn lemma_derive_key_deterministic(k1: Seq<u8>, k2: Seq<u8>, secret: Seq<char>)
    requires
        k1 == spec_derive_key(secret),
        k2 == spec_derive_key(secret),
    ensures
        k1 == k2,
{
}

/// Signature determinism: two signatures of the same attestation record
/// under the same secret are equal, since `generate_sign` returns exactly
/// `spec_generate_sign` of its inputs.
pub proof fn lemma_sign_deterministic(
    r1: Seq<char>,
    r2: Seq<char>,
    v: CheckoutSignView,
    secret: Seq<char>,
)
    requires
        r1 == spec_generate_sign(v, secret),
        r2 == spec_generate_sign(v, secret),
    ensures
        r1 == r2,
{
}

} // verus!
