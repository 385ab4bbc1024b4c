//! The byte-level block cipher: AES-192 in CBC mode under a key derived
//! from a shared secret, in two modes.
//!
//! In explicit-IV mode the caller supplies the 16-byte IV. In embedded-IV
//! mode the first 16 bytes of the plaintext itself serve as the IV and are
//! prepended to the ciphertext, so the blob is self-describing. Reusing
//! plaintext bytes as the IV is a deliberate wire-compatibility choice:
//! identical plaintexts give identical ciphertexts, so callers must not
//! rely on ciphertext indistinguishability across repeated encryptions.

use vstd::prelude::*;
use vstd::slice::{slice_subrange, slice_to_vec};
use vstd::utf8::encode_utf8;
use crate::bindings::{
    aes192_cbc_decrypt, aes192_cbc_encrypt, sha512, spec_aes192_cbc_dec, spec_aes192_cbc_enc,
    spec_sha512,
};
use crate::pkcs7::{
    lemma_pad_aligned, lemma_unpad_canonical, lemma_unpad_pad, pad_amount, pad_block, spec_pad,
    spec_unpad, unpad_block,
};
use crate::bindings::{base64_chars, base64_decode, base64_encode};
use crate::wire::{
    decode_record, encode_record, lemma_parse_record_wire, spec_parse_record, spec_wire,
    wire_sizes_ok,
};
use crate::{CheckoutPayloadModel, PayloadView};

verus! {

/// Failures of the byte-level cipher.
#[derive(Clone, Copy, Debug, PartialEq, Eq, Structural)]
pub enum CipherError {
    /// Embedded-IV encryption needs at least 16 bytes of plaintext to form the IV.
    PlaintextTooShort,
    /// An embedded-IV blob must hold at least the 16 IV bytes.
    BlobTooShort,
    /// The derived key held fewer than 24 bytes; checked defensively, it
    /// cannot occur with a key from `derive_key`.
    InvalidKeyLength,
    /// The ciphertext length is not a multiple of the block size.
    InvalidLength,
    /// The decrypted buffer does not end in valid padding.
    InvalidPadding,
}

/// The symmetric key of a secret: the first 24 bytes of the SHA-512 digest
/// of the secret's UTF-8 bytes.
pub open spec fn spec_derive_key(secret: Seq<char>) -> Seq<u8> {
    spec_sha512(encode_utf8(secret)).take(24)
}

/// Derives the 24-byte AES-192 key from a shared secret. Deterministic:
/// the result is a function of the secret alone.
pub fn derive_key(secret: &str) -> (r: Vec<u8>)
    ensures
        r@ == spec_derive_key(secret@),
        r@.len() == 24,
{
    let mut h = sha512(secret.as_bytes());
    h.truncate(24);
    proof {
        assert(h@ =~= spec_derive_key(secret@));
    }
    h
}

/// Explicit-IV encryption: PKCS#7 padding, then CBC under the derived key.
pub open spec fn spec_encrypt_with_iv(data: Seq<u8>, secret: Seq<char>, iv: Seq<u8>) -> Seq<u8> {
    spec_aes192_cbc_enc(spec_derive_key(secret), iv, spec_pad(data))
}

/// Explicit-IV decryption: CBC under the derived key, then strict unpadding;
/// `None` on a misaligned or badly padded buffer.
pub open spec fn spec_decrypt_with_iv(data: Seq<u8>, secret: Seq<char>, iv: Seq<u8>) -> Option<
    Seq<u8>,
> {
    if data.len() % 16 != 0 {
        None
    } else {
        spec_unpad(spec_aes192_cbc_dec(spec_derive_key(secret), iv, data))
    }
}

/// Embedded-IV encryption: the first 16 plaintext bytes serve as the IV and
/// are prepended to the ciphertext of the whole plaintext.
pub open spec fn spec_embedded_encrypt(data: Seq<u8>, secret: Seq<char>) -> Seq<u8> {
    data.take(16) + spec_encrypt_with_iv(data, secret, data.take(16))
}

/// Embedded-IV decryption: split off the 16 IV bytes, then decrypt the rest.
pub open spec fn spec_embedded_decrypt(data: Seq<u8>, secret: Seq<char>) -> Option<Seq<u8>> {
    if data.len() < 16 {
        None
    } else {
        spec_decrypt_with_iv(data.skip(16), secret, data.take(16))
    }
}

/// The embedded-IV trade-off, stated openly: because the IV is the first
/// plaintext block rather than random, the first 16 bytes of every
/// embedded-IV blob are the first 16 plaintext bytes in the clear, and
/// identical plaintexts give identical blobs. Callers must not rely on
/// ciphertext indistinguishability in this mode.
pub proof fn lemma_embedded_prefix_leak(data: Seq<u8>, secret: Seq<char>)
    requires
        data.len() >= 16,
    ensures
        spec_embedded_encrypt(data, secret).take(16) == data.take(16),
{
    assert(spec_embedded_encrypt(data, secret).take(16) =~= data.take(16));
}

/// AES-192-CBC over raw byte buffers, with the key derived from a shared
/// secret string per call.
pub struct AesCipher;

impl AesCipher {
    /// Encrypts `src` under the key derived from `key`, using `iv` verbatim.
    pub fn encrypt_with_iv(src: &[u8], key: &str, iv: &[u8]) -> (r: Vec<u8>)
        requires
            iv@.len() == 16,
            src@.len() + 16 <= usize::MAX,
        ensures
            r@ == spec_encrypt_with_iv(src@, key@, iv@),
            r@.len() == src@.len() + pad_amount(src@.len()),
            r@.len() % 16 == 0,
    {
        let k = derive_key(key);
        let padded = pad_block(src);
        proof {
            lemma_pad_aligned(src@);
        }
        aes192_cbc_encrypt(k.as_slice(), iv, padded.as_slice())
    }

    /// Decrypts `src` under the key derived from `key`, using `iv` verbatim,
    /// and removes the padding. Returns `InvalidLength` on a misaligned
    /// buffer and `InvalidPadding` on bad padding; on success the input is
    /// exactly the encryption of the result, and every encryption of a
    /// plaintext under this key and IV decrypts back to that plaintext.
    pub fn decrypt_with_iv(src: &[u8], key: &str, iv: &[u8]) -> (r: Result<Vec<u8>, CipherError>)
        requires
            iv@.len() == 16,
        ensures
            r is Ok <==> spec_decrypt_with_iv(src@, key@, iv@) is Some,
            r is Ok ==> r.unwrap()@ == spec_decrypt_with_iv(src@, key@, iv@).unwrap(),
            r is Ok ==> src@ == spec_encrypt_with_iv(r.unwrap()@, key@, iv@),
            src@.len() % 16 != 0 <==> r == Err::<Vec<u8>, CipherError>(CipherError::InvalidLength),
            src@.len() % 16 == 0 && spec_decrypt_with_iv(src@, key@, iv@) is None <==> r == Err::<
                Vec<u8>,
                CipherError,
            >(CipherError::InvalidPadding),
            forall|p: Seq<u8>|
                src@ == spec_encrypt_with_iv(p, key@, iv@) ==> r is Ok && r.unwrap()@ == p,
    {
        let k = derive_key(key);
        if k.len() < 24 {
            return Err(CipherError::InvalidKeyLength);
        }
        if src.len() % 16 != 0 {
            proof {
                assert forall|p: Seq<u8>| src@ == spec_encrypt_with_iv(
                    p,
                    key@,
                    iv@,
                ) implies false by {
                    lemma_pad_aligned(p);
                }
            }
            return Err(CipherError::InvalidLength);
        }
        let raw = aes192_cbc_decrypt(k.as_slice(), iv, src);
        match unpad_block(raw.as_slice()) {
            Some(v) => {
                proof {
                    lemma_unpad_canonical(raw@, v@);
                    assert forall|p: Seq<u8>| src@ == spec_encrypt_with_iv(
                        p,
                        key@,
                        iv@,
                    ) implies v@ == p by {
                        lemma_pad_aligned(p);
                        assert(raw@ == spec_pad(p));
                        lemma_unpad_pad(p);
                    }
                }
                Ok(v)
            },
            None => {
                proof {
                    assert forall|p: Seq<u8>| src@ == spec_encrypt_with_iv(
                        p,
                        key@,
                        iv@,
                    ) implies false by {
                        lemma_pad_aligned(p);
                        assert(raw@ == spec_pad(p));
                        lemma_unpad_pad(p);
                    }
                }
                Err(CipherError::InvalidPadding)
            },
        }
    }

    /// Embedded-IV encryption: fails with `PlaintextTooShort` exactly when
    /// the plaintext holds fewer than the 16 bytes needed to form the IV.
    pub fn encrypt(src: &[u8], key: &str) -> (r: Result<Vec<u8>, CipherError>)
        requires
            src@.len() + 16 <= usize::MAX,
        ensures
            r is Ok <==> src@.len() >= 16,
            src@.len() < 16 ==> r == Err::<Vec<u8>, CipherError>(CipherError::PlaintextTooShort),
            r is Ok ==> r.unwrap()@ == spec_embedded_encrypt(src@, key@),
            r is Ok ==> r.unwrap()@.len() == 16 + src@.len() + pad_amount(src@.len()),
    {
        if src.len() < 16 {
            return Err(CipherError::PlaintextTooShort);
        }
        let iv = slice_subrange(src, 0, 16);
        let ct = Self::encrypt_with_iv(src, key, iv);
        let mut out = slice_to_vec(iv);
        let mut ct = ct;
        out.append(&mut ct);
        proof {
            assert(iv@ == src@.take(16));
            assert(out@ == spec_embedded_encrypt(src@, key@));
        }
        Ok(out)
    }

    /// Embedded-IV decryption: splits off the IV prefix and decrypts the
    /// rest. On success the blob is exactly an embedded-IV encryption of the
    /// result, and every embedded-IV encryption of a plaintext under this
    /// key decrypts back to that plaintext.
    pub fn decrypt(src: &[u8], key: &str) -> (r: Result<Vec<u8>, CipherError>)
        ensures
            r is Ok <==> spec_embedded_decrypt(src@, key@) is Some,
            r is Ok ==> r.unwrap()@ == spec_embedded_decrypt(src@, key@).unwrap(),
            r is Ok ==> src@ == src@.take(16) + spec_encrypt_with_iv(
                r.unwrap()@,
                key@,
                src@.take(16),
            ),
            src@.len() < 16 <==> r == Err::<Vec<u8>, CipherError>(CipherError::BlobTooShort),
            src@.len() >= 16 && src@.skip(16).len() % 16 != 0 <==> r == Err::<
                Vec<u8>,
                CipherError,
            >(CipherError::InvalidLength),
            src@.len() >= 16 && src@.skip(16).len() % 16 == 0 && spec_embedded_decrypt(src@, key@)
                is None <==> r == Err::<Vec<u8>, CipherError>(CipherError::InvalidPadding),
            forall|p: Seq<u8>|
                p.len() >= 16 && src@ == spec_embedded_encrypt(p, key@) ==> r is Ok
                    && r.unwrap()@ == p,
    {
        if src.len() < 16 {
            proof {
                assert forall|p: Seq<u8>|
                    p.len() >= 16 && src@ == spec_embedded_encrypt(p, key@) implies false by {
                    lemma_pad_aligned(p);
                }
            }
            return Err(CipherError::BlobTooShort);
        }
        let iv = slice_subrange(src, 0, 16);
        let ct = slice_subrange(src, 16, src.len());
        let r = Self::decrypt_with_iv(ct, key, iv);
        proof {
            assert(iv@ == src@.take(16));
            assert(ct@ == src@.skip(16));
            if r is Ok {
                assert(src@ =~= src@.take(16) + src@.skip(16));
            }
            assert forall|p: Seq<u8>|
                p.len() >= 16 && src@ == spec_embedded_encrypt(p, key@) implies r is Ok
                && r.unwrap()@ == p by {
                assert(src@.take(16) =~= p.take(16));
                assert(src@.skip(16) =~= spec_encrypt_with_iv(p, key@, p.take(16)));
            }
        }
        match r {
            Ok(v) => Ok(v),
            Err(e) => Err(e),
        }
    }
}

/// Failures of the record-level codec.
#[derive(Clone, Copy, Debug, PartialEq, Eq, Structural)]
pub enum CodecError {
    /// The message is not a canonical Base64 string.
    InvalidEncoding,
    /// The ciphertext could not be decrypted; wraps the byte-level failure.
    DecryptionFailed(CipherError),
    /// The decrypted bytes are not the canonical serialization of a record.
    MalformedRecord,
}

/// The encoded message of a record under a secret, embedded-IV mode.
pub open spec fn spec_encode_message(v: PayloadView, secret: Seq<char>) -> Seq<char> {
    base64_chars(spec_embedded_encrypt(spec_wire(v), secret))
}

/// The encoded message of a record under a secret and an explicit IV.
pub open spec fn spec_encode_message_with_iv(v: PayloadView, secret: Seq<char>, iv: Seq<u8>) -> Seq<
    char,
> {
    base64_chars(spec_encrypt_with_iv(spec_wire(v), secret, iv))
}

/// The record a decrypted buffer deserializes to: defined only when the
/// buffer is exactly the canonical wire form of some record.
pub open spec fn spec_decode_wire(wire: Seq<u8>) -> Option<PayloadView> {
    match spec_parse_record(wire) {
        Some(v) => if wire == spec_wire(v) {
            Some(v)
        } else {
            None
        },
        None => None,
    }
}

/// What decoding a Base64-decoded blob yields in embedded-IV mode.
pub open spec fn spec_decode_blob(blob: Seq<u8>, secret: Seq<char>) -> Result<
    PayloadView,
    CodecError,
> {
    if blob.len() < 16 {
        Err(CodecError::DecryptionFailed(CipherError::BlobTooShort))
    } else if blob.skip(16).len() % 16 != 0 {
        Err(CodecError::DecryptionFailed(CipherError::InvalidLength))
    } else {
        match spec_embedded_decrypt(blob, secret) {
            None => Err(CodecError::DecryptionFailed(CipherError::InvalidPadding)),
            Some(wire) => match spec_decode_wire(wire) {
                Some(v) => Ok(v),
                None => Err(CodecError::MalformedRecord),
            },
        }
    }
}

/// What decoding a Base64-decoded blob yields in explicit-IV mode.
pub open spec fn spec_decode_blob_with_iv(blob: Seq<u8>, secret: Seq<char>, iv: Seq<u8>) -> Result<
    PayloadView,
    CodecError,
> {
    if blob.len() % 16 != 0 {
        Err(CodecError::DecryptionFailed(CipherError::InvalidLength))
    } else {
        match spec_decrypt_with_iv(blob, secret, iv) {
            None => Err(CodecError::DecryptionFailed(CipherError::InvalidPadding)),
            Some(wire) => match spec_decode_wire(wire) {
                Some(v) => Ok(v),
                None => Err(CodecError::MalformedRecord),
            },
        }
    }
}

/// The record-level codec: serialize, encrypt, Base64-encode — and back.
pub struct MessageCipher;

impl MessageCipher {
    /// Serializes and encrypts a record in embedded-IV mode and encodes the
    /// result as Base64. Fails with `PlaintextTooShort` exactly when the
    /// serialized record is shorter than the 16 bytes that form the IV.
    pub fn encrypt(src: &CheckoutPayloadModel, key: &str) -> (r: Result<String, CipherError>)
        requires
            spec_wire(src@).len() + 16 <= usize::MAX,
        ensures
            r is Ok <==> spec_wire(src@).len() >= 16,
            r is Ok ==> r.unwrap()@ == spec_encode_message(src@, key@),
            r is Err ==> r == Err::<String, CipherError>(CipherError::PlaintextTooShort),
    {
        let wire = encode_record(src);
        match AesCipher::encrypt(wire.as_slice(), key) {
            Ok(blob) => Ok(base64_encode(blob.as_slice())),
            Err(e) => {
                proof {
                    assert(e == CipherError::PlaintextTooShort);
                }
                Err(e)
            },
        }
    }

    /// Serializes and encrypts a record with a caller-supplied IV and
    /// encodes the result as Base64; any record length is accepted.
    pub fn encrypt_with_iv(src: &CheckoutPayloadModel, key: &str, iv: &[u8]) -> (r: String)
        requires
            iv@.len() == 16,
            spec_wire(src@).len() + 16 <= usize::MAX,
        ensures
            r@ == spec_encode_message_with_iv(src@, key@, iv@),
    {
        let wire = encode_record(src);
        let blob = AesCipher::encrypt_with_iv(wire.as_slice(), key, iv);
        base64_encode(blob.as_slice())
    }

    /// Decodes, decrypts (embedded-IV mode) and deserializes a message.
    ///
    /// On success the message is exactly a Base64-encoded encryption of the
    /// returned record under this secret; and every message produced by
    /// `encrypt` from a record under the same secret decodes back to that
    /// record, so the round trip is the identity.
    pub fn decrypt(src: &str, key: &str) -> (r: Result<CheckoutPayloadModel, CodecError>)
        ensures
            (forall|blob: Seq<u8>| src@ != base64_chars(blob)) <==> r == Err::<
                CheckoutPayloadModel,
                CodecError,
            >(CodecError::InvalidEncoding),
            forall|blob: Seq<u8>|
                src@ == base64_chars(blob) ==> match spec_decode_blob(blob, key@) {
                    Ok(v) => r is Ok && r.unwrap()@ == v,
                    Err(e) => r == Err::<CheckoutPayloadModel, CodecError>(e),
                },
            r is Ok ==> exists|blob: Seq<u8>|
                src@ == base64_chars(blob) && #[trigger] spec_decode_blob(blob, key@) == Ok::<
                    PayloadView,
                    CodecError,
                >(r.unwrap()@),
            forall|v: PayloadView|
                wire_sizes_ok(v) && spec_wire(v).len() >= 16 && src@ == spec_encode_message(
                    v,
                    key@,
                ) ==> r is Ok && r.unwrap()@ == v,
    {
        let blob = match base64_decode(src) {
            None => {
                return Err(CodecError::InvalidEncoding);
            },
            Some(b) => b,
        };
        let ghost blob0 = blob@;
        let r = match AesCipher::decrypt(blob.as_slice(), key) {
            Err(e) => Err(CodecError::DecryptionFailed(e)),
            Ok(wire) => match decode_record(wire.as_slice()) {
                None => Err(CodecError::MalformedRecord),
                Some(m) => Ok(m),
            },
        };
        proof {
            assert(spec_decode_blob(blob0, key@) matches Ok(v) ==> r is Ok && r.unwrap()@ == v);
            assert forall|v: PayloadView|
                wire_sizes_ok(v) && spec_wire(v).len() >= 16 && src@ == spec_encode_message(
                    v,
                    key@,
                ) implies r is Ok && r.unwrap()@ == v by {
                assert(blob0 == spec_embedded_encrypt(spec_wire(v), key@));
                lemma_parse_record_wire(v);
            }
        }
        r
    }

    /// Decodes, decrypts (explicit-IV mode) and deserializes a message; the
    /// exact counterpart of `encrypt_with_iv` under the same key and IV.
    pub fn decrypt_with_iv(src: &str, key: &str, iv: &[u8]) -> (r: Result<
        CheckoutPayloadModel,
        CodecError,
    >)
        requires
            iv@.len() == 16,
        ensures
            (forall|blob: Seq<u8>| src@ != base64_chars(blob)) <==> r == Err::<
                CheckoutPayloadModel,
                CodecError,
            >(CodecError::InvalidEncoding),
            forall|blob: Seq<u8>|
                src@ == base64_chars(blob) ==> match spec_decode_blob_with_iv(blob, key@, iv@) {
                    Ok(v) => r is Ok && r.unwrap()@ == v,
                    Err(e) => r == Err::<CheckoutPayloadModel, CodecError>(e),
                },
            forall|v: PayloadView|
                wire_sizes_ok(v) && src@ == spec_encode_message_with_iv(v, key@, iv@) ==> r is Ok
                    && r.unwrap()@ == v,
    {
        let blob = match base64_decode(src) {
            None => {
                return Err(CodecError::InvalidEncoding);
            },
            Some(b) => b,
        };
        let ghost blob0 = blob@;
        let r = match AesCipher::decrypt_with_iv(blob.as_slice(), key, iv) {
            Err(e) => Err(CodecError::DecryptionFailed(e)),
            Ok(wire) => match decode_record(wire.as_slice()) {
                None => Err(CodecError::MalformedRecord),
                Some(m) => Ok(m),
            },
        };
        proof {
            assert forall|v: PayloadView|
                wire_sizes_ok(v) && src@ == spec_encode_message_with_iv(
                    v,
                    key@,
                    iv@,
                ) implies r is Ok && r.unwrap()@ == v by {
                assert(blob0 == spec_encrypt_with_iv(spec_wire(v), key@, iv@));
                lemma_parse_record_wire(v);
            }
        }
        r
    }
}

} // verus!
