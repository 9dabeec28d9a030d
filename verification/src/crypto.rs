//! Hashing, Ed25519 and X.509 calls into outside crates, with what they are
//! claimed to return.

use vstd::prelude::*;

use ed25519_dalek::Signer;
use sha2::Digest;
use x509_parser::prelude::FromDer;

verus! {

/// The SHA-256 digest of `data`.
pub uninterp spec fn sha256(data: Seq<u8>) -> Seq<u8>;

/// `sha2::Sha256::digest`: the 32-byte SHA-256 digest of `data`.
#[verifier::external_body]
pub(crate) fn sha256_digest(data: &[u8]) -> (r: [u8; 32])
    ensures
        r@ == sha256(data@),
{
    sha2::Sha256::digest(data).into()
}

/// `None` when `ed25519_dalek::VerifyingKey::from_bytes` accepts `pk`
/// (the bytes decompress to a curve point); otherwise the text of its error.
pub uninterp spec fn ed25519_public_key_error(pk: Seq<u8>) -> Option<Seq<char>>;

/// `ed25519_dalek::VerifyingKey::from_bytes`, keeping only whether it accepts
/// the 32 bytes; a refusal is returned as the text of the crate's error.
#[verifier::external_body]
pub(crate) fn ed25519_check_public_key(pk: &[u8; 32]) -> (r: Result<(), String>)
    ensures
        match r {
            Ok(()) => ed25519_public_key_error(pk@) is None,
            Err(m) => ed25519_public_key_error(pk@) == Some(m@),
        },
{
    ed25519_dalek::VerifyingKey::from_bytes(pk).map(|_| ()).map_err(|e| e.to_string())
}

/// Whether `pk` is a public key that `ed25519_dalek` accepts and
/// `VerifyingKey::verify_strict` accepts `sig` on `msg` under it.
pub uninterp spec fn ed25519_verify_strict_ok(pk: Seq<u8>, msg: Seq<u8>, sig: Seq<u8>) -> bool;

/// `ed25519_dalek::VerifyingKey::verify_strict` of the 64-byte signature `sig`
/// on `msg`, under the key that `VerifyingKey::from_bytes` makes of `pk`
/// (false when it makes none). The result is named, not stated.
#[verifier::external_body]
pub(crate) fn ed25519_verify_strict(pk: &[u8; 32], msg: &[u8], sig: &[u8; 64]) -> (b: bool)
    ensures
        b == ed25519_verify_strict_ok(pk@, msg@, sig@),
{
    match ed25519_dalek::VerifyingKey::from_bytes(pk) {
        Ok(vk) => vk.verify_strict(msg, &ed25519_dalek::Signature::from_bytes(sig)).is_ok(),
        Err(_) => false,
    }
}

/// The public key of the Ed25519 secret key `secret`.
pub uninterp spec fn ed25519_public_key_of(secret: Seq<u8>) -> Seq<u8>;

/// `SigningKey::from_bytes(secret).verifying_key().to_bytes()`: the public key
/// of a secret key. The crate keeps a verifying key's bytes as the compression
/// of its point, so `VerifyingKey::from_bytes` accepts them; the contract
/// claims that too.
#[verifier::external_body]
pub(crate) fn ed25519_public_key(secret: &[u8; 32]) -> (r: [u8; 32])
    ensures
        r@ == ed25519_public_key_of(secret@),
        ed25519_public_key_error(r@) is None,
{
    ed25519_dalek::SigningKey::from_bytes(secret).verifying_key().to_bytes()
}

/// `SigningKey::generate(&mut OsRng).to_bytes()`: the bytes of a fresh
/// Ed25519 secret key drawn from the operating system's random source. The
/// key is random, so nothing is claimed of it.
#[verifier::external_body]
pub(crate) fn ed25519_generate_secret() -> [u8; 32] {
    ed25519_dalek::SigningKey::generate(&mut rand::rngs::OsRng).to_bytes()
}

/// The Ed25519 signature of `msg` by the secret key `secret`.
pub uninterp spec fn ed25519_signature(secret: Seq<u8>, msg: Seq<u8>) -> Seq<u8>;

/// Whether the nonce scalar that Ed25519 signing of `msg` under `secret`
/// derives (`r`, the SHA-512 of the key's hash prefix and `msg`, reduced
/// modulo the group order) is zero. Then `R` is the identity, which strict
/// verification refuses; for any given key and message this has probability
/// about 2^-252.
pub uninterp spec fn ed25519_signing_nonce_is_zero(secret: Seq<u8>, msg: Seq<u8>) -> bool;

/// `SigningKey::from_bytes(secret).sign(msg)`: the 64-byte Ed25519 signature
/// (deterministic, so it is a function of its arguments). The contract also
/// claims that `verify_strict` accepts it under the key's own public key
/// unless the derived nonce is zero: the public key is the clamped secret
/// scalar times the base point, never of small order; `S` is reduced, so
/// canonical; and `R = r·B` is of small order only when `r` is zero.
#[verifier::external_body]
pub(crate) fn ed25519_sign(secret: &[u8; 32], msg: &[u8]) -> (r: [u8; 64])
    ensures
        r@ == ed25519_signature(secret@, msg@),
        !ed25519_signing_nonce_is_zero(secret@, msg@) ==> ed25519_verify_strict_ok(
            ed25519_public_key_of(secret@),
            msg@,
            r@,
        ),
{
    ed25519_dalek::SigningKey::from_bytes(secret).sign(msg).to_bytes()
}

/// What `x509_parser` finds in the DER certificate `der`: the raw bytes of its
/// SubjectPublicKeyInfo, or the text of the parse error.
pub uninterp spec fn x509_subject_pki(der: Seq<u8>) -> Result<Seq<u8>, Seq<char>>;

/// `X509Certificate::from_der(der)`, keeping the raw DER of the certificate's
/// SubjectPublicKeyInfo; a parse error is returned as its text.
#[verifier::external_body]
pub(crate) fn x509_subject_pki_raw(der: &[u8]) -> (r: Result<Vec<u8>, String>)
    ensures
        match r {
            Ok(v) => x509_subject_pki(der@) == Ok::<Seq<u8>, Seq<char>>(v@),
            Err(m) => x509_subject_pki(der@) == Err::<Seq<u8>, Seq<char>>(m@),
        },
{
    x509_parser::prelude::X509Certificate::from_der(der)
        .map(|(_, cert)| cert.subject_pki.raw.to_vec())
        .map_err(|e| e.to_string())
}

} // verus!
