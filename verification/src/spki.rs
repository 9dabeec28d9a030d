//! SPKI SHA-256 fingerprint for TLS certificate pinning.

use vstd::prelude::*;

use crate::crypto;
use crate::crypto::{sha256_digest, x509_subject_pki_raw};
use crate::encoding;
use crate::encoding::{decode_base64, hex_encode};
use crate::error::CoreError;
use crate::text;
use crate::text::{split_lines, str_chars, string_from_chars, sub_chars, trim_chars};

verus! {

/// The lines of a PEM block that hold Base64: not empty and not `#` comments, concatenated.
pub open spec fn pem_base64_text(lines: Seq<Seq<char>>) -> Seq<char>
    decreases lines.len(),
{
    if lines.len() == 0 {
        Seq::empty()
    } else {
        pem_base64_text(lines.drop_last()) + (if lines.last().len() > 0 && lines.last()[0] != '#' {
            lines.last()
        } else {
            Seq::empty()
        })
    }
}

/// The DER bytes of the first `CERTIFICATE` block of `pem`, or the error message.
pub open spec fn pem_der(pem: Seq<char>) -> Result<Seq<u8>, Seq<char>> {
    match text::first_occurrence(pem, "-----BEGIN CERTIFICATE-----"@) {
        None => Err("no BEGIN CERTIFICATE"@),
        Some(s) => {
            let rest = pem.skip(s + "-----BEGIN CERTIFICATE-----"@.len());
            match text::first_occurrence(rest, "-----END CERTIFICATE-----"@) {
                None => Err("no END CERTIFICATE"@),
                Some(e) => encoding::base64_decoded(
                    text::trim_ws(pem_base64_text(text::text_lines(rest.take(e)))),
                ),
            }
        },
    }
}

/// Lowercase hex of the SHA-256 of the SubjectPublicKeyInfo of the DER certificate `der`.
pub open spec fn spki_hex_of_der(der: Seq<u8>) -> Result<Seq<char>, Seq<char>> {
    match crypto::x509_subject_pki(der) {
        Err(m) => Err(m),
        Ok(spki) => Ok(encoding::hex_lower(crypto::sha256(spki))),
    }
}

/// The Base64 text of a PEM block body: its non-empty, non-comment lines, concatenated.
fn pem_block_base64(body: &[char]) -> (b64: Vec<char>)
    ensures
        b64@ == pem_base64_text(text::text_lines(body@)),
{
    let lines = split_lines(body);
    let ghost ls = text::text_lines(body@);
    let mut b64: Vec<char> = Vec::new();
    for i in 0..lines.len()
        invariant
            lines@.len() == ls.len(),
            forall|k: int| 0 <= k < lines@.len() ==> #[trigger] lines@[k]@ == ls[k],
            b64@ == pem_base64_text(ls.take(i as int)),
    {
        let l = &lines[i];
        assert(ls.take(i + 1).drop_last() =~= ls.take(i as int));
        assert(ls.take(i + 1).last() == l@);
        if l.len() > 0 && l[0] != '#' {
            let ghost before = b64@;
            for j in 0..l.len()
                invariant
                    b64@ == before + l@.take(j as int),
            {
                b64.push(l[j]);
                assert(b64@ =~= before + l@.take(j + 1));
            }
            assert(l@.take(l@.len() as int) =~= l@);
        } else {
            assert(b64@ =~= pem_base64_text(ls.take(i as int)) + Seq::<char>::empty());
        }
    }
    assert(ls.take(ls.len() as int) =~= ls);
    b64
}

/// SHA-256 hash of SubjectPublicKeyInfo DER as 32 bytes.
pub fn spki_sha256_bytes_from_cert_der(der: &[u8]) -> (r: Result<[u8; 32], CoreError>)
    ensures
        match crypto::x509_subject_pki(der@) {
            Ok(spki) => r matches Ok(h) && h@ == crypto::sha256(spki),
            Err(m) => r matches Err(CoreError::X509(s)) && s@ == m,
        },
{
    match x509_subject_pki_raw(der) {
        Ok(spki) => Ok(sha256_digest(&spki)),
        Err(e) => Err(CoreError::X509(e)),
    }
}

/// Hex lowercase (64 chars).
pub fn spki_sha256_hex_from_cert_der(der: &[u8]) -> (r: Result<String, CoreError>)
    ensures
        match spki_hex_of_der(der@) {
            Ok(h) => r matches Ok(s) && s@ == h,
            Err(m) => r matches Err(CoreError::X509(s)) && s@ == m,
        },
{
    let b = spki_sha256_bytes_from_cert_der(der)?;
    Ok(hex_encode(&b))
}

/// The DER bytes of the first `CERTIFICATE` block of `pem`.
fn pem_der_bytes(pem: &str) -> (r: Result<Vec<u8>, String>)
    ensures
        match r {
            Ok(d) => pem_der(pem@) == Ok::<Seq<u8>, Seq<char>>(d@),
            Err(m) => pem_der(pem@) == Err::<Seq<u8>, Seq<char>>(m@),
        },
{
    let chars = str_chars(pem);
    let start_tag = str_chars("-----BEGIN CERTIFICATE-----");
    let end_tag = str_chars("-----END CERTIFICATE-----");
    let start = match text::find_first(&chars, &start_tag) {
        Some(s) => s,
        None => return Err("no BEGIN CERTIFICATE".to_string()),
    };
    assert(text::occurs_at(chars@, start_tag@, start as int));
    assert(start + start_tag@.len() <= chars@.len());
    let tag_len = start_tag.len();
    let n = chars.len();
    assert(start + tag_len <= n);
    let rest = sub_chars(&chars, start + tag_len, n);
    assert(rest@ =~= pem@.skip(start + "-----BEGIN CERTIFICATE-----"@.len()));
    let end = match text::find_first(&rest, &end_tag) {
        Some(e) => e,
        None => return Err("no END CERTIFICATE".to_string()),
    };
    let body = sub_chars(&rest, 0, end);
    assert(body@ =~= rest@.take(end as int));
    let b64 = pem_block_base64(&body);
    let t = string_from_chars(&trim_chars(&b64));
    decode_base64(t.as_str())
}

/// First PEM `CERTIFICATE` block → SPKI SHA-256 hex.
pub fn spki_sha256_hex_from_pem(pem: &str) -> (r: Result<String, CoreError>)
    ensures
        match pem_der(pem@) {
            Err(m) => r matches Err(CoreError::X509(s)) && s@ == m,
            Ok(der) => match spki_hex_of_der(der) {
                Ok(h) => r matches Ok(s) && s@ == h,
                Err(m) => r matches Err(CoreError::X509(s)) && s@ == m,
            },
        },
{
    let der = match pem_der_bytes(pem) {
        Ok(d) => d,
        Err(e) => return Err(CoreError::X509(e)),
    };
    spki_sha256_hex_from_cert_der(&der)
}

} // verus!
