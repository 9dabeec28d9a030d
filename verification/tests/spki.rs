use sao::spki::{spki_sha256_bytes_from_cert_der, spki_sha256_hex_from_cert_der, spki_sha256_hex_from_pem};
use sao::CoreError;
use sha2::Digest;
use x509_parser::prelude::FromDer;

fn cert() -> (String, Vec<u8>) {
    let ck = rcgen::generate_simple_self_signed(vec!["localhost".to_string()]).unwrap();
    (ck.cert.pem(), ck.cert.der().to_vec())
}

#[test]
fn pem_and_der_agree_with_direct_hash() {
    let (pem, der) = cert();
    let (_, c) = x509_parser::prelude::X509Certificate::from_der(&der).unwrap();
    let expected = hex::encode(sha2::Sha256::digest(c.subject_pki.raw));
    assert_eq!(spki_sha256_hex_from_cert_der(&der).unwrap(), expected);
    assert_eq!(spki_sha256_hex_from_pem(&pem).unwrap(), expected);
    let bytes = spki_sha256_bytes_from_cert_der(&der).unwrap();
    assert_eq!(hex::encode(bytes), expected);
    let with_comments = pem.replace("-----BEGIN CERTIFICATE-----\n", "junk\n-----BEGIN CERTIFICATE-----\n# note\n\n");
    assert_eq!(spki_sha256_hex_from_pem(&with_comments).unwrap(), expected);
}

#[test]
fn pem_errors() {
    match spki_sha256_hex_from_pem("nothing here") {
        Err(CoreError::X509(m)) => assert_eq!(m, "no BEGIN CERTIFICATE"),
        r => panic!("unexpected {r:?}"),
    }
    match spki_sha256_hex_from_pem("-----BEGIN CERTIFICATE-----\nAAAA\n") {
        Err(CoreError::X509(m)) => assert_eq!(m, "no END CERTIFICATE"),
        r => panic!("unexpected {r:?}"),
    }
    assert!(matches!(
        spki_sha256_hex_from_pem("-----BEGIN CERTIFICATE-----\nAAAA\n-----END CERTIFICATE-----\n"),
        Err(CoreError::X509(_))
    ));
    assert!(matches!(spki_sha256_bytes_from_cert_der(b"garbage"), Err(CoreError::X509(_))));
}
