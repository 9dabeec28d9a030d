use base64::Engine;
use sha2::Digest;

use sao::agent_key::agent_public_key_file_text;
use sao::authorized_keys::{ed25519_fingerprint_hex, parse_authorized_keys};
use sao::{find_key, CoreError};

fn ed25519_public_key(secret: &[u8; 32]) -> [u8; 32] {
    ed25519_dalek::SigningKey::from_bytes(secret).verifying_key().to_bytes()
}

fn base64_encode(bytes: &[u8]) -> String {
    base64::engine::general_purpose::STANDARD.encode(bytes)
}

fn key_line(secret: u8, comment: &str) -> (String, [u8; 32]) {
    let pk = ed25519_public_key(&[secret; 32]);
    (format!("sao-ed25519 {} {}", base64_encode(&pk), comment), pk)
}

#[test]
fn fingerprint_is_hex_of_sha256() {
    let pk = ed25519_public_key(&[1u8; 32]);
    let expected = hex::encode(sha2::Sha256::digest(pk));
    let fp = ed25519_fingerprint_hex(&pk);
    assert_eq!(fp, expected);
    assert_eq!(fp.len(), 64);
    assert_ne!(fp, hex::encode(pk));
}

#[test]
fn parses_keys_skipping_comments_and_other_types() {
    let (l1, pk1) = key_line(1, "alice laptop");
    let (l2, pk2) = key_line(2, "");
    let text = format!("# header\n\n  {l1}  \nsao-rsa AAAA bob\n{l2}\n");
    let keys = parse_authorized_keys(&text).unwrap();
    assert_eq!(keys.len(), 2);
    assert_eq!(keys[0].verifying_key, pk1);
    assert_eq!(keys[0].comment, "alice laptop");
    assert_eq!(keys[0].key_type, "sao-ed25519");
    assert_eq!(keys[1].verifying_key, pk2);
    assert_eq!(keys[1].comment, "");
}

#[test]
fn refusals_name_the_line() {
    match parse_authorized_keys("# c\nsao-ed25519\n") {
        Err(CoreError::AuthorizedKeys(m)) => assert_eq!(m, "line 2: missing key blob"),
        r => panic!("unexpected {r:?}"),
    }
    match parse_authorized_keys("sao-ed25519 AAAA x\n") {
        Err(CoreError::AuthorizedKeys(m)) => {
            assert_eq!(m, "line 1: ed25519 key must decode to 32 bytes")
        }
        r => panic!("unexpected {r:?}"),
    }
    match parse_authorized_keys("sao-ed25519 !!!! x\n") {
        Err(CoreError::AuthorizedKeys(m)) => assert!(m.starts_with("line 1: ")),
        r => panic!("unexpected {r:?}"),
    }
    match parse_authorized_keys("# only comments\nsao-rsa AAAA\n") {
        Err(CoreError::AuthorizedKeys(m)) => assert_eq!(m, "no sao-ed25519 keys in file"),
        r => panic!("unexpected {r:?}"),
    }
}

#[test]
fn find_key_trims_and_lowercases() {
    let (l1, _) = key_line(4, "a");
    let (l2, pk2) = key_line(5, "b");
    let keys = parse_authorized_keys(&format!("{l1}\n{l2}\n")).unwrap();
    let fp = ed25519_fingerprint_hex(&pk2);
    let found = find_key(&keys, &format!("  {}\t", fp.to_uppercase())).unwrap();
    assert_eq!(found.verifying_key, pk2);
    assert!(find_key(&keys, &"0".repeat(64)).is_none());
}

#[test]
fn pub_file_parses_back() {
    let pk = ed25519_public_key(&[6u8; 32]);
    let keys = parse_authorized_keys(&agent_public_key_file_text(&pk)).unwrap();
    assert_eq!(keys[0].verifying_key, pk);
}
