use std::path::{Path, PathBuf};

use sao::agent_key::{
    agent_identity, agent_public_key_file_text, new_private_key_file, parse_private_key_file,
    private_key_file_text, public_key_path,
};
use sao::authorized_keys::{ed25519_fingerprint_hex, parse_authorized_keys, KEY_TYPE_ED25519};
use sao::{sign_auth_message, signing_bytes, verify_ed25519_signature, CoreError};

fn ed25519_public_key(secret: &[u8; 32]) -> [u8; 32] {
    ed25519_dalek::SigningKey::from_bytes(secret).verifying_key().to_bytes()
}

#[test]
fn public_key_path_suffix() {
    let p = Path::new("keys").join("agent.ed25519");
    assert_eq!(
        PathBuf::from(public_key_path(p.to_str().unwrap())),
        Path::new("keys").join("agent.ed25519.pub")
    );
}

#[test]
fn public_key_path_without_directory() {
    assert_eq!(public_key_path("agent.ed25519"), "agent.ed25519.pub");
    assert_eq!(public_key_path("/"), "/agent.ed25519.pub");
}

#[test]
fn private_key_file_roundtrip() {
    let secret = [7u8; 32];
    let text = private_key_file_text(&secret);
    assert!(text.starts_with("sao-ed25519-private-v1\n"));
    assert!(text.ends_with('\n'));
    let back = parse_private_key_file(&text).unwrap();
    assert_eq!(back, secret);
}

#[test]
fn private_key_file_errors() {
    match parse_private_key_file("sao-ed25519-private-v1\n# nothing\n\n") {
        Err(CoreError::Ed25519(m)) => assert_eq!(m, "no key material in file"),
        other => panic!("unexpected {other:?}"),
    }
    match parse_private_key_file("AAAA\n") {
        Err(CoreError::Ed25519(m)) => assert_eq!(m, "private key must be 32 bytes"),
        other => panic!("unexpected {other:?}"),
    }
    assert!(matches!(parse_private_key_file("not base64!\n"), Err(CoreError::Ed25519(_))));
}

#[test]
fn public_key_file_is_accepted_as_authorized_key() {
    let secret = [3u8; 32];
    let pk = ed25519_public_key(&secret);
    let body = agent_public_key_file_text(&pk);
    assert!(body.starts_with("# Append this line to the server's authorized_keys file.\n"));
    assert!(body.contains(KEY_TYPE_ED25519));
    let keys = parse_authorized_keys(&body).unwrap();
    assert_eq!(keys.len(), 1);
    assert_eq!(keys[0].verifying_key, pk);
    assert_eq!(keys[0].comment, "agent");
    assert_eq!(keys[0].fingerprint_hex, ed25519_fingerprint_hex(&pk));
}

#[test]
fn signature_verifies_under_own_key_only() {
    let secret = [9u8; 32];
    let pk = ed25519_public_key(&secret);
    let msg = signing_bytes(b"nonce-bytes", "session-1");
    let sig = sign_auth_message(&secret, &msg);
    assert_eq!(sig.len(), 88);
    assert_eq!(sig, sign_auth_message(&secret, &msg));
    assert!(verify_ed25519_signature(&pk, &msg, &sig).is_ok());
    let other = signing_bytes(b"nonce-bytes", "session-2");
    match verify_ed25519_signature(&pk, &other, &sig) {
        Err(CoreError::Ed25519(m)) => assert_eq!(m, "signature verify failed"),
        r => panic!("unexpected {r:?}"),
    }
    match verify_ed25519_signature(&pk, &msg, "AAAA") {
        Err(CoreError::Ed25519(m)) => assert_eq!(m, "bad signature length"),
        r => panic!("unexpected {r:?}"),
    }
}

#[test]
fn new_key_file_reads_back() {
    let (secret, text) = new_private_key_file();
    assert_eq!(text, private_key_file_text(&secret));
    assert_eq!(parse_private_key_file(&text).unwrap(), secret);
    let (other, _) = new_private_key_file();
    assert_ne!(secret, other);
}

#[test]
fn identity_matches_the_public_key_file() {
    let secret = [5u8; 32];
    let (pk, fp) = agent_identity(&secret);
    assert_eq!(pk, ed25519_public_key(&secret));
    assert_eq!(fp, ed25519_fingerprint_hex(&pk));
    let keys = parse_authorized_keys(&agent_public_key_file_text(&pk)).unwrap();
    assert_eq!(keys[0].fingerprint_hex, fp);
}
