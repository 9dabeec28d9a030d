use sao::client::{
    answer_is_yes, auth_rejection_text, changed_host_step, check_peer_pin, client_on_frame,
    exit_status_code, new_host_step, parse_addr, peer_matches_pin, settle_trust, ClientAction,
    ClientPhase, PinCheck, TrustStep,
};
use sao::known_hosts::KnownHosts;
use sao::spki::{spki_sha256_bytes_from_cert_der, spki_sha256_hex_from_cert_der};
use sao::{msg_type, CoreError};

#[test]
fn parse_addr_forms() {
    assert_eq!(parse_addr(" example.com:8443 "), Ok(("example.com".to_string(), 8443)));
    assert_eq!(parse_addr("[::1]:443"), Ok(("::1".to_string(), 443)));
    assert_eq!(parse_addr("fe80::1:22"), Ok(("fe80::1".to_string(), 22)));
    assert_eq!(parse_addr("host"), Err("expected host:port".to_string()));
    assert_eq!(parse_addr(":80"), Err("empty host".to_string()));
    assert_eq!(parse_addr("h:99999"), Err("bad port".to_string()));
    assert_eq!(parse_addr("[::1]"), Err("expected [ipv6]:port".to_string()));
    assert_eq!(parse_addr("[::1]:x"), Err("bad port".to_string()));
}

#[test]
fn prompt_answers() {
    assert!(answer_is_yes("yes\n"));
    assert!(answer_is_yes(" Y "));
    assert!(answer_is_yes("YES"));
    assert!(!answer_is_yes("no"));
    assert!(!answer_is_yes("yess"));
}

#[test]
fn client_frame_actions() {
    assert_eq!(client_on_frame(ClientPhase::AwaitingChallenge, msg_type::AUTH_CHALLENGE), ClientAction::AnswerChallenge);
    assert_eq!(
        client_on_frame(ClientPhase::AwaitingChallenge, msg_type::ERROR),
        ClientAction::Fail { message: "expected AuthChallenge".to_string() }
    );
    assert_eq!(
        client_on_frame(ClientPhase::AwaitingAuthResult, msg_type::EXEC_EXIT),
        ClientAction::Fail { message: "expected AuthResult".to_string() }
    );
    assert_eq!(client_on_frame(ClientPhase::AwaitingOutput, msg_type::STREAM_STDERR), ClientAction::WriteStderr);
    assert_eq!(
        client_on_frame(ClientPhase::AwaitingOutput, msg_type::POLICY_DENIED),
        ClientAction::PrintPayloadAndExit { code: 126 }
    );
    assert_eq!(
        client_on_frame(ClientPhase::AwaitingOutput, 0x7a),
        ClientAction::Fail { message: "unexpected msg_type 0x7a".to_string() }
    );
}

#[test]
fn exit_status() {
    assert_eq!(exit_status_code(Some(2)), 2);
    assert_eq!(exit_status_code(None), -1);
    assert_eq!(exit_status_code(Some(0x1_0000_0005)), 5);
}

#[test]
fn rejection_texts() {
    let t = auth_rejection_text(Some("UNKNOWN_KEY"), Some("fingerprint not in authorized_keys"));
    assert!(t.starts_with("Authentication rejected: this agent's public key is not in the server's authorized_keys.\nRun `sao key-fingerprint`"));
    assert!(t.ends_with("Server detail: UNKNOWN_KEY \"fingerprint not in authorized_keys\""));
    assert_eq!(
        auth_rejection_text(Some("BAD_SIGNATURE"), Some("ed25519: signature verify failed")),
        "auth failed: BAD_SIGNATURE Some(\"ed25519: signature verify failed\")"
    );
    assert_eq!(auth_rejection_text(None, None), "auth failed:  None");
}

#[test]
fn trust_steps_for_a_new_host() {
    let fp = "ab".repeat(32);
    match new_host_step(true, false, "example.com", 8443, &fp) {
        TrustStep::Accept { warning } => assert_eq!(
            warning,
            format!("Warning: saving new TLS pin for example.com:8443 (SPKI SHA-256 {fp}) — verify on a trusted network when possible.")
        ),
        s => panic!("unexpected {s:?}"),
    }
    match new_host_step(false, true, "example.com", 8443, &fp) {
        TrustStep::Ask { notice, question } => {
            assert_eq!(
                notice,
                format!("The authenticity of host 'example.com' (port 8443) can't be established.\nTLS SPKI SHA-256 fingerprint is {fp}.")
            );
            assert_eq!(question, "Are you sure you want to continue connecting (yes/no)? ");
        }
        s => panic!("unexpected {s:?}"),
    }
    match new_host_step(false, false, "example.com", 8443, &fp) {
        TrustStep::Refuse { message } => assert_eq!(
            message,
            format!("no TLS pin for example.com:8443. Add with:\n  sao trust add example.com 8443 {fp}\nOr non-interactively:\n  sao run -p 8443 --accept-new example.com -- …")
        ),
        s => panic!("unexpected {s:?}"),
    }
}

#[test]
fn trust_steps_for_a_changed_host() {
    let fp = "0f".repeat(32);
    match changed_host_step(true, true, "10.0.0.1", 443, &fp) {
        TrustStep::Accept { warning } => assert_eq!(
            warning,
            format!("Warning: replacing TLS pin for 10.0.0.1:443 with new SPKI SHA-256 {fp} — verify on a trusted network.")
        ),
        s => panic!("unexpected {s:?}"),
    }
    match changed_host_step(false, true, "10.0.0.1", 443, &fp) {
        TrustStep::Ask { notice, question } => {
            assert_eq!(
                notice,
                format!("Host key for 10.0.0.1:443 has changed.\nNew TLS SPKI SHA-256 fingerprint is {fp}.")
            );
            assert_eq!(question, "Replace the pin in known_hosts? (yes/no): ");
        }
        s => panic!("unexpected {s:?}"),
    }
    match changed_host_step(false, false, "10.0.0.1", 443, &fp) {
        TrustStep::Refuse { message } => assert_eq!(
            message,
            format!("TLS pin mismatch for 10.0.0.1:443. Run interactively to replace, or: sao trust add 10.0.0.1 443 {fp}")
        ),
        s => panic!("unexpected {s:?}"),
    }
}

#[test]
fn peer_pin_check() {
    let ck = rcgen::generate_simple_self_signed(vec!["localhost".to_string()]).unwrap();
    let der = ck.cert.der().to_vec();
    let pin = spki_sha256_bytes_from_cert_der(&der).unwrap();
    assert!(matches!(check_peer_pin(&der, &pin), PinCheck::Matches));
    let mut other = pin;
    other[31] ^= 1;
    assert!(matches!(check_peer_pin(&der, &other), PinCheck::Mismatch));
    assert!(matches!(
        check_peer_pin(b"not a certificate", &pin),
        PinCheck::Unreadable(CoreError::X509(_))
    ));
}

#[test]
fn pin_management_steps() {
    let ck = rcgen::generate_simple_self_signed(vec!["localhost".to_string()]).unwrap();
    let der = ck.cert.der().to_vec();
    let fp = spki_sha256_hex_from_cert_der(&der).unwrap();
    let mut kh = KnownHosts::default();
    assert!(matches!(
        peer_matches_pin(&kh, "Host", 443, &der),
        Err(CoreError::KnownHostsMissing(_))
    ));
    assert!(matches!(settle_trust(&mut kh, "Host", 443, &fp, false), Ok(false)));
    assert!(kh.pin_hex("host", 443).is_err());
    assert!(matches!(settle_trust(&mut kh, "Host", 443, "zz", true), Err(CoreError::InvalidFingerprint(_))));
    assert!(kh.pin_hex("host", 443).is_err());
    assert!(matches!(settle_trust(&mut kh, "Host", 443, &fp, true), Ok(true)));
    assert!(matches!(peer_matches_pin(&kh, "host", 443, &der), Ok(PinCheck::Matches)));
    kh.insert_hex("host", 443, &"0".repeat(64)).unwrap();
    assert!(matches!(peer_matches_pin(&kh, "HOST", 443, &der), Ok(PinCheck::Mismatch)));
}
