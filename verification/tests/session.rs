use base64::Engine;

use sao::agent_key::sign_auth_message;
use sao::authorized_keys::{ed25519_fingerprint_hex, parse_authorized_keys};
use sao::client::answer_challenge;
use sao::config::ServerConfig;
use sao::msg_type;
use sao::session::{
    decide_auth, exit_code_of, new_challenge, on_frame, phase_after_auth, plan_exec,
    shell_preview, stream_data, AuthDecision, ExecPlan, FrameAction, ServerPhase,
    TIMEOUT_EXIT_CODE,
};
use sao::signing_bytes;

fn ed25519_public_key(secret: &[u8; 32]) -> [u8; 32] {
    ed25519_dalek::SigningKey::from_bytes(secret).verifying_key().to_bytes()
}

fn base64_encode(bytes: &[u8]) -> String {
    base64::engine::general_purpose::STANDARD.encode(bytes)
}

fn setup(comment: &str) -> ([u8; 32], Vec<sao::AuthorizedKey>) {
    let secret = [11u8; 32];
    let pk = ed25519_public_key(&secret);
    let text = format!("sao-ed25519 {} {}\n", base64_encode(&pk), comment);
    (secret, parse_authorized_keys(&text).unwrap())
}

#[test]
fn accepts_a_signed_response() {
    let (secret, keys) = setup("ci-agent");
    let mut config = ServerConfig::default();
    let fp = keys[0].fingerprint_hex.clone();
    config.policy_group_by_fingerprint.push((fp.clone(), "ops".to_string()));
    let nonce = [42u8; 32];
    let sig = sign_auth_message(&secret, &signing_bytes(&nonce, "sid"));
    match decide_auth(&config, &keys, &nonce, "sid", "sao-ed25519", &fp.to_uppercase(), &sig) {
        AuthDecision::Accept { fingerprint_hex, agent_name, policy_group } => {
            assert_eq!(fingerprint_hex, fp);
            assert_eq!(agent_name.as_deref(), Some("ci-agent"));
            assert_eq!(policy_group, "ops");
        }
        d => panic!("unexpected {d:?}"),
    }
}

#[test]
fn default_group_and_no_name() {
    let (secret, keys) = setup("");
    let config = ServerConfig::default();
    let fp = ed25519_fingerprint_hex(&keys[0].verifying_key);
    let sig = sign_auth_message(&secret, &signing_bytes(b"n", "s"));
    match decide_auth(&config, &keys, b"n", "s", "sao-ed25519", &fp, &sig) {
        AuthDecision::Accept { agent_name, policy_group, .. } => {
            assert_eq!(agent_name, None);
            assert_eq!(policy_group, "default");
        }
        d => panic!("unexpected {d:?}"),
    }
}

#[test]
fn rejections() {
    let (secret, keys) = setup("a");
    let config = ServerConfig::default();
    let fp = keys[0].fingerprint_hex.clone();
    let sig = sign_auth_message(&secret, &signing_bytes(b"n", "s"));
    match decide_auth(&config, &keys, b"n", "s", "sao-rsa", &fp, &sig) {
        AuthDecision::Reject { reason, message } => {
            assert_eq!(reason, "UNSUPPORTED_KEY_TYPE");
            assert_eq!(message, "only sao-ed25519");
        }
        d => panic!("unexpected {d:?}"),
    }
    match decide_auth(&config, &keys, b"n", "s", "sao-ed25519", &"0".repeat(64), &sig) {
        AuthDecision::Reject { reason, message } => {
            assert_eq!(reason, "UNKNOWN_KEY");
            assert_eq!(message, "fingerprint not in authorized_keys");
        }
        d => panic!("unexpected {d:?}"),
    }
    match decide_auth(&config, &keys, b"other nonce", "s", "sao-ed25519", &fp, &sig) {
        AuthDecision::Reject { reason, message } => {
            assert_eq!(reason, "BAD_SIGNATURE");
            assert_eq!(message, "ed25519: signature verify failed");
        }
        d => panic!("unexpected {d:?}"),
    }
}

#[test]
fn frame_order() {
    let (p, a) = on_frame(ServerPhase::AwaitingAuthResponse, msg_type::AUTH_RESPONSE);
    assert_eq!((p, a), (ServerPhase::AwaitingAuthResponse, FrameAction::Authenticate));
    let (p, a) = on_frame(ServerPhase::AwaitingAuthResponse, msg_type::EXEC_SHELL);
    assert_eq!(p, ServerPhase::Closed);
    assert_eq!(
        a,
        FrameAction::SendError {
            code: "EXPECTED_AUTH_RESPONSE".to_string(),
            message: "expected AuthResponse".to_string()
        }
    );
    let (p, a) = on_frame(ServerPhase::Authenticated, msg_type::EXEC_SHELL);
    assert_eq!((p, a), (ServerPhase::Authenticated, FrameAction::Exec));
    let (p, a) = on_frame(ServerPhase::Authenticated, msg_type::AUTH_RESPONSE);
    assert_eq!(p, ServerPhase::Closed);
    assert_eq!(
        a,
        FrameAction::SendError {
            code: "UNKNOWN_MSG_TYPE".to_string(),
            message: "only ExecShell allowed after auth".to_string()
        }
    );
}

#[test]
fn exec_plans() {
    let mut config = ServerConfig::local_dev_init();
    match plan_exec(&config, "echo hi") {
        ExecPlan::Run { program, args, timeout_secs } => {
            assert_eq!(program, "bash");
            assert_eq!(args, vec!["-lc".to_string(), "echo hi".to_string()]);
            assert_eq!(timeout_secs, 120);
        }
        p => panic!("unexpected {p:?}"),
    }
    match plan_exec(&config, "rm -rf / now") {
        ExecPlan::Denied { message } => assert_eq!(message, "matched deny pattern: \"rm -rf /\""),
        p => panic!("unexpected {p:?}"),
    }
    config.exec_timeout_secs = 0;
    assert!(matches!(plan_exec(&config, "x"), ExecPlan::Run { timeout_secs: 1, .. }));
    config.shell_argv = vec!["sh".to_string()];
    assert!(matches!(plan_exec(&config, "x"), ExecPlan::BadShellArgv));
}

#[test]
fn exit_codes_and_preview() {
    assert_eq!(exit_code_of(Some(3)), 3);
    assert_eq!(exit_code_of(None), -1);
    assert_eq!(TIMEOUT_EXIT_CODE, 124);
    assert_eq!(shell_preview("short"), "short");
    let long = "é".repeat(100);
    assert_eq!(shell_preview(&long), "é".repeat(80));
}

#[test]
fn phase_follows_the_auth_decision() {
    let (secret, keys) = setup("a");
    let config = ServerConfig::default();
    let fp = keys[0].fingerprint_hex.clone();
    let sig = sign_auth_message(&secret, &signing_bytes(b"n", "s"));
    let ok = decide_auth(&config, &keys, b"n", "s", "sao-ed25519", &fp, &sig);
    assert_eq!(phase_after_auth(&ok), ServerPhase::Authenticated);
    let bad = decide_auth(&config, &keys, b"n", "other", "sao-ed25519", &fp, &sig);
    assert_eq!(phase_after_auth(&bad), ServerPhase::Closed);
}

#[test]
fn challenges_are_fresh_and_encoded() {
    let a = new_challenge();
    let b = new_challenge();
    assert_eq!(a.nonce_b64, base64_encode(&a.nonce));
    assert_ne!(a.nonce, b.nonce);
    assert_ne!(a.session_id, b.session_id);
    for id in [&a.session_id, &b.session_id] {
        let cs: Vec<char> = id.chars().collect();
        assert_eq!(cs.len(), 36);
        for (i, c) in cs.iter().enumerate() {
            match i {
                8 | 13 | 18 | 23 => assert_eq!(*c, '-'),
                14 => assert_eq!(*c, '4'),
                19 => assert!("89ab".contains(*c)),
                _ => assert!(c.is_ascii_hexdigit() && !c.is_ascii_uppercase()),
            }
        }
    }
}

#[test]
fn duplicate_fingerprints_are_detected() {
    let mut config = ServerConfig::default();
    assert!(config.fingerprints_distinct());
    config.policy_group_by_fingerprint.push(("aa".to_string(), "g1".to_string()));
    config.policy_group_by_fingerprint.push(("bb".to_string(), "g2".to_string()));
    assert!(config.fingerprints_distinct());
    config.policy_group_by_fingerprint.push(("aa".to_string(), "g3".to_string()));
    assert!(!config.fingerprints_distinct());
}

#[test]
fn agent_answer_is_accepted() {
    let (secret, keys) = setup("agent");
    let config = ServerConfig::default();
    let ch = new_challenge();
    let answer = answer_challenge(&secret, &ch.nonce_b64, &ch.session_id).unwrap();
    assert_eq!(answer.key_type, "sao-ed25519");
    assert_eq!(answer.fingerprint, keys[0].fingerprint_hex);
    assert_eq!(answer.signature, sign_auth_message(&secret, &signing_bytes(&ch.nonce, &ch.session_id)));
    let d = decide_auth(
        &config, &keys, &ch.nonce, &ch.session_id, &answer.key_type, &answer.fingerprint, &answer.signature,
    );
    assert!(matches!(d, AuthDecision::Accept { .. }));
    let other = new_challenge();
    let d = decide_auth(
        &config, &keys, &other.nonce, &ch.session_id, &answer.key_type, &answer.fingerprint, &answer.signature,
    );
    match d {
        AuthDecision::Reject { reason, message } => {
            assert_eq!(reason, "BAD_SIGNATURE");
            assert_eq!(message, "ed25519: signature verify failed");
        }
        d => panic!("unexpected {d:?}"),
    }
    assert!(answer_challenge(&secret, "not base64", "s").is_err());
}

#[test]
fn stream_chunks_are_base64() {
    assert_eq!(stream_data(b""), "");
    assert_eq!(stream_data(b"hello\n"), "aGVsbG8K");
    assert_eq!(stream_data(&[0xfb, 0xff]), "+/8=");
}
