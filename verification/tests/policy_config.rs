use sao::check_shell;
use sao::config::{PolicyConfig, ServerConfig, TlsConfig, LOCAL_DEV_CONFIG_PATH};
use sao::CoreError;

#[test]
fn deny_substring_matches() {
    let p = PolicyConfig { deny_substrings: vec!["rm -rf /".to_string(), "shutdown".to_string()] };
    assert!(check_shell(&p, "echo hello").is_ok());
    match check_shell(&p, "sudo rm -rf / --no-preserve-root") {
        Err(CoreError::PolicyDenied(m)) => assert_eq!(m, "matched deny pattern: \"rm -rf /\""),
        r => panic!("unexpected {r:?}"),
    }
    match check_shell(&p, "shutdown now; rm -rf /") {
        Err(CoreError::PolicyDenied(m)) => assert_eq!(m, "matched deny pattern: \"rm -rf /\""),
        r => panic!("unexpected {r:?}"),
    }
    let q = PolicyConfig { deny_substrings: vec!["say \"hi\"".to_string()] };
    match check_shell(&q, "echo say \"hi\"") {
        Err(CoreError::PolicyDenied(m)) => assert_eq!(m, "matched deny pattern: \"say \\\"hi\\\"\""),
        r => panic!("unexpected {r:?}"),
    }
}

#[test]
fn empty_pattern_denies_everything() {
    let p = PolicyConfig { deny_substrings: vec![String::new()] };
    assert!(check_shell(&p, "").is_err());
    assert!(check_shell(&PolicyConfig::default(), "anything").is_ok());
}

#[test]
fn defaults() {
    let c = ServerConfig::default();
    assert_eq!(c.listen, "0.0.0.0:8443");
    assert_eq!(c.tls.cert_path, "/etc/sao/tls/cert.pem");
    assert_eq!(c.tls.key_path, "/etc/sao/tls/key.pem");
    assert!(!c.tls.auto_generate_self_signed);
    assert_eq!(c.authorized_keys_path, "/etc/sao/authorized_keys");
    assert_eq!(c.shell_argv, vec!["bash".to_string(), "-lc".to_string()]);
    assert_eq!(c.exec_timeout_secs, 300);
    assert_eq!(c.policy_group_default, "default");
    assert!(c.policy.deny_substrings.is_empty());
    assert!(c.policy_group_by_fingerprint.is_empty());
    assert!(!TlsConfig::default().auto_generate_self_signed);
    assert_eq!(LOCAL_DEV_CONFIG_PATH, ".sao/config.yaml");
}

#[test]
fn local_dev_init_layout() {
    let c = ServerConfig::local_dev_init();
    assert_eq!(c.listen, "127.0.0.1:8443");
    assert_eq!(c.tls.cert_path, ".sao/tls/cert.pem");
    assert_eq!(c.tls.key_path, ".sao/tls/key.pem");
    assert!(c.tls.auto_generate_self_signed);
    assert_eq!(c.authorized_keys_path, ".sao/authorized_keys");
    assert_eq!(c.policy.deny_substrings, vec!["rm -rf /".to_string()]);
    assert_eq!(c.exec_timeout_secs, 120);
}

#[test]
fn system_dir_listens_everywhere() {
    let c = ServerConfig::init_for_dir("/etc/sao");
    assert_eq!(c.listen, "0.0.0.0:8443");
    assert_eq!(c.authorized_keys_path, "/etc/sao/authorized_keys");
    assert_eq!(c.tls.cert_path, "/etc/sao/tls/cert.pem");
}
