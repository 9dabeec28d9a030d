use sao::known_hosts::KnownHosts;
use sao::CoreError;

#[test]
fn roundtrip_save_load() {
    let mut k = KnownHosts::default();
    k.insert_hex("127.0.0.1", 8443, &"a".repeat(64)).unwrap();
    let text = k.to_text();
    let k2 = KnownHosts::from_text(&text).unwrap();
    let pin = k2.pin_hex("127.0.0.1", 8443).unwrap();
    assert_eq!(pin, [0xaa; 32]);
}

#[test]
fn parse_line_uppercase_hex() {
    let text = format!("example.com 443 {}\n", "b".repeat(64));
    let k = KnownHosts::from_text(&text).unwrap();
    assert!(k.pin_hex("example.com", 443).is_ok());
}

#[test]
fn uppercase_hex_and_host_are_normalized() {
    let text = format!("Example.COM 443 {}\n", "AB".repeat(32));
    let k = KnownHosts::from_text(&text).unwrap();
    assert_eq!(k.pin_hex("example.com", 443).unwrap(), [0xab; 32]);
    assert_eq!(k.pin_hex("EXAMPLE.com", 443).unwrap(), [0xab; 32]);
}

#[test]
fn saved_text_is_sorted() {
    let mut k = KnownHosts::default();
    k.insert_hex("b.example", 2, &"0".repeat(64)).unwrap();
    k.insert_hex("a.example", 9, &"1".repeat(64)).unwrap();
    k.insert_hex("a.example", 1, &"f".repeat(64)).unwrap();
    let expected = format!(
        "# sao known_hosts: host port spki_sha256_hex\na.example 1 {}\na.example 9 {}\nb.example 2 {}\n",
        "f".repeat(64),
        "1".repeat(64),
        "0".repeat(64)
    );
    assert_eq!(k.to_text(), expected);
}

#[test]
fn later_insert_replaces_pin() {
    let mut k = KnownHosts::default();
    k.insert_hex("[::1]", 8443, &"1".repeat(64)).unwrap();
    k.insert_hex("::1", 8443, &"2".repeat(64)).unwrap();
    assert_eq!(k.pin_hex("::1", 8443).unwrap(), [0x22; 32]);
    assert_eq!(k.to_text().lines().count(), 2);
}

#[test]
fn missing_pin_is_reported_with_normalized_host() {
    let k = KnownHosts::default();
    match k.pin_hex("Example.com", 443) {
        Err(CoreError::KnownHostsMissing(m)) => assert_eq!(m, "example.com:443"),
        r => panic!("unexpected {r:?}"),
    }
}

#[test]
fn malformed_lines_are_refused() {
    match KnownHosts::from_text("# c\n\nhost 443\n") {
        Err(CoreError::KnownHostsLine(m)) => assert_eq!(m, "line 3: need host port fingerprint"),
        r => panic!("unexpected {r:?}"),
    }
    match KnownHosts::from_text(&format!("host 70000 {}\n", "a".repeat(64))) {
        Err(CoreError::KnownHostsLine(m)) => assert_eq!(m, "line 1: bad port"),
        r => panic!("unexpected {r:?}"),
    }
    match KnownHosts::from_text("host 443 ABC\n") {
        Err(CoreError::InvalidFingerprint(m)) => assert_eq!(m, "abc"),
        r => panic!("unexpected {r:?}"),
    }
    let mut k = KnownHosts::default();
    match k.insert_hex("h", 1, &"g".repeat(64)) {
        Err(CoreError::InvalidFingerprint(m)) => assert_eq!(m, "g".repeat(64)),
        r => panic!("unexpected {r:?}"),
    }
}

#[test]
fn signed_port_is_read_like_std() {
    let text = format!("h +443 {}\n", "f".repeat(64));
    let k = KnownHosts::from_text(&text).unwrap();
    assert_eq!(k.pin_hex("h", 443).unwrap(), [0xff; 32]);
}

#[test]
fn plus_signed_pairs_are_refused() {
    let fp = "+f".repeat(32);
    let mut k = KnownHosts::default();
    match k.insert_hex("h", 1, &fp) {
        Err(CoreError::InvalidFingerprint(m)) => assert_eq!(m, fp),
        r => panic!("unexpected {r:?}"),
    }
    assert!(k.pin_hex("h", 1).is_err());
    assert!(matches!(
        KnownHosts::from_text(&format!("h 1 {fp}\n")),
        Err(CoreError::InvalidFingerprint(_))
    ));
}

#[test]
fn multibyte_characters_are_refused() {
    // 62 ASCII bytes then a two-byte character at an odd offset: 64 bytes in all.
    let fp = format!("{}é{}", "a".repeat(61), "a");
    assert_eq!(fp.len(), 64);
    let mut k = KnownHosts::default();
    match k.insert_hex("h", 1, &fp) {
        Err(CoreError::InvalidFingerprint(m)) => assert_eq!(m, fp),
        r => panic!("unexpected {r:?}"),
    }
    match KnownHosts::from_text(&format!("h 1 {fp}\n")) {
        Err(CoreError::InvalidFingerprint(m)) => assert_eq!(m, fp),
        r => panic!("unexpected {r:?}"),
    }
    let fp2 = format!("{}é{}", "a".repeat(60), "aa");
    assert!(matches!(k.insert_hex("h", 1, &fp2), Err(CoreError::InvalidFingerprint(_))));
    let fp3 = format!("{}É", "a".repeat(63));
    match k.insert_hex("h", 1, &fp3) {
        Err(CoreError::InvalidFingerprint(m)) => assert_eq!(m, format!("{}é", "a".repeat(63))),
        r => panic!("unexpected {r:?}"),
    }
}

#[test]
fn non_ascii_fingerprints_are_refused() {
    let fp = format!("{}\u{FF10}", "a".repeat(63));
    let mut k = KnownHosts::default();
    assert!(matches!(k.insert_hex("h", 1, &fp), Err(CoreError::InvalidFingerprint(_))));
    assert!(k.pin_hex("h", 1).is_err());
}
