use sao::agent_key::{agent_public_key_file_text, private_key_file_text};
use sao::authorized_keys::ed25519_fingerprint_hex;
use sao::encoding::{decode_base64, parse_u16, push_decimal, push_hex_byte};
use sao::signing_bytes;
use sao::text::{split_lines, split_whitespace, str_chars, trim_chars};

#[test]
fn base64_values() {
    assert_eq!(
        private_key_file_text(&[0u8; 32]),
        format!("sao-ed25519-private-v1\n{}=\n", "A".repeat(43))
    );
    let mut pk = [0xffu8; 32];
    pk[0] = 0xfb;
    let body = agent_public_key_file_text(&pk);
    assert!(body.ends_with(&format!("sao-ed25519 +/{}8= agent\n", "/".repeat(40))));
    assert_eq!(decode_base64("Zm9vYg==").unwrap(), b"foob");
    assert!(decode_base64("Zm9vYg").is_err());
    assert!(decode_base64("Zm9vYh==").is_err());
    assert!(decode_base64(" Zg==").is_err());
}

#[test]
fn hex_and_decimal() {
    assert_eq!(
        ed25519_fingerprint_hex(&[0u8; 32]),
        "66687aadf862bd776c8fc18b8e9f8e20089714856ee233b3902a591d0d5f2925"
    );
    let mut s = String::new();
    push_decimal(&mut s, 0);
    s.push(' ');
    push_decimal(&mut s, 65535);
    s.push(' ');
    push_hex_byte(&mut s, 0x0f);
    assert_eq!(s, "0 65535 0f");
}

#[test]
fn u16_parsing_like_std() {
    for t in ["0", "443", "+80", "065535", "65536", "", "+", "-1", "1 ", "++1"] {
        let chars = str_chars(t);
        assert_eq!(parse_u16(&chars), t.parse::<u16>().ok(), "{t:?}");
    }
}

#[test]
fn lines_and_tokens_like_std() {
    for t in ["a\nb\r\n\nc\r", "", "\n", "x\n", "  a  b\tc\u{3000}d "] {
        let chars = str_chars(t);
        let lines: Vec<String> = split_lines(&chars).iter().map(|l| l.iter().collect()).collect();
        let std_lines: Vec<String> = t.lines().map(|l| l.to_string()).collect();
        assert_eq!(lines, std_lines, "{t:?}");
        let toks: Vec<String> = split_whitespace(&chars).iter().map(|l| l.iter().collect()).collect();
        let std_toks: Vec<String> = t.split_whitespace().map(|l| l.to_string()).collect();
        assert_eq!(toks, std_toks, "{t:?}");
        let trimmed: String = trim_chars(&chars).iter().collect();
        assert_eq!(trimmed, t.trim(), "{t:?}");
    }
}

#[test]
fn signed_bytes_layout() {
    let v = signing_bytes(&[1, 2], "sé");
    let mut expected = b"sao-auth-v1\0".to_vec();
    expected.extend_from_slice(&[1, 2]);
    expected.extend_from_slice("sé".as_bytes());
    assert_eq!(v, expected);
}
