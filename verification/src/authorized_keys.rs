//! `authorized_keys` lines: `sao-ed25519 <base64> [comment...]`; key
//! fingerprints; lookup by fingerprint; signature checks.

use vstd::prelude::*;

use crate::crypto;
use crate::crypto::{ed25519_check_public_key, ed25519_verify_strict, sha256_digest};
use crate::encoding;
use crate::encoding::{decode_base64, hex_encode};
use crate::error::CoreError;
use crate::text;
use crate::text::{
    chars_eq, join_words_from, line_message, lowercase_chars, split_lines, split_whitespace,
    str_chars, string_from_chars, trim_chars,
};

verus! {

/// The key type of Ed25519 agent keys.
pub const KEY_TYPE_ED25519: &'static str = "sao-ed25519";

/// One accepted key line.
#[derive(Debug, Clone)]
pub struct AuthorizedKey {
    pub key_type: String,
    /// Raw 32-byte Ed25519 public key.
    pub verifying_key: [u8; 32],
    /// SHA-256(pubkey 32 bytes) hex — matches `AuthResponse.fingerprint`.
    pub fingerprint_hex: String,
    pub comment: String,
}

/// What an [`AuthorizedKey`] holds.
pub struct KeyEntry {
    pub key_type: Seq<char>,
    pub key: Seq<u8>,
    pub fingerprint: Seq<char>,
    pub comment: Seq<char>,
}

impl View for AuthorizedKey {
    type V = KeyEntry;

    open spec fn view(&self) -> KeyEntry {
        KeyEntry {
            key_type: self.key_type@,
            key: self.verifying_key@,
            fingerprint: self.fingerprint_hex@,
            comment: self.comment@,
        }
    }
}

/// Fingerprint of an Ed25519 public key: lowercase hex of its SHA-256.
pub open spec fn fingerprint_of(pk: Seq<u8>) -> Seq<char> {
    encoding::hex_lower(crypto::sha256(pk))
}

/// Fingerprint for an Ed25519 raw public key (32 bytes): `hex(sha256(pk))`.
pub fn ed25519_fingerprint_hex(pk: &[u8; 32]) -> (r: String)
    ensures
        r@ == fingerprint_of(pk@),
{
    let d = sha256_digest(pk);
    hex_encode(&d)
}

/// What one line of an `authorized_keys` file contributes.
pub enum KeyLine {
    /// Blank, comment, or a key of another type.
    Skip,
    /// An accepted Ed25519 key.
    Key(KeyEntry),
    /// The file is refused with this message.
    Fail(Seq<char>),
}

/// What line number `n` (from 1) with text `line` contributes.
pub open spec fn key_line(line: Seq<char>, n: nat) -> KeyLine {
    let t = text::trim_ws(line);
    if t.len() == 0 || t[0] == '#' {
        KeyLine::Skip
    } else {
        let parts = text::ws_tokens(t);
        if parts.len() < 2 {
            KeyLine::Fail(text::line_msg(n, "missing key blob"@))
        } else if parts[0] != KEY_TYPE_ED25519@ {
            KeyLine::Skip
        } else {
            match encoding::base64_decoded(parts[1]) {
                Err(e) => KeyLine::Fail(text::line_msg(n, e)),
                Ok(raw) => if raw.len() != 32 {
                    KeyLine::Fail(text::line_msg(n, "ed25519 key must decode to 32 bytes"@))
                } else {
                    match crypto::ed25519_public_key_error(raw) {
                        Some(e) => KeyLine::Fail(text::line_msg(n, e)),
                        None => KeyLine::Key(
                            KeyEntry {
                                key_type: parts[0],
                                key: raw,
                                fingerprint: fingerprint_of(raw),
                                comment: text::join_with_space(parts.skip(2)),
                            },
                        ),
                    }
                },
            }
        }
    }
}

/// The keys of `lines[i..]` after the keys `acc` of the lines before.
pub open spec fn keys_from(lines: Seq<Seq<char>>, i: nat, acc: Seq<KeyEntry>) -> Result<
    Seq<KeyEntry>,
    Seq<char>,
>
    decreases lines.len() - i,
{
    if i >= lines.len() {
        if acc.len() == 0 {
            Err("no sao-ed25519 keys in file"@)
        } else {
            Ok(acc)
        }
    } else {
        match key_line(lines[i as int], i + 1) {
            KeyLine::Skip => keys_from(lines, i + 1, acc),
            KeyLine::Key(k) => keys_from(lines, i + 1, acc.push(k)),
            KeyLine::Fail(m) => Err(m),
        }
    }
}

/// The keys of an `authorized_keys` file, in file order, or the message it is refused with.
pub open spec fn authorized_keys_of(text: Seq<char>) -> Result<Seq<KeyEntry>, Seq<char>> {
    keys_from(text::text_lines(text), 0, Seq::empty())
}

/// Parses the text of an `authorized_keys` file. Keys of other types are
/// skipped; the file must hold at least one Ed25519 key.
pub fn parse_authorized_keys(text: &str) -> (r: Result<Vec<AuthorizedKey>, CoreError>)
    ensures
        match r {
            Ok(keys) => authorized_keys_of(text@) == Ok::<Seq<KeyEntry>, Seq<char>>(
                keys@.map_values(|k: AuthorizedKey| k@),
            ),
            Err(e) => e matches CoreError::AuthorizedKeys(m) && authorized_keys_of(text@) == Err::<
                Seq<KeyEntry>,
                Seq<char>,
            >(m@),
        },
{
    let chars = str_chars(text);
    let lines = split_lines(&chars);
    let ghost ls = text::text_lines(text@);
    assert(lines@.map_values(|l: Vec<char>| l@) =~= ls);
    let key_type_chars = str_chars(KEY_TYPE_ED25519);
    let mut out: Vec<AuthorizedKey> = Vec::new();
    let mut idx: usize = 0;
    assert(out@.map_values(|k: AuthorizedKey| k@) =~= Seq::<KeyEntry>::empty());
    while idx < lines.len()
        invariant
            lines@.len() == ls.len(),
            forall|k: int| 0 <= k < lines@.len() ==> #[trigger] lines@[k]@ == ls[k],
            key_type_chars@ == KEY_TYPE_ED25519@,
            idx <= ls.len(),
            authorized_keys_of(text@) == keys_from(ls, idx as nat, out@.map_values(|k: AuthorizedKey| k@)),
        decreases ls.len() - idx,
    {
        let ghost acc = out@.map_values(|k: AuthorizedKey| k@);
        let n = idx + 1;
        let line = trim_chars(&lines[idx]);
        if line.len() == 0 || line[0] == '#' {
            idx = idx + 1;
            continue;
        }
        let parts = split_whitespace(&line);
        if parts.len() < 2 {
            let m = line_message(n, &str_chars("missing key blob"));
            return Err(CoreError::AuthorizedKeys(m));
        }
        if !chars_eq(&parts[0], &key_type_chars) {
            idx = idx + 1;
            continue;
        }
        let comment_chars = join_words_from(&parts, 2);
        let ghost words = text::ws_tokens(line@);
        assert(parts@.skip(2).map_values(|w: Vec<char>| w@) =~= words.skip(2));
        let b64 = string_from_chars(&parts[1]);
        let raw = match decode_base64(b64.as_str()) {
            Ok(raw) => raw,
            Err(e) => {
                let m = line_message(n, &str_chars(e.as_str()));
                return Err(CoreError::AuthorizedKeys(m));
            },
        };
        if raw.len() != 32 {
            let m = line_message(n, &str_chars("ed25519 key must decode to 32 bytes"));
            return Err(CoreError::AuthorizedKeys(m));
        }
        let mut arr = [0u8; 32];
        for j in 0..32
            invariant
                raw@.len() == 32,
                forall|k: int| 0 <= k < j ==> arr@[k] == raw@[k],
        {
            arr[j] = raw[j];
        }
        assert(arr@ =~= raw@);
        match ed25519_check_public_key(&arr) {
            Ok(()) => {},
            Err(e) => {
                let m = line_message(n, &str_chars(e.as_str()));
                return Err(CoreError::AuthorizedKeys(m));
            },
        }
        let fp = ed25519_fingerprint_hex(&arr);
        let key = AuthorizedKey {
            key_type: string_from_chars(&parts[0]),
            verifying_key: arr,
            fingerprint_hex: fp,
            comment: string_from_chars(&comment_chars),
        };
        out.push(key);
        assert(out@.map_values(|k: AuthorizedKey| k@) =~= acc.push(key@));
        idx = idx + 1;
    }
    if out.len() == 0 {
        return Err(CoreError::AuthorizedKeys(string_from_chars(&str_chars("no sao-ed25519 keys in file"))));
    }
    Ok(out)
}

/// The fingerprint a lookup compares with: the given text, trimmed and lowercased.
pub open spec fn normalized_fingerprint(fp: Seq<char>) -> Seq<char> {
    text::str_lowercase(text::trim_ws(fp))
}

/// The fingerprint an agent sends is the one the server's lookup compares
/// with: trimming and lowercasing leave a key fingerprint unchanged.
pub proof fn lemma_fingerprint_normalized(pk: Seq<u8>)
    ensures
        normalized_fingerprint(fingerprint_of(pk)) == fingerprint_of(pk),
{
    let d = crypto::sha256(pk);
    let h = fingerprint_of(pk);
    encoding::lemma_hex_lower_index(d);
    assert forall|k: int| 0 <= k < h.len() implies {
        let u = #[trigger] h[k] as u32;
        (48 <= u && u <= 57) || (97 <= u && u <= 102)
    } by {
        let i = k / 2;
        assert(0 <= i < d.len());
        if k % 2 == 0 {
            assert(k == 2 * i);
            assert(h[k] == encoding::hex_digit_lower((d[i] / 16) as int));
        } else {
            assert(k == 2 * i + 1);
            assert(h[k] == encoding::hex_digit_lower((d[i] % 16) as int));
        }
    }
    if h.len() > 0 {
        text::lemma_trim_plain(h);
    } else {
        assert(text::trim_ws(h) == h);
    }
    assert(text::all_ascii(h));
    assert(h.map_values(|c: char| text::ascii_lower(c)) =~= h);
}

/// The first key whose fingerprint equals `fingerprint_hex`, trimmed and lowercased.
pub fn find_key<'a>(keys: &'a [AuthorizedKey], fingerprint_hex: &str) -> (r: Option<&'a AuthorizedKey>)
    ensures
        match r {
            Some(k) => exists|i: int|
                0 <= i < keys@.len() && keys@[i] == *k && (#[trigger] keys@[i]).fingerprint_hex@
                    == normalized_fingerprint(fingerprint_hex@) && forall|j: int|
                    0 <= j < i ==> keys@[j].fingerprint_hex@ != normalized_fingerprint(
                        fingerprint_hex@,
                    ),
            None => forall|i: int|
                0 <= i < keys@.len() ==> (#[trigger] keys@[i]).fingerprint_hex@
                    != normalized_fingerprint(fingerprint_hex@),
        },
{
    let fp = lowercase_chars(&trim_chars(&str_chars(fingerprint_hex)));
    for i in 0..keys.len()
        invariant
            fp@ == normalized_fingerprint(fingerprint_hex@),
            forall|j: int| 0 <= j < i ==> keys@[j].fingerprint_hex@ != fp@,
    {
        if chars_eq(&str_chars(keys[i].fingerprint_hex.as_str()), &fp) {
            return Some(&keys[i]);
        }
    }
    None
}

/// What checking the Base64 signature `sig_b64` on `message` under `vk` gives:
/// `None` when it verifies, otherwise the error message.
pub open spec fn signature_check(vk: Seq<u8>, message: Seq<u8>, sig_b64: Seq<char>) -> Option<Seq<char>> {
    match encoding::base64_decoded(sig_b64) {
        Err(e) => Some(e),
        Ok(raw) => if raw.len() != 64 {
            Some("bad signature length"@)
        } else if !crypto::ed25519_verify_strict_ok(vk, message, raw) {
            Some("signature verify failed"@)
        } else {
            None
        },
    }
}

/// Checks a Base64 Ed25519 signature (strict verification).
pub fn verify_ed25519_signature(vk: &[u8; 32], message: &[u8], sig_b64: &str) -> (r: Result<
    (),
    CoreError,
>)
    ensures
        match r {
            Ok(()) => signature_check(vk@, message@, sig_b64@) is None,
            Err(e) => e matches CoreError::Ed25519(m) && signature_check(vk@, message@, sig_b64@)
                == Some(m@),
        },
{
    let raw = match decode_base64(sig_b64) {
        Ok(raw) => raw,
        Err(e) => return Err(CoreError::Ed25519(e)),
    };
    if raw.len() != 64 {
        return Err(CoreError::Ed25519(string_from_chars(&str_chars("bad signature length"))));
    }
    let mut sig = [0u8; 64];
    for j in 0..64
        invariant
            raw@.len() == 64,
            forall|k: int| 0 <= k < j ==> sig@[k] == raw@[k],
    {
        sig[j] = raw[j];
    }
    assert(sig@ =~= raw@);
    if !ed25519_verify_strict(vk, message, &sig) {
        return Err(CoreError::Ed25519(string_from_chars(&str_chars("signature verify failed"))));
    }
    Ok(())
}

} // verus!
