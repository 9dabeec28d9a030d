//! Agent Ed25519 key material: the private key file, the public line for a
//! server's `authorized_keys`, and signing.

use vstd::prelude::*;

use crate::authorized_keys::{ed25519_fingerprint_hex, KEY_TYPE_ED25519};
use crate::crypto;
use crate::crypto::{ed25519_generate_secret, ed25519_public_key, ed25519_sign};
use crate::encoding;
use crate::encoding::{base64_encode, decode_base64};
use crate::error::CoreError;
use crate::paths;
use crate::paths::{file_name_of, join_path, popped};
use crate::text;
use crate::text::{
    chars_eq, split_lines, str_chars, string_from_chars, string_push, string_push_str, trim_chars,
};

verus! {

/// First line of a private key file.
pub const FILE_HEADER: &'static str = "sao-ed25519-private-v1";

/// The path of the public line next to the private key file at `p`:
/// the file name gets `.pub` appended (`agent.ed25519` when `p` has none).
pub open spec fn public_key_path_of(p: Seq<char>) -> Seq<char> {
    let name = match paths::path_file_name(p) {
        Some(n) => n,
        None => "agent.ed25519"@,
    };
    paths::path_joined(paths::path_popped(p), name + ".pub"@)
}

/// Path for the public line next to the private key file (e.g. `agent.ed25519` → `agent.ed25519.pub`).
pub fn public_key_path(private_key_path: &str) -> (r: String)
    ensures
        r@ == public_key_path_of(private_key_path@),
{
    let mut name = match file_name_of(private_key_path) {
        Some(n) => n,
        None => "agent.ed25519".to_string(),
    };
    string_push_str(&mut name, ".pub");
    let parent = popped(private_key_path);
    join_path(parent.as_str(), name.as_str())
}

/// `sao-ed25519 <base64 public key> agent`: the line for a server's `authorized_keys`.
pub open spec fn agent_key_line(pk: Seq<u8>) -> Seq<char> {
    KEY_TYPE_ED25519@ + seq![' '] + encoding::base64_standard(pk) + " agent"@
}

/// The comment line that opens the public key file.
pub open spec fn pub_file_comment() -> Seq<char> {
    "# Append this line to the server's authorized_keys file."@
}

/// The text of the public key file: a comment line, then the key line.
pub open spec fn agent_pub_file(pk: Seq<u8>) -> Seq<char> {
    pub_file_comment() + seq!['\n'] + agent_key_line(pk) + seq!['\n']
}

/// The text of the public key file written beside the private key file.
pub fn agent_public_key_file_text(public_key: &[u8; 32]) -> (r: String)
    ensures
        r@ == agent_pub_file(public_key@),
{
    let mut s = String::new();
    string_push_str(&mut s, "# Append this line to the server's authorized_keys file.");
    string_push(&mut s, '\n');
    string_push_str(&mut s, KEY_TYPE_ED25519);
    string_push(&mut s, ' ');
    let b64 = base64_encode(public_key);
    string_push_str(&mut s, b64.as_str());
    string_push_str(&mut s, " agent");
    string_push(&mut s, '\n');
    assert(s@ =~= agent_pub_file(public_key@));
    s
}

/// The text of a private key file: the header line, then the Base64 secret key.
pub open spec fn private_key_file(secret: Seq<u8>) -> Seq<char> {
    FILE_HEADER@ + seq!['\n'] + encoding::base64_standard(secret) + seq!['\n']
}

/// The text of a newly created private key file.
pub fn private_key_file_text(secret: &[u8; 32]) -> (r: String)
    ensures
        r@ == private_key_file(secret@),
{
    let mut s = String::new();
    string_push_str(&mut s, FILE_HEADER);
    string_push(&mut s, '\n');
    let b64 = base64_encode(secret);
    string_push_str(&mut s, b64.as_str());
    string_push(&mut s, '\n');
    assert(s@ =~= private_key_file(secret@));
    s
}

/// The secret key that lines `lines[i..]` of a private key file hold: the first
/// line that is not the header, blank or a comment must be the Base64 of 32 bytes.
pub open spec fn private_key_from(lines: Seq<Seq<char>>, i: nat) -> Result<Seq<u8>, Seq<char>>
    decreases lines.len() - i,
{
    if i >= lines.len() {
        Err("no key material in file"@)
    } else {
        let l = text::trim_ws(lines[i as int]);
        if l == FILE_HEADER@ || l.len() == 0 || l[0] == '#' {
            private_key_from(lines, i + 1)
        } else {
            match encoding::base64_decoded(l) {
                Err(e) => Err(e),
                Ok(raw) => if raw.len() != 32 {
                    Err("private key must be 32 bytes"@)
                } else {
                    Ok(raw)
                },
            }
        }
    }
}

/// The secret key a private key file holds, or the message it is refused with.
pub open spec fn private_key_of_file(text: Seq<char>) -> Result<Seq<u8>, Seq<char>> {
    private_key_from(text::text_lines(text), 0)
}

/// Reads the secret key out of the text of a private key file.
pub fn parse_private_key_file(text: &str) -> (r: Result<[u8; 32], CoreError>)
    ensures
        match r {
            Ok(k) => private_key_of_file(text@) == Ok::<Seq<u8>, Seq<char>>(k@),
            Err(e) => e matches CoreError::Ed25519(m) && private_key_of_file(text@) == Err::<
                Seq<u8>,
                Seq<char>,
            >(m@),
        },
{
    let chars = str_chars(text);
    let lines = split_lines(&chars);
    let ghost ls = text::text_lines(text@);
    let header = str_chars(FILE_HEADER);
    let mut idx: usize = 0;
    while idx < lines.len()
        invariant
            lines@.len() == ls.len(),
            forall|k: int| 0 <= k < lines@.len() ==> #[trigger] lines@[k]@ == ls[k],
            header@ == FILE_HEADER@,
            idx <= ls.len(),
            private_key_of_file(text@) == private_key_from(ls, idx as nat),
        decreases ls.len() - idx,
    {
        let line = trim_chars(&lines[idx]);
        if chars_eq(&line, &header) || line.len() == 0 || line[0] == '#' {
            idx = idx + 1;
            continue;
        }
        let b64 = string_from_chars(&line);
        let raw = match decode_base64(b64.as_str()) {
            Ok(raw) => raw,
            Err(e) => return Err(CoreError::Ed25519(e)),
        };
        if raw.len() != 32 {
            return Err(CoreError::Ed25519("private key must be 32 bytes".to_string()));
        }
        let mut arr = [0u8; 32];
        for j in 0..32
            invariant
                raw@.len() == 32,
                forall|k: int| 0 <= k < j ==> arr@[k] == raw@[k],
        {
            arr[j] = raw[j];
        }
        assert(arr@ =~= raw@);
        return Ok(arr);
    }
    Err(CoreError::Ed25519("no key material in file".to_string()))
}

/// Base64 text has no white space and no `#`, and is not empty for 32 bytes.
proof fn lemma_base64_plain(b: Seq<u8>)
    requires
        b.len() == 32,
    ensures
        encoding::base64_standard(b).len() == 44,
        text::no_whitespace(encoding::base64_standard(b)),
        forall|i: int|
            0 <= i < encoding::base64_standard(b).len() ==> #[trigger] encoding::base64_standard(
                b,
            )[i] != '\n' && encoding::base64_standard(b)[i] != '\r' && encoding::base64_standard(b)[i]
                != '#',
{
    encoding::lemma_base64_len(b);
    encoding::lemma_base64_chars(b);
    let e = encoding::base64_standard(b);
    assert forall|i: int| 0 <= i < e.len() implies !text::char_is_whitespace(#[trigger] e[i]) by {
        assert(encoding::is_base64_char(e[i]));
    }
    assert forall|i: int| 0 <= i < e.len() implies #[trigger] e[i] != '\n' && e[i] != '\r' && e[i] != '#' by {
        assert(encoding::is_base64_char(e[i]));
    }
}

/// A key file written for a secret key reads back to that secret key.
pub proof fn lemma_private_key_file_roundtrip(secret: Seq<u8>)
    requires
        secret.len() == 32,
    ensures
        private_key_of_file(private_key_file(secret)) == Ok::<Seq<u8>, Seq<char>>(secret),
{
    let b64 = encoding::base64_standard(secret);
    lemma_base64_plain(secret);
    reveal_strlit("sao-ed25519-private-v1");
    let header = FILE_HEADER@;
    let first = header + seq!['\n'];
    text::lemma_lines_one(header, Seq::empty());
    assert(Seq::<char>::empty() + header =~= header);
    text::lemma_lines_one(b64, Seq::empty());
    assert(Seq::<char>::empty() + b64 =~= b64);
    text::lemma_lines_concat(first, b64 + seq!['\n'], Seq::empty());
    assert(private_key_file(secret) =~= first + (b64 + seq!['\n']));
    let ls = text::text_lines(private_key_file(secret));
    assert(ls =~= seq![header, b64]);
    assert(text::trim_ws(header) == header);
    text::lemma_trim_plain(b64);
    assert(b64 != header);
    encoding::lemma_base64_decode_encode(secret);
    assert(private_key_from(ls, 1) == Ok::<Seq<u8>, Seq<char>>(secret));
    assert(private_key_from(ls, 0) == private_key_from(ls, 1));
}

/// The key line of an agent's public key file: what a server that appends
/// the file to its `authorized_keys` accepts is exactly that key, with the
/// comment `agent`.
pub proof fn lemma_agent_pub_file_accepted(pk: Seq<u8>)
    requires
        pk.len() == 32,
        crypto::ed25519_public_key_error(pk) is None,
    ensures
        crate::authorized_keys::authorized_keys_of(agent_pub_file(pk)) == Ok::<
            Seq<crate::authorized_keys::KeyEntry>,
            Seq<char>,
        >(
            seq![
                crate::authorized_keys::KeyEntry {
                    key_type: KEY_TYPE_ED25519@,
                    key: pk,
                    fingerprint: crate::authorized_keys::fingerprint_of(pk),
                    comment: "agent"@,
                },
            ],
        ),
{
    let b64 = encoding::base64_standard(pk);
    lemma_base64_plain(pk);
    reveal_strlit("# Append this line to the server's authorized_keys file.");
    reveal_strlit("sao-ed25519");
    reveal_strlit(" agent");
    reveal_strlit("agent");
    let comment = pub_file_comment();
    let line = agent_key_line(pk);
    let kt = KEY_TYPE_ED25519@;
    let agent = "agent"@;
    assert(" agent"@ =~= seq![' '] + agent);
    assert(line =~= kt + seq![' '] + b64 + seq![' '] + agent);
    assert(text::no_whitespace(kt));
    assert(text::no_whitespace(agent));
    text::lemma_tokens_three(kt, b64, agent);
    assert forall|i: int| 0 <= i < line.len() implies #[trigger] line[i] != '\n' by {
        if i < kt.len() {
            assert(line[i] == kt[i]);
        } else if i == kt.len() {
        } else if i < kt.len() + 1 + b64.len() {
            assert(line[i] == b64[i - kt.len() - 1]);
        } else if i == kt.len() + 1 + b64.len() {
        } else {
            assert(line[i] == agent[i - kt.len() - 2 - b64.len()]);
        }
    }
    text::lemma_lines_one(comment, Seq::empty());
    assert(Seq::<char>::empty() + comment =~= comment);
    text::lemma_lines_one(line, Seq::empty());
    assert(Seq::<char>::empty() + line =~= line);
    text::lemma_lines_concat(comment + seq!['\n'], line + seq!['\n'], Seq::empty());
    assert(agent_pub_file(pk) =~= (comment + seq!['\n']) + (line + seq!['\n']));
    let ls = text::text_lines(agent_pub_file(pk));
    assert(ls =~= seq![comment, line]);
    assert(text::trim_ws(comment) == comment);
    text::lemma_trim_plain(line);
    let parts = text::ws_tokens(line);
    assert(parts.skip(2) =~= seq![agent]);
    encoding::lemma_base64_decode_encode(pk);
    let entry = crate::authorized_keys::KeyEntry {
        key_type: kt,
        key: pk,
        fingerprint: crate::authorized_keys::fingerprint_of(pk),
        comment: agent,
    };
    assert(crate::authorized_keys::key_line(line, 2) == crate::authorized_keys::KeyLine::Key(entry));
    assert(crate::authorized_keys::key_line(comment, 1) == crate::authorized_keys::KeyLine::Skip);
    let e0 = Seq::<crate::authorized_keys::KeyEntry>::empty();
    assert(e0.push(entry) =~= seq![entry]);
    assert(crate::authorized_keys::keys_from(ls, 2, seq![entry]) == Ok::<
        Seq<crate::authorized_keys::KeyEntry>,
        Seq<char>,
    >(seq![entry]));
    assert(crate::authorized_keys::keys_from(ls, 1, e0) == crate::authorized_keys::keys_from(
        ls,
        2,
        seq![entry],
    ));
    assert(crate::authorized_keys::keys_from(ls, 0, e0) == crate::authorized_keys::keys_from(
        ls,
        1,
        e0,
    ));
}

/// A new agent key: the bytes of a fresh random secret key and the text of
/// the key file that stores them, which reads back to the same key.
pub fn new_private_key_file() -> (r: ([u8; 32], String))
    ensures
        r.1@ == private_key_file(r.0@),
        private_key_of_file(r.1@) == Ok::<Seq<u8>, Seq<char>>(r.0@),
{
    let secret = ed25519_generate_secret();
    let text = private_key_file_text(&secret);
    proof {
        lemma_private_key_file_roundtrip(secret@);
    }
    (secret, text)
}

/// The public key of an agent's secret key, and the fingerprint the server
/// looks that key up by.
pub fn agent_identity(secret: &[u8; 32]) -> (r: ([u8; 32], String))
    ensures
        r.0@ == crypto::ed25519_public_key_of(secret@),
        crypto::ed25519_public_key_error(r.0@) is None,
        r.1@ == crate::authorized_keys::fingerprint_of(r.0@),
{
    let pk = ed25519_public_key(secret);
    let fp = ed25519_fingerprint_hex(&pk);
    (pk, fp)
}

/// The Base64 Ed25519 signature of `message` by the agent's secret key (88
/// characters). It passes the signature check under the key's own public
/// key, unless the nonce that signing derives is zero.
pub fn sign_auth_message(secret: &[u8; 32], message: &[u8]) -> (r: String)
    ensures
        r@ == encoding::base64_standard(crypto::ed25519_signature(secret@, message@)),
        r@.len() == 88,
        !crypto::ed25519_signing_nonce_is_zero(secret@, message@)
            ==> crate::authorized_keys::signature_check(
            crypto::ed25519_public_key_of(secret@),
            message@,
            r@,
        ) is None,
{
    let sig = ed25519_sign(secret, message);
    let r = base64_encode(&sig);
    proof {
        encoding::lemma_base64_decode_encode(sig@);
        encoding::lemma_base64_len(sig@);
    }
    r
}

} // verus!
