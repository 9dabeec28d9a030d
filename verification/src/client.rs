//! Client-side decisions: the `host:port` argument, the trust prompt, and what
//! to do with each frame the server sends.

use vstd::prelude::*;

use crate::agent_key::agent_identity;
use crate::auth_message;
use crate::auth_message::signing_bytes;
use crate::authorized_keys;
use crate::authorized_keys::KEY_TYPE_ED25519;
use crate::crypto;
use crate::crypto::ed25519_sign;
use crate::encoding;
use crate::encoding::{base64_encode, decode_base64, parse_u16, push_hex_byte};
use crate::error::CoreError;
use crate::known_hosts;
use crate::known_hosts::KnownHosts;
use crate::msg_type;
use crate::spki::spki_sha256_bytes_from_cert_der;
use crate::text;
use crate::text::{
    chars_eq, contains_chars, debug_text, find_first, lowercase_chars, str_chars, string_from_chars,
    string_push, string_push_str, sub_chars, trim_chars,
};

verus! {

/// The position of the last `:` in `s`.
pub open spec fn last_colon(s: Seq<char>) -> Option<int>
    decreases s.len(),
{
    if s.len() == 0 {
        None
    } else if s.last() == ':' {
        Some(s.len() - 1)
    } else {
        last_colon(s.drop_last())
    }
}

/// What `parse_addr` gives for `raw`: `[ipv6]:port` or `host:port` (split at
/// the last `:`), after trimming; or the error message.
pub open spec fn parsed_addr(raw: Seq<char>) -> Result<(Seq<char>, u16), Seq<char>> {
    let s = text::trim_ws(raw);
    if s.len() > 0 && s[0] == '[' {
        match text::first_occurrence(s, "]:"@) {
            None => Err("expected [ipv6]:port"@),
            Some(e) => match encoding::parse_u16_text(s.skip(e + 2)) {
                None => Err("bad port"@),
                Some(p) => Ok((s.subrange(1, e), p)),
            },
        }
    } else {
        match last_colon(s) {
            None => Err("expected host:port"@),
            Some(i) => if i == 0 {
                Err("empty host"@)
            } else {
                match encoding::parse_u16_text(s.skip(i + 1)) {
                    None => Err("bad port"@),
                    Some(p) => Ok((s.take(i), p)),
                }
            },
        }
    }
}

/// The last `:` of `a + ":" + d`, where `d` holds no `:`, is the one after `a`.
proof fn lemma_last_colon_suffix(a: Seq<char>, d: Seq<char>)
    requires
        forall|k: int| 0 <= k < d.len() ==> d[k] != ':',
    ensures
        last_colon(a + seq![':'] + d) == Some(a.len() as int),
    decreases d.len(),
{
    let s = a + seq![':'] + d;
    if d.len() > 0 {
        lemma_last_colon_suffix(a, d.drop_last());
        assert(s.drop_last() =~= a + seq![':'] + d.drop_last());
        assert(s.last() == d.last());
    } else {
        assert(s.last() == ':');
    }
}

/// `host:port` is read back as the host and the port: for a host that is not
/// empty, does not start with `[` and has no white space at its ends, the
/// text `host + ":" + decimal(port)` parses to `(host, port)`, whatever
/// colons the host itself holds (the last `:` separates the port).
pub proof fn lemma_parse_addr_host_port(host: Seq<char>, port: u16)
    requires
        host.len() > 0,
        host[0] != '[',
        !text::char_is_whitespace(host[0]),
    ensures
        parsed_addr(host + seq![':'] + encoding::decimal_text(port as nat)) == Ok::<
            (Seq<char>, u16),
            Seq<char>,
        >((host, port)),
{
    let d = encoding::decimal_text(port as nat);
    let s = host + seq![':'] + d;
    encoding::lemma_decimal_digits(port as nat);
    encoding::lemma_parse_u16_decimal(port);
    assert forall|k: int| 0 <= k < d.len() implies d[k] != ':' by {
        assert(encoding::all_digits(d));
    }
    assert(s[0] == host[0]);
    assert(s.last() == d.last());
    assert(encoding::all_digits(d));
    assert(!text::char_is_whitespace(s.last()));
    text::lemma_trim_plain(s);
    lemma_last_colon_suffix(host, d);
    assert(s.skip(host.len() as int + 1) =~= d);
    assert(s.take(host.len() as int) =~= host);
}

/// The last `:` in `s`.
fn find_last_colon(s: &[char]) -> (r: Option<usize>)
    ensures
        match r {
            Some(i) => i < s@.len() && last_colon(s@) == Some(i as int),
            None => last_colon(s@) is None,
        },
{
    let mut n = s.len();
    assert(s@.take(n as int) =~= s@);
    while n > 0
        invariant
            n <= s@.len(),
            last_colon(s@) == last_colon(s@.take(n as int)),
        decreases n,
    {
        if s[n - 1] == ':' {
            return Some(n - 1);
        }
        assert(s@.take(n as int).drop_last() =~= s@.take(n - 1));
        n = n - 1;
    }
    None
}

/// Parses a `host:port` or `[ipv6]:port` argument.
pub fn parse_addr(s: &str) -> (r: Result<(String, u16), String>)
    ensures
        match r {
            Ok((h, p)) => parsed_addr(s@) == Ok::<(Seq<char>, u16), Seq<char>>((h@, p)),
            Err(m) => parsed_addr(s@) == Err::<(Seq<char>, u16), Seq<char>>(m@),
        },
{
    let t = trim_chars(&str_chars(s));
    if t.len() > 0 && t[0] == '[' {
        let end = match find_first(&t, &str_chars("]:")) {
            Some(e) => e,
            None => return Err("expected [ipv6]:port".to_string()),
        };
        proof {
            reveal_strlit("]:");
        }
        assert(end >= 1) by {
            if end == 0 {
                assert(t@.subrange(0, 2)[0] == t@[0]);
            }
        }
        let port_text = sub_chars(&t, end + 2, t.len());
        assert(port_text@ =~= t@.skip(end + 2));
        let port = match parse_u16(&port_text) {
            Some(p) => p,
            None => return Err("bad port".to_string()),
        };
        let host = string_from_chars(&sub_chars(&t, 1, end));
        return Ok((host, port));
    }
    let i = match find_last_colon(&t) {
        Some(i) => i,
        None => return Err("expected host:port".to_string()),
    };
    if i == 0 {
        return Err("empty host".to_string());
    }
    let port_text = sub_chars(&t, i + 1, t.len());
    assert(port_text@ =~= t@.skip(i + 1));
    let port = match parse_u16(&port_text) {
        Some(p) => p,
        None => return Err("bad port".to_string()),
    };
    let host = string_from_chars(&sub_chars(&t, 0, i));
    assert(host@ =~= t@.take(i as int));
    Ok((host, port))
}

/// Whether an answer to a yes/no prompt accepts: `y` or `yes`, after trimming
/// and lowercasing.
pub fn answer_is_yes(line: &str) -> (r: bool)
    ensures
        r == (text::str_lowercase(text::trim_ws(line@)) == "y"@ || text::str_lowercase(
            text::trim_ws(line@),
        ) == "yes"@),
{
    let a = lowercase_chars(&trim_chars(&str_chars(line)));
    chars_eq(&a, &str_chars("y")) || chars_eq(&a, &str_chars("yes"))
}

/// Where a client session stands.
#[derive(Debug, Clone, Copy, PartialEq, Eq)]
pub enum ClientPhase {
    /// Connected; the server's challenge comes first.
    AwaitingChallenge,
    /// The response was sent; the server's verdict comes next.
    AwaitingAuthResult,
    /// The shell request was sent; output and the exit status come next.
    AwaitingOutput,
}

/// The client's frame table: while awaiting the challenge only
/// `AuthChallenge` (0x01) is answered; while awaiting the result only
/// `AuthResult` (0x03) is read; while awaiting output `StreamStdout` (0x11)
/// and `StreamStderr` (0x12) are written out, `ExecExit` (0x13) exits with the
/// remote exit code, `PolicyDenied` (0x20) prints and exits with 126, `Error`
/// (0xFF) prints and exits with 1; every other frame is a failure.
pub proof fn lemma_client_frame_table(phase: ClientPhase, t: u8)
    ensures
        phase == ClientPhase::AwaitingChallenge ==> (t == 0x01u8 <==> client_action_spec(phase, t)
            == Ok::<ClientAction, Seq<char>>(ClientAction::AnswerChallenge)),
        phase == ClientPhase::AwaitingAuthResult ==> (t == 0x03u8 <==> client_action_spec(phase, t)
            == Ok::<ClientAction, Seq<char>>(ClientAction::ReadAuthResult)),
        phase == ClientPhase::AwaitingOutput ==> {
            &&& t == 0x11u8 ==> client_action_spec(phase, t) == Ok::<ClientAction, Seq<char>>(
                ClientAction::WriteStdout,
            )
            &&& t == 0x12u8 ==> client_action_spec(phase, t) == Ok::<ClientAction, Seq<char>>(
                ClientAction::WriteStderr,
            )
            &&& t == 0x13u8 ==> client_action_spec(phase, t) == Ok::<ClientAction, Seq<char>>(
                ClientAction::Exit,
            )
            &&& t == 0x20u8 ==> client_action_spec(phase, t) == Ok::<ClientAction, Seq<char>>(
                ClientAction::PrintPayloadAndExit { code: 126 },
            )
            &&& t == 0xFFu8 ==> client_action_spec(phase, t) == Ok::<ClientAction, Seq<char>>(
                ClientAction::PrintPayloadAndExit { code: 1 },
            )
        },
        client_action_spec(phase, t) is Err <==> !((phase == ClientPhase::AwaitingChallenge && t
            == 0x01u8) || (phase == ClientPhase::AwaitingAuthResult && t == 0x03u8) || (phase
            == ClientPhase::AwaitingOutput && (t == 0x11u8 || t == 0x12u8 || t == 0x13u8 || t
            == 0x20u8 || t == 0xFFu8))),
{
}

/// What the client does with a frame.
#[derive(Debug, Clone, PartialEq, Eq)]
pub enum ClientAction {
    /// Sign the challenge and send the response.
    AnswerChallenge,
    /// Read the verdict and, when it accepts, send the shell request.
    ReadAuthResult,
    /// Write the decoded chunk to stdout.
    WriteStdout,
    /// Write the decoded chunk to stderr.
    WriteStderr,
    /// Exit with the command's exit code.
    Exit,
    /// Print the payload to stderr and exit with this code.
    PrintPayloadAndExit { code: i32 },
    /// Fail with this message.
    Fail { message: String },
}

/// `unexpected msg_type 0x..` for the type `t`.
pub open spec fn unexpected_type_text(t: u8) -> Seq<char> {
    "unexpected msg_type 0x"@ + encoding::hex_lower(seq![t])
}

/// The action for a frame of type `t` in `phase`: `None` stands for a failure
/// with the given message.
pub open spec fn client_action_spec(phase: ClientPhase, t: u8) -> Result<ClientAction, Seq<char>> {
    match phase {
        ClientPhase::AwaitingChallenge => if t == msg_type::AUTH_CHALLENGE {
            Ok(ClientAction::AnswerChallenge)
        } else {
            Err("expected AuthChallenge"@)
        },
        ClientPhase::AwaitingAuthResult => if t == msg_type::AUTH_RESULT {
            Ok(ClientAction::ReadAuthResult)
        } else {
            Err("expected AuthResult"@)
        },
        ClientPhase::AwaitingOutput => if t == msg_type::STREAM_STDOUT {
            Ok(ClientAction::WriteStdout)
        } else if t == msg_type::STREAM_STDERR {
            Ok(ClientAction::WriteStderr)
        } else if t == msg_type::EXEC_EXIT {
            Ok(ClientAction::Exit)
        } else if t == msg_type::POLICY_DENIED {
            Ok(ClientAction::PrintPayloadAndExit { code: 126 })
        } else if t == msg_type::ERROR {
            Ok(ClientAction::PrintPayloadAndExit { code: 1 })
        } else {
            Err(unexpected_type_text(t))
        },
    }
}

/// Decides what to do with a frame of type `t` in `phase`.
pub fn client_on_frame(phase: ClientPhase, t: u8) -> (r: ClientAction)
    ensures
        match client_action_spec(phase, t) {
            Ok(a) => r == a,
            Err(m) => r matches ClientAction::Fail { message } && message@ == m,
        },
        phase == ClientPhase::AwaitingChallenge ==> (t == 0x01u8 <==> r == ClientAction::AnswerChallenge),
        phase == ClientPhase::AwaitingAuthResult ==> (t == 0x03u8 <==> r == ClientAction::ReadAuthResult),
        phase == ClientPhase::AwaitingOutput ==> {
            &&& t == 0x11u8 ==> r == ClientAction::WriteStdout
            &&& t == 0x12u8 ==> r == ClientAction::WriteStderr
            &&& t == 0x13u8 ==> r == ClientAction::Exit
            &&& t == 0x20u8 ==> r == ClientAction::PrintPayloadAndExit { code: 126 }
            &&& t == 0xFFu8 ==> r == ClientAction::PrintPayloadAndExit { code: 1 }
        },
        (r is Fail) <==> !((phase == ClientPhase::AwaitingChallenge && t == 0x01u8) || (phase
            == ClientPhase::AwaitingAuthResult && t == 0x03u8) || (phase == ClientPhase::AwaitingOutput
            && (t == 0x11u8 || t == 0x12u8 || t == 0x13u8 || t == 0x20u8 || t == 0xFFu8))),
{
    proof {
        lemma_client_frame_table(phase, t);
    }
    match phase {
        ClientPhase::AwaitingChallenge => if t == msg_type::AUTH_CHALLENGE {
            ClientAction::AnswerChallenge
        } else {
            ClientAction::Fail { message: "expected AuthChallenge".to_string() }
        },
        ClientPhase::AwaitingAuthResult => if t == msg_type::AUTH_RESULT {
            ClientAction::ReadAuthResult
        } else {
            ClientAction::Fail { message: "expected AuthResult".to_string() }
        },
        ClientPhase::AwaitingOutput => if t == msg_type::STREAM_STDOUT {
            ClientAction::WriteStdout
        } else if t == msg_type::STREAM_STDERR {
            ClientAction::WriteStderr
        } else if t == msg_type::EXEC_EXIT {
            ClientAction::Exit
        } else if t == msg_type::POLICY_DENIED {
            ClientAction::PrintPayloadAndExit { code: 126 }
        } else if t == msg_type::ERROR {
            ClientAction::PrintPayloadAndExit { code: 1 }
        } else {
            let mut m = "unexpected msg_type 0x".to_string();
            push_hex_byte(&mut m, t);
            ClientAction::Fail { message: m }
        },
    }
}

/// The process exit code for an `ExecExit` frame's `exit_code`: the code
/// truncated to 32 bits, or -1 when it is missing.
pub fn exit_status_code(exit_code: Option<i64>) -> (r: i32)
    ensures
        r == match exit_code {
            Some(c) => c as i32,
            None => -1i32,
        },
{
    match exit_code {
        Some(c) => c as i32,
        None => -1,
    }
}

/// `{:?}` of an optional string: `Some("...")` or `None`.
pub open spec fn option_debug_text(o: Option<Seq<char>>) -> Seq<char> {
    match o {
        Some(s) => "Some("@ + text::str_debug_text(s) + ")"@,
        None => "None"@,
    }
}

/// The hint given when the server does not know this agent's key.
pub open spec fn unknown_key_text(reason: Seq<char>, detail: Seq<char>) -> Seq<char> {
    "Authentication rejected: this agent's public key is not in the server's authorized_keys.\nRun `sao key-fingerprint` to create or refresh your key pair; append the non-comment line from ~/.sao/keys/agent.ed25519.pub to the server's authorized_keys.\nServer detail: "@
        + reason + seq![' '] + text::str_debug_text(detail)
}

/// The error text for a refused authentication (`ok: false`), from the
/// `reason` and `message` fields of the verdict.
pub open spec fn auth_rejection(reason: Option<Seq<char>>, message: Option<Seq<char>>) -> Seq<char> {
    let r = match reason {
        Some(x) => x,
        None => Seq::empty(),
    };
    let d = match message {
        Some(x) => x,
        None => Seq::empty(),
    };
    if r == "UNKNOWN_KEY"@ || text::contains_text(d, "authorized_keys"@) || text::contains_text(
        d,
        "fingerprint not in authorized_keys"@,
    ) {
        unknown_key_text(r, d)
    } else {
        "auth failed: "@ + r + seq![' '] + option_debug_text(message)
    }
}

/// The error text for a refused authentication.
pub fn auth_rejection_text(reason: Option<&str>, message: Option<&str>) -> (r: String)
    ensures
        r@ == auth_rejection(
            match reason {
                Some(x) => Some(x@),
                None => None,
            },
            match message {
                Some(x) => Some(x@),
                None => None,
            },
        ),
{
    let r: &str = match reason {
        Some(x) => x,
        None => "",
    };
    let d: &str = match message {
        Some(x) => x,
        None => "",
    };
    proof {
        reveal_strlit("");
    }
    let ghost ro = match reason {
        Some(x) => Some(x@),
        None => None::<Seq<char>>,
    };
    let ghost mo = match message {
        Some(x) => Some(x@),
        None => None::<Seq<char>>,
    };
    assert(r@ == match ro {
        Some(x) => x,
        None => Seq::<char>::empty(),
    });
    assert(d@ == match mo {
        Some(x) => x,
        None => Seq::<char>::empty(),
    });
    let dc = str_chars(d);
    if chars_eq(&str_chars(r), &str_chars("UNKNOWN_KEY")) || contains_chars(&dc, &str_chars("authorized_keys"))
        || contains_chars(&dc, &str_chars("fingerprint not in authorized_keys")) {
        let mut s = "Authentication rejected: this agent's public key is not in the server's authorized_keys.\nRun `sao key-fingerprint` to create or refresh your key pair; append the non-comment line from ~/.sao/keys/agent.ed25519.pub to the server's authorized_keys.\nServer detail: ".to_string();
        string_push_str(&mut s, r);
        string_push(&mut s, ' ');
        let dd = debug_text(d);
        string_push_str(&mut s, dd.as_str());
        assert(s@ =~= unknown_key_text(r@, d@));
        return s;
    }
    let mut s = "auth failed: ".to_string();
    string_push_str(&mut s, r);
    string_push(&mut s, ' ');
    match message {
        Some(m) => {
            string_push_str(&mut s, "Some(");
            let dm = debug_text(m);
            string_push_str(&mut s, dm.as_str());
            string_push_str(&mut s, ")");
        },
        None => {
            string_push_str(&mut s, "None");
        },
    }
    s
}

/// `host:port` as printed in the messages about pins.
pub open spec fn host_port_text(host: Seq<char>, port: u16) -> Seq<char> {
    host + seq![':'] + encoding::decimal_text(port as nat)
}

/// Warning printed when `--accept-new` saves a pin for a host that had none.
pub open spec fn new_pin_warning(host: Seq<char>, port: u16, fp: Seq<char>) -> Seq<char> {
    "Warning: saving new TLS pin for "@ + host_port_text(host, port) + " (SPKI SHA-256 "@ + fp
        + ") — verify on a trusted network when possible."@
}

/// Notice printed before asking whether to trust a host that has no pin.
pub open spec fn unknown_host_notice(host: Seq<char>, port: u16, fp: Seq<char>) -> Seq<char> {
    "The authenticity of host '"@ + host + "' (port "@ + encoding::decimal_text(port as nat)
        + ") can't be established.\nTLS SPKI SHA-256 fingerprint is "@ + fp + seq!['.']
}

/// Error for a host without a pin when nobody can be asked.
pub open spec fn no_pin_message(host: Seq<char>, port: u16, fp: Seq<char>) -> Seq<char> {
    "no TLS pin for "@ + host_port_text(host, port) + ". Add with:\n  sao trust add "@ + host
        + seq![' '] + encoding::decimal_text(port as nat) + seq![' '] + fp
        + "\nOr non-interactively:\n  sao run -p "@ + encoding::decimal_text(port as nat)
        + " --accept-new "@ + host + " -- …"@
}

/// Warning printed when `--accept-new` replaces a pin that no longer matches.
pub open spec fn replace_pin_warning(host: Seq<char>, port: u16, fp: Seq<char>) -> Seq<char> {
    "Warning: replacing TLS pin for "@ + host_port_text(host, port) + " with new SPKI SHA-256 "@
        + fp + " — verify on a trusted network."@
}

/// Notice printed before asking whether to replace a pin that no longer matches.
pub open spec fn changed_host_notice(host: Seq<char>, port: u16, fp: Seq<char>) -> Seq<char> {
    "Host key for "@ + host_port_text(host, port) + " has changed.\nNew TLS SPKI SHA-256 fingerprint is "@
        + fp + seq!['.']
}

/// Error for a pin that no longer matches when nobody can be asked.
pub open spec fn pin_mismatch_message(host: Seq<char>, port: u16, fp: Seq<char>) -> Seq<char> {
    "TLS pin mismatch for "@ + host_port_text(host, port)
        + ". Run interactively to replace, or: sao trust add "@ + host + seq![' ']
        + encoding::decimal_text(port as nat) + seq![' '] + fp
}

/// What to do about the fingerprint a host presented when its pin is missing
/// or no longer matches.
#[derive(Debug, Clone, PartialEq, Eq)]
pub enum TrustStep {
    /// Save the fingerprint after printing this warning.
    Accept { warning: String },
    /// Print the notice, ask the question on the terminal, save on yes.
    Ask { notice: String, question: String },
    /// Give up with this message.
    Refuse { message: String },
}

fn push_host_port(s: &mut String, host: &str, port: u16)
    ensures
        final(s)@ == old(s)@ + host_port_text(host@, port),
{
    string_push_str(s, host);
    string_push(s, ':');
    encoding::push_decimal(s, port as u64);
    assert(final(s)@ =~= old(s)@ + host_port_text(host@, port));
}

/// The step for a host with no pin that presented the fingerprint `fp`:
/// `--accept-new` saves it, a terminal is asked, otherwise the hint to pin it
/// by hand is the error.
pub fn new_host_step(accept_new: bool, interactive: bool, host: &str, port: u16, fp: &str) -> (r:
    TrustStep)
    ensures
        accept_new ==> (r matches TrustStep::Accept { warning } && warning@ == new_pin_warning(
            host@,
            port,
            fp@,
        )),
        !accept_new && interactive ==> (r matches TrustStep::Ask { notice, question } && notice@
            == unknown_host_notice(host@, port, fp@) && question@
            == "Are you sure you want to continue connecting (yes/no)? "@),
        !accept_new && !interactive ==> (r matches TrustStep::Refuse { message } && message@
            == no_pin_message(host@, port, fp@)),
{
    let mut s = String::new();
    if accept_new {
        string_push_str(&mut s, "Warning: saving new TLS pin for ");
        push_host_port(&mut s, host, port);
        string_push_str(&mut s, " (SPKI SHA-256 ");
        string_push_str(&mut s, fp);
        string_push_str(&mut s, ") — verify on a trusted network when possible.");
        assert(s@ =~= new_pin_warning(host@, port, fp@));
        TrustStep::Accept { warning: s }
    } else if interactive {
        string_push_str(&mut s, "The authenticity of host '");
        string_push_str(&mut s, host);
        string_push_str(&mut s, "' (port ");
        encoding::push_decimal(&mut s, port as u64);
        string_push_str(&mut s, ") can't be established.\nTLS SPKI SHA-256 fingerprint is ");
        string_push_str(&mut s, fp);
        string_push(&mut s, '.');
        assert(s@ =~= unknown_host_notice(host@, port, fp@));
        TrustStep::Ask {
            notice: s,
            question: "Are you sure you want to continue connecting (yes/no)? ".to_string(),
        }
    } else {
        string_push_str(&mut s, "no TLS pin for ");
        push_host_port(&mut s, host, port);
        string_push_str(&mut s, ". Add with:\n  sao trust add ");
        string_push_str(&mut s, host);
        string_push(&mut s, ' ');
        encoding::push_decimal(&mut s, port as u64);
        string_push(&mut s, ' ');
        string_push_str(&mut s, fp);
        string_push_str(&mut s, "\nOr non-interactively:\n  sao run -p ");
        encoding::push_decimal(&mut s, port as u64);
        string_push_str(&mut s, " --accept-new ");
        string_push_str(&mut s, host);
        string_push_str(&mut s, " -- …");
        assert(s@ =~= no_pin_message(host@, port, fp@));
        TrustStep::Refuse { message: s }
    }
}

/// The step for a host whose pin no longer matches and that presented the
/// fingerprint `fp`: `--accept-new` replaces the pin, a terminal is asked,
/// otherwise the hint to replace it by hand is the error.
pub fn changed_host_step(accept_new: bool, interactive: bool, host: &str, port: u16, fp: &str) -> (r:
    TrustStep)
    ensures
        accept_new ==> (r matches TrustStep::Accept { warning } && warning@ == replace_pin_warning(
            host@,
            port,
            fp@,
        )),
        !accept_new && interactive ==> (r matches TrustStep::Ask { notice, question } && notice@
            == changed_host_notice(host@, port, fp@) && question@
            == "Replace the pin in known_hosts? (yes/no): "@),
        !accept_new && !interactive ==> (r matches TrustStep::Refuse { message } && message@
            == pin_mismatch_message(host@, port, fp@)),
{
    let mut s = String::new();
    if accept_new {
        string_push_str(&mut s, "Warning: replacing TLS pin for ");
        push_host_port(&mut s, host, port);
        string_push_str(&mut s, " with new SPKI SHA-256 ");
        string_push_str(&mut s, fp);
        string_push_str(&mut s, " — verify on a trusted network.");
        assert(s@ =~= replace_pin_warning(host@, port, fp@));
        TrustStep::Accept { warning: s }
    } else if interactive {
        string_push_str(&mut s, "Host key for ");
        push_host_port(&mut s, host, port);
        string_push_str(&mut s, " has changed.\nNew TLS SPKI SHA-256 fingerprint is ");
        string_push_str(&mut s, fp);
        string_push(&mut s, '.');
        assert(s@ =~= changed_host_notice(host@, port, fp@));
        TrustStep::Ask { notice: s, question: "Replace the pin in known_hosts? (yes/no): ".to_string() }
    } else {
        string_push_str(&mut s, "TLS pin mismatch for ");
        push_host_port(&mut s, host, port);
        string_push_str(&mut s, ". Run interactively to replace, or: sao trust add ");
        string_push_str(&mut s, host);
        string_push(&mut s, ' ');
        encoding::push_decimal(&mut s, port as u64);
        string_push(&mut s, ' ');
        string_push_str(&mut s, fp);
        assert(s@ =~= pin_mismatch_message(host@, port, fp@));
        TrustStep::Refuse { message: s }
    }
}

/// How a peer certificate compares with a pin.
#[derive(Debug)]
pub enum PinCheck {
    /// The SHA-256 of the certificate's SubjectPublicKeyInfo equals the pin.
    Matches,
    /// It does not.
    Mismatch,
    /// The certificate could not be parsed; the X.509 error.
    Unreadable(CoreError),
}

/// Whether the SHA-256 of the SubjectPublicKeyInfo of the DER certificate
/// `cert_der` equals `pin`.
pub fn check_peer_pin(cert_der: &[u8], pin: &[u8; 32]) -> (r: PinCheck)
    ensures
        match crypto::x509_subject_pki(cert_der@) {
            Ok(spki) => if crypto::sha256(spki) == pin@ {
                r is Matches
            } else {
                r is Mismatch
            },
            Err(m) => r matches PinCheck::Unreadable(CoreError::X509(s)) && s@ == m,
        },
{
    let got = match spki_sha256_bytes_from_cert_der(cert_der) {
        Ok(g) => g,
        Err(e) => return PinCheck::Unreadable(e),
    };
    let mut i: usize = 0;
    while i < 32
        invariant
            i <= 32,
            crypto::x509_subject_pki(cert_der@) matches Ok(spki) && got@ == crypto::sha256(spki),
            forall|k: int| 0 <= k < i ==> got@[k] == pin@[k],
        decreases 32 - i,
    {
        if got[i] != pin[i] {
            assert(got@[i as int] != pin@[i as int]);
            assert(got@ != pin@);
            return PinCheck::Mismatch;
        }
        i = i + 1;
    }
    assert(got@ =~= pin@);
    PinCheck::Matches
}

/// The agent's answer to an authentication challenge.
#[derive(Debug, Clone)]
pub struct AuthAnswer {
    /// Always [`KEY_TYPE_ED25519`].
    pub key_type: String,
    /// The fingerprint of the agent's public key.
    pub fingerprint: String,
    /// Base64 of the Ed25519 signature of the signed bytes.
    pub signature: String,
}

/// Answers a challenge with the agent's secret key: decodes the Base64
/// nonce, signs the bytes for the nonce and session id, and names the key by
/// its fingerprint. The server checks exactly that signature on exactly those
/// bytes under the agent's public key, so the answer passes its check
/// precisely when strict Ed25519 verification accepts the agent's own
/// signature, which it does unless the nonce that signing derives is zero.
pub fn answer_challenge(secret: &[u8; 32], nonce_b64: &str, session_id: &str) -> (r: Result<
    AuthAnswer,
    String,
>)
    ensures
        match encoding::base64_decoded(nonce_b64@) {
            Err(m) => r matches Err(e) && e@ == m,
            Ok(nonce) => r matches Ok(a) && ({
                let pk = crypto::ed25519_public_key_of(secret@);
                let msg = auth_message::auth_signed_bytes(nonce, session_id@);
                let sig = crypto::ed25519_signature(secret@, msg);
                &&& a.key_type@ == KEY_TYPE_ED25519@
                &&& a.fingerprint@ == authorized_keys::fingerprint_of(pk)
                &&& authorized_keys::normalized_fingerprint(a.fingerprint@) == a.fingerprint@
                &&& a.signature@ == encoding::base64_standard(sig)
                &&& authorized_keys::signature_check(pk, msg, a.signature@) == if crypto::ed25519_verify_strict_ok(
                    pk,
                    msg,
                    sig,
                ) {
                    None::<Seq<char>>
                } else {
                    Some("signature verify failed"@)
                }
                &&& !crypto::ed25519_signing_nonce_is_zero(secret@, msg) ==> authorized_keys::signature_check(
                    pk,
                    msg,
                    a.signature@,
                ) is None
            }),
        },
{
    let nonce = decode_base64(nonce_b64)?;
    let msg = signing_bytes(&nonce, session_id);
    let sig = ed25519_sign(secret, &msg);
    let signature = base64_encode(&sig);
    let (pk, fingerprint) = agent_identity(secret);
    proof {
        encoding::lemma_base64_decode_encode(sig@);
        authorized_keys::lemma_fingerprint_normalized(pk@);
    }
    Ok(AuthAnswer { key_type: KEY_TYPE_ED25519.to_string(), fingerprint, signature })
}

/// Whether the certificate `cert_der` that the server presented matches the
/// pin stored for `host:port` (host normalized): `Matches` exactly when a pin
/// is stored and it equals the SHA-256 of the certificate's
/// SubjectPublicKeyInfo. With no pin stored, the `KnownHostsMissing` error
/// of [`KnownHosts::pin_hex`].
pub fn peer_matches_pin(kh: &KnownHosts, host: &str, port: u16, cert_der: &[u8]) -> (r: Result<
    PinCheck,
    CoreError,
>)
    requires
        kh.wf(),
    ensures
        ({
            let key = (known_hosts::normalize_host_text(host@), port);
            match r {
                Err(e) => !kh@.contains_key(key) && e is KnownHostsMissing,
                Ok(c) => kh@.contains_key(key) && match crypto::x509_subject_pki(cert_der@) {
                    Ok(spki) => (c is Matches <==> crypto::sha256(spki) == kh@[key]) && (c is Matches
                        || c is Mismatch),
                    Err(m) => c matches PinCheck::Unreadable(CoreError::X509(s)) && s@ == m,
                },
            }
        }),
{
    let pin = kh.pin_hex(host, port)?;
    Ok(check_peer_pin(cert_der, &pin))
}

/// Settles whether the fingerprint `fp_hex` that a server presented is
/// pinned for `host:port`: only when it was `accepted` (under
/// `--accept-new` or by a yes on the terminal) is it pinned, giving
/// `Ok(true)`; otherwise `Ok(false)` and the pins are unchanged. A
/// fingerprint that is not 64 hex digits is refused and nothing changes.
pub fn settle_trust(kh: &mut KnownHosts, host: &str, port: u16, fp_hex: &str, accepted: bool) -> (r:
    Result<bool, CoreError>)
    requires
        old(kh).wf(),
    ensures
        final(kh).wf(),
        !accepted ==> (r matches Ok(false) && final(kh)@ == old(kh)@),
        accepted ==> match known_hosts::fingerprint_parse(fp_hex@) {
            Some(v) => r matches Ok(true) && final(kh)@ == old(kh)@.insert(
                (known_hosts::normalize_host_text(host@), port),
                v,
            ),
            None => r matches Err(CoreError::InvalidFingerprint(_)) && final(kh)@ == old(kh)@,
        },
{
    if !accepted {
        return Ok(false);
    }
    kh.insert_hex(host, port, fp_hex)?;
    Ok(true)
}

/// Pinning the fingerprint text of a presented certificate pins exactly its
/// SPKI digest: after the hex text of a 32-byte digest `d` is pinned for a
/// host, the pin stored for that host (under any spelling that normalizes
/// the same) is `d`, so a later check of that certificate matches.
pub proof fn lemma_trusted_digest_pinned(
    m: Map<(Seq<char>, u16), Seq<u8>>,
    host: Seq<char>,
    read_host: Seq<char>,
    port: u16,
    d: Seq<u8>,
)
    requires
        d.len() == 32,
        known_hosts::normalize_host_text(read_host) == known_hosts::normalize_host_text(host),
    ensures
        known_hosts::fingerprint_parse(encoding::hex_lower(d)) == Some(d),
        ({
            let m2 = m.insert((known_hosts::normalize_host_text(host), port), d);
            m2.contains_key((known_hosts::normalize_host_text(read_host), port))
                && m2[(known_hosts::normalize_host_text(read_host), port)] == d
        }),
{
    known_hosts::lemma_fingerprint_parse_hex(d);
}

} // verus!
