//! Server-side session decisions: what to answer to each frame, whether an
//! authentication response is accepted, and what to run for a shell request.
//! The caller performs the I/O and hands the decoded values in.

use vstd::prelude::*;

use rand::RngCore;

use crate::auth_message;
use crate::auth_message::signing_bytes;
use crate::authorized_keys;
use crate::authorized_keys::{find_key, verify_ed25519_signature, AuthorizedKey, KEY_TYPE_ED25519};
use crate::config::ServerConfig;
use crate::encoding;
use crate::encoding::base64_encode;
use crate::error::CoreError;
use crate::msg_type;
use crate::policy;
use crate::policy::check_shell;
use crate::text;
use crate::text::{chars_eq, lowercase_chars, str_chars, string_from_chars, string_push_str};

verus! {

/// Exit code reported when a command runs past its time limit.
pub const TIMEOUT_EXIT_CODE: i32 = 124;

/// Where a server session stands.
#[derive(Debug, Clone, Copy, PartialEq, Eq)]
pub enum ServerPhase {
    /// The challenge was sent; the next frame must be the agent's response.
    AwaitingAuthResponse,
    /// Authentication succeeded; shell requests are served.
    Authenticated,
    /// The session is over.
    Closed,
}

/// `rand::thread_rng().fill_bytes` on 32 bytes: fresh bytes from a
/// cryptographically secure generator. They are random, so nothing is
/// claimed of them.
#[verifier::external_body]
fn random_nonce() -> [u8; 32] {
    let mut nonce = [0u8; 32];
    rand::thread_rng().fill_bytes(&mut nonce);
    nonce
}

/// A version 4 (random) UUID in hyphenated lowercase text: 36 characters,
/// `-` at 8, 13, 18 and 23, the version digit `4` at 14, the variant digit
/// (`8`, `9`, `a` or `b`) at 19, lowercase hex digits elsewhere.
pub open spec fn is_uuid_v4_text(s: Seq<char>) -> bool {
    &&& s.len() == 36
    &&& forall|i: int|
        0 <= i < 36 ==> (if i == 8 || i == 13 || i == 18 || i == 23 {
            #[trigger] s[i] == '-'
        } else if i == 14 {
            s[i] == '4'
        } else if i == 19 {
            s[i] == '8' || s[i] == '9' || s[i] == 'a' || s[i] == 'b'
        } else {
            ('0' <= s[i] && s[i] <= '9') || ('a' <= s[i] && s[i] <= 'f')
        })
}

/// `uuid::Uuid::new_v4().to_string()`: a fresh random UUID. The value is
/// random; the contract claims its form: `new_v4` sets the version and
/// variant bits, and `Display` writes the hyphenated lowercase text.
#[verifier::external_body]
fn new_session_id() -> (r: String)
    ensures
        is_uuid_v4_text(r@),
{
    uuid::Uuid::new_v4().to_string()
}

/// The server's authentication challenge for one connection.
#[derive(Debug, Clone)]
pub struct Challenge {
    /// Fresh random bytes the agent signs.
    pub nonce: [u8; 32],
    /// The session id, also signed and used to correlate audit events.
    pub session_id: String,
    /// `nonce` as sent on the wire: standard Base64.
    pub nonce_b64: String,
}

/// A new challenge: 32 fresh random bytes, a fresh session id (a random
/// UUID), and the Base64 text of the bytes.
pub fn new_challenge() -> (c: Challenge)
    ensures
        c.nonce_b64@ == encoding::base64_standard(c.nonce@),
        is_uuid_v4_text(c.session_id@),
{
    let nonce = random_nonce();
    let session_id = new_session_id();
    let nonce_b64 = base64_encode(&nonce);
    Challenge { nonce, session_id, nonce_b64 }
}

/// What to do with a frame that arrived.
#[derive(Debug, Clone, PartialEq, Eq)]
pub enum FrameAction {
    /// Decode the payload as an authentication response and decide on it.
    Authenticate,
    /// Decode the payload as a shell request and run it.
    Exec,
    /// Send an `Error` frame with this code and message, then end the session.
    SendError { code: String, message: String },
}

/// The action for a frame of type `t` in `phase`.
pub open spec fn frame_action_spec(phase: ServerPhase, t: u8) -> (ServerPhase, Option<(Seq<char>, Seq<char>)>) {
    match phase {
        ServerPhase::AwaitingAuthResponse => if t == msg_type::AUTH_RESPONSE {
            (ServerPhase::AwaitingAuthResponse, None)
        } else {
            (ServerPhase::Closed, Some(("EXPECTED_AUTH_RESPONSE"@, "expected AuthResponse"@)))
        },
        ServerPhase::Authenticated => if t == msg_type::EXEC_SHELL {
            (ServerPhase::Authenticated, None)
        } else {
            (ServerPhase::Closed, Some(("UNKNOWN_MSG_TYPE"@, "only ExecShell allowed after auth"@)))
        },
        ServerPhase::Closed => (ServerPhase::Closed, Some(("UNKNOWN_MSG_TYPE"@, "session closed"@))),
    }
}

/// The server's frame table: awaiting the response, an `AuthResponse`
/// (0x02) is authenticated and anything else is answered with
/// `EXPECTED_AUTH_RESPONSE` and closes the session; once authenticated, an
/// `ExecShell` (0x10) is run and anything else is answered with
/// `UNKNOWN_MSG_TYPE` and closes the session; a closed session answers
/// everything with `UNKNOWN_MSG_TYPE`.
pub proof fn lemma_server_frame_table(phase: ServerPhase, t: u8)
    ensures
        phase == ServerPhase::AwaitingAuthResponse ==> (t == 0x02u8 <==> frame_action_spec(phase, t)
            == (ServerPhase::AwaitingAuthResponse, None::<(Seq<char>, Seq<char>)>)),
        phase == ServerPhase::AwaitingAuthResponse && t != 0x02u8 ==> frame_action_spec(phase, t)
            == (ServerPhase::Closed, Some(("EXPECTED_AUTH_RESPONSE"@, "expected AuthResponse"@))),
        phase == ServerPhase::Authenticated ==> (t == 0x10u8 <==> frame_action_spec(phase, t) == (
            ServerPhase::Authenticated,
            None::<(Seq<char>, Seq<char>)>,
        )),
        phase == ServerPhase::Authenticated && t != 0x10u8 ==> frame_action_spec(phase, t) == (
            ServerPhase::Closed,
            Some(("UNKNOWN_MSG_TYPE"@, "only ExecShell allowed after auth"@)),
        ),
        phase == ServerPhase::Closed ==> frame_action_spec(phase, t).0 == ServerPhase::Closed
            && frame_action_spec(phase, t).1 is Some,
{
}

/// No frame moves a session into the authenticated phase (only an accepted
/// authentication does, see [`phase_after_auth`]), and a closed session
/// stays closed.
pub proof fn lemma_frames_never_authenticate(phase: ServerPhase, t: u8)
    ensures
        frame_action_spec(phase, t).0 == ServerPhase::Authenticated ==> phase
            == ServerPhase::Authenticated,
        phase == ServerPhase::Closed ==> frame_action_spec(phase, t).0 == ServerPhase::Closed,
{
}

/// Decides what to do with a frame of type `msg_type` in `phase`; returns the
/// next phase and the action.
pub fn on_frame(phase: ServerPhase, msg_type: u8) -> (r: (ServerPhase, FrameAction))
    ensures
        (r.1 == FrameAction::Authenticate) <==> (phase == ServerPhase::AwaitingAuthResponse
            && msg_type == 0x02u8),
        (r.1 == FrameAction::Exec) <==> (phase == ServerPhase::Authenticated && msg_type == 0x10u8),
        r.0 == frame_action_spec(phase, msg_type).0,
        match frame_action_spec(phase, msg_type).1 {
            None => (phase == ServerPhase::AwaitingAuthResponse && r.1 == FrameAction::Authenticate)
                || (phase == ServerPhase::Authenticated && r.1 == FrameAction::Exec),
            Some((code, message)) => r.1 matches FrameAction::SendError { code: c, message: m }
                && c@ == code && m@ == message,
        },
{
    match phase {
        ServerPhase::AwaitingAuthResponse => if msg_type == msg_type::AUTH_RESPONSE {
            (ServerPhase::AwaitingAuthResponse, FrameAction::Authenticate)
        } else {
            (
                ServerPhase::Closed,
                FrameAction::SendError {
                    code: "EXPECTED_AUTH_RESPONSE".to_string(),
                    message: "expected AuthResponse".to_string(),
                },
            )
        },
        ServerPhase::Authenticated => if msg_type == msg_type::EXEC_SHELL {
            (ServerPhase::Authenticated, FrameAction::Exec)
        } else {
            (
                ServerPhase::Closed,
                FrameAction::SendError {
                    code: "UNKNOWN_MSG_TYPE".to_string(),
                    message: "only ExecShell allowed after auth".to_string(),
                },
            )
        },
        ServerPhase::Closed => (
            ServerPhase::Closed,
            FrameAction::SendError {
                code: "UNKNOWN_MSG_TYPE".to_string(),
                message: "session closed".to_string(),
            },
        ),
    }
}

/// The answer to an authentication response.
#[derive(Debug, Clone)]
pub enum AuthDecision {
    /// `AuthResult { ok: true, agent_name, policy_group }`; the session is authenticated.
    Accept { fingerprint_hex: String, agent_name: Option<String>, policy_group: String },
    /// `AuthResult { ok: false, reason, message }`; the session ends.
    Reject { reason: String, message: String },
}

/// `i` is the first key whose fingerprint equals `fp`.
pub open spec fn is_first_key(keys: Seq<AuthorizedKey>, fp: Seq<char>, i: int) -> bool {
    &&& 0 <= i < keys.len()
    &&& keys[i].fingerprint_hex@ == fp
    &&& forall|j: int| 0 <= j < i ==> keys[j].fingerprint_hex@ != fp
}

/// The policy group configured for the fingerprint `fp` (the first entry for
/// it), or the default group.
pub open spec fn policy_group_for(map: Seq<(String, String)>, fp: Seq<char>, default: Seq<char>) -> Seq<char> {
    if exists|i: int| 0 <= i < map.len() && (#[trigger] map[i]).0@ == fp {
        map[choose|i: int|
            0 <= i < map.len() && (#[trigger] map[i]).0@ == fp && forall|j: int|
                0 <= j < i ==> map[j].0@ != fp].1@
    } else {
        default
    }
}

/// The policy group for a key fingerprint: the configured group for its
/// lowercase form, or the default group.
fn policy_group_of(config: &ServerConfig, fingerprint_hex: &str) -> (r: String)
    requires
        config.wf(),
    ensures
        r@ == policy_group_for(
            config.policy_group_by_fingerprint@,
            text::str_lowercase(fingerprint_hex@),
            config.policy_group_default@,
        ),
{
    let fp = lowercase_chars(&str_chars(fingerprint_hex));
    let map = &config.policy_group_by_fingerprint;
    for i in 0..map.len()
        invariant
            fp@ == text::str_lowercase(fingerprint_hex@),
            map@ == config.policy_group_by_fingerprint@,
            forall|j: int| 0 <= j < i ==> map@[j].0@ != fp@,
    {
        if chars_eq(&str_chars(map[i].0.as_str()), &fp) {
            proof {
                let c = choose|c: int|
                    0 <= c < map@.len() && (#[trigger] map@[c]).0@ == fp@ && forall|j: int|
                        0 <= j < c ==> map@[j].0@ != fp@;
                assert(0 <= i < map@.len() && (#[trigger] map@[i as int]).0@ == fp@ && forall|j: int|
                    0 <= j < i ==> map@[j].0@ != fp@);
                assert(c == i);
            }
            return map[i].1.clone();
        }
    }
    config.policy_group_default.clone()
}

/// Decides on an agent's authentication response (`key_type`, `fingerprint`,
/// Base64 `signature`) to the challenge `nonce` / `session_id`, against the
/// authorized `keys`.
pub fn decide_auth(
    config: &ServerConfig,
    keys: &[AuthorizedKey],
    nonce: &[u8],
    session_id: &str,
    key_type: &str,
    fingerprint: &str,
    signature: &str,
) -> (d: AuthDecision)
    requires
        config.wf(),
    ensures
        key_type@ != KEY_TYPE_ED25519@ ==> (d matches AuthDecision::Reject { reason, message }
            && reason@ == "UNSUPPORTED_KEY_TYPE"@ && message@ == "only sao-ed25519"@),
        key_type@ == KEY_TYPE_ED25519@ && (forall|i: int|
            0 <= i < keys@.len() ==> (#[trigger] keys@[i]).fingerprint_hex@
                != authorized_keys::normalized_fingerprint(fingerprint@)) ==> (d matches AuthDecision::Reject {
            reason,
            message,
        } && reason@ == "UNKNOWN_KEY"@ && message@ == "fingerprint not in authorized_keys"@),
        forall|i: int|
            key_type@ == KEY_TYPE_ED25519@ && is_first_key(
                keys@,
                authorized_keys::normalized_fingerprint(fingerprint@),
                i,
            ) ==> match authorized_keys::signature_check(
                keys@[i].verifying_key@,
                auth_message::auth_signed_bytes(nonce@, session_id@),
                signature@,
            ) {
                Some(m) => d matches AuthDecision::Reject { reason, message } && reason@
                    == "BAD_SIGNATURE"@ && message@ == "ed25519: "@ + m,
                None => d matches AuthDecision::Accept { fingerprint_hex, agent_name, policy_group }
                    && fingerprint_hex@ == keys@[i].fingerprint_hex@ && (if keys@[i].comment@.len()
                    == 0 {
                    agent_name is None
                } else {
                    agent_name matches Some(n) && n@ == keys@[i].comment@
                }) && policy_group@ == policy_group_for(
                    config.policy_group_by_fingerprint@,
                    text::str_lowercase(keys@[i].fingerprint_hex@),
                    config.policy_group_default@,
                ),
            },
{
    if !chars_eq(&str_chars(key_type), &str_chars(KEY_TYPE_ED25519)) {
        return AuthDecision::Reject {
            reason: "UNSUPPORTED_KEY_TYPE".to_string(),
            message: "only sao-ed25519".to_string(),
        };
    }
    let msg = signing_bytes(nonce, session_id);
    let entry = match find_key(keys, fingerprint) {
        Some(k) => k,
        None => {
            return AuthDecision::Reject {
                reason: "UNKNOWN_KEY".to_string(),
                message: "fingerprint not in authorized_keys".to_string(),
            };
        },
    };
    let ghost idx = choose|i: int|
        0 <= i < keys@.len() && keys@[i] == *entry && (#[trigger] keys@[i]).fingerprint_hex@
            == authorized_keys::normalized_fingerprint(fingerprint@) && forall|j: int|
            0 <= j < i ==> keys@[j].fingerprint_hex@ != authorized_keys::normalized_fingerprint(
                fingerprint@,
            );
    proof {
        assert forall|i: int|
            is_first_key(
                keys@,
                authorized_keys::normalized_fingerprint(fingerprint@),
                i,
            ) implies i == idx by {
            if i < idx {
                assert(keys@[i].fingerprint_hex@ != authorized_keys::normalized_fingerprint(fingerprint@));
            }
            if idx < i {
                assert(keys@[idx].fingerprint_hex@ != authorized_keys::normalized_fingerprint(fingerprint@));
            }
        }
    }
    match verify_ed25519_signature(&entry.verifying_key, &msg, signature) {
        Ok(()) => {},
        Err(e) => {
            let mut message = "ed25519: ".to_string();
            match e {
                CoreError::Ed25519(m) => string_push_str(&mut message, m.as_str()),
                _ => {},
            }
            return AuthDecision::Reject { reason: "BAD_SIGNATURE".to_string(), message };
        },
    }
    let policy_group = policy_group_of(config, entry.fingerprint_hex.as_str());
    let agent_name = if entry.comment.as_str().is_empty() {
        None
    } else {
        Some(entry.comment.clone())
    };
    AuthDecision::Accept { fingerprint_hex: entry.fingerprint_hex.clone(), agent_name, policy_group }
}

/// The `data` field of a stdout or stderr frame carrying the output bytes
/// `chunk`: their standard Base64 text.
pub fn stream_data(chunk: &[u8]) -> (r: String)
    ensures
        r@ == encoding::base64_standard(chunk@),
{
    base64_encode(chunk)
}

/// The phase after an authentication decision: shell requests are served
/// only after an accepted response; a rejected one ends the session.
pub fn phase_after_auth(d: &AuthDecision) -> (p: ServerPhase)
    ensures
        p == ServerPhase::Authenticated <==> d is Accept,
        p == ServerPhase::Closed <==> d is Reject,
{
    match d {
        AuthDecision::Accept { .. } => ServerPhase::Authenticated,
        AuthDecision::Reject { .. } => ServerPhase::Closed,
    }
}

/// What to do with a shell request.
#[derive(Debug, Clone)]
pub enum ExecPlan {
    /// Policy denies it: send `PolicyDenied` with this message; nothing runs.
    Denied { message: String },
    /// The configured interpreter is too short (`[program, -lc]` at least): the session fails.
    BadShellArgv,
    /// Run `program args...` with a time limit in seconds.
    Run { program: String, args: Vec<String>, timeout_secs: u64 },
}

/// Plans one shell request: policy first, then the configured interpreter
/// with the shell line as its last argument.
pub fn plan_exec(config: &ServerConfig, shell: &str) -> (p: ExecPlan)
    ensures
        (exists|i: int|
            0 <= i < config.policy.deny_substrings@.len() && text::contains_text(
                shell@,
                #[trigger] config.policy.deny_substrings@[i]@,
            )) <==> p is Denied,
        p matches ExecPlan::Denied { message } ==> exists|i: int|
            0 <= i < config.policy.deny_substrings@.len() && text::contains_text(
                shell@,
                #[trigger] config.policy.deny_substrings@[i]@,
            ) && (forall|j: int|
                0 <= j < i ==> !text::contains_text(
                    shell@,
                    #[trigger] config.policy.deny_substrings@[j]@,
                )) && message@ == policy::denial_message(config.policy.deny_substrings@[i]@),
        !(p is Denied) ==> (p is BadShellArgv <==> config.shell_argv@.len() < 2),
        p matches ExecPlan::Run { program, args, timeout_secs } ==> {
            &&& program@ == config.shell_argv@[0]@
            &&& args@.len() == config.shell_argv@.len()
            &&& forall|k: int|
                0 <= k < args@.len() - 1 ==> (#[trigger] args@[k])@ == config.shell_argv@[k + 1]@
            &&& args@[args@.len() - 1]@ == shell@
            &&& timeout_secs == if config.exec_timeout_secs == 0 {
                1
            } else {
                config.exec_timeout_secs
            }
        },
{
    match check_shell(&config.policy, shell) {
        Ok(()) => {},
        Err(e) => {
            let message = match e {
                CoreError::PolicyDenied(m) => m,
                _ => String::new(),
            };
            return ExecPlan::Denied { message };
        },
    }
    let argv = &config.shell_argv;
    if argv.len() < 2 {
        return ExecPlan::BadShellArgv;
    }
    let program = argv[0].clone();
    let mut args: Vec<String> = Vec::new();
    for k in 1..argv.len()
        invariant
            argv@ == config.shell_argv@,
            args@.len() == k - 1,
            forall|j: int| 0 <= j < k - 1 ==> (#[trigger] args@[j])@ == argv@[j + 1]@,
    {
        args.push(argv[k].clone());
    }
    args.push(shell.to_string());
    let timeout_secs = if config.exec_timeout_secs == 0 {
        1
    } else {
        config.exec_timeout_secs
    };
    ExecPlan::Run { program, args, timeout_secs }
}

/// The exit code to report for a finished child: its code, or -1 when it has
/// none (killed by a signal).
pub fn exit_code_of(code: Option<i32>) -> (r: i32)
    ensures
        r == match code {
            Some(c) => c,
            None => -1i32,
        },
{
    match code {
        Some(c) => c,
        None => -1,
    }
}

/// The audited preview of a shell line: its first 80 characters.
pub fn shell_preview(shell: &str) -> (r: String)
    ensures
        r@ == if shell@.len() <= 80 {
            shell@
        } else {
            shell@.take(80)
        },
{
    let cs = str_chars(shell);
    let n = if cs.len() <= 80 {
        cs.len()
    } else {
        80
    };
    let r = string_from_chars(&text::sub_chars(&cs, 0, n));
    assert(shell@.take(n as int) =~= shell@.subrange(0, n as int));
    if cs.len() <= 80 {
        assert(shell@.take(n as int) =~= shell@);
    }
    r
}

} // verus!
