//! Server configuration shape (values are deployment-specific). Paths are held
//! as their text.

use vstd::prelude::*;

use crate::paths;
use crate::paths::join_path;
use crate::text;
use crate::text::{chars_eq, starts_with_chars, str_chars};

verus! {

/// TLS file paths and optional auto-generated self-signed cert.
#[derive(Debug, Clone)]
pub struct TlsConfig {
    pub cert_path: String,
    pub key_path: String,
    /// If true and cert/key missing, generate self-signed PEM at the paths above.
    pub auto_generate_self_signed: bool,
}

/// Shell / exec policy (deny substrings; extend via config only).
#[derive(Debug, Clone)]
pub struct PolicyConfig {
    /// If any pattern is a substring of the requested shell line, deny.
    pub deny_substrings: Vec<String>,
}

/// The server's configuration.
#[derive(Debug, Clone)]
pub struct ServerConfig {
    pub listen: String,
    pub tls: TlsConfig,
    pub authorized_keys_path: String,
    /// When true, accept plain TCP with frames (development only).
    pub allow_insecure_plain: bool,
    /// If set, listen for **plaintext** frames here when `allow_insecure_plain` is true.
    pub insecure_plain_listen: Option<String>,
    pub policy: PolicyConfig,
    /// `bash -lc` by default.
    pub shell_argv: Vec<String>,
    pub exec_timeout_secs: u64,
    pub policy_group_default: String,
    /// Hex fingerprint (64 chars) → policy_group for AuthResult; no
    /// fingerprint occurs twice (see [`ServerConfig::wf`]).
    pub policy_group_by_fingerprint: Vec<(String, String)>,
}

/// Default YAML path for local development.
pub const LOCAL_DEV_CONFIG_PATH: &'static str = ".sao/config.yaml";

fn default_cert_path() -> (r: String)
    ensures
        r@ == "/etc/sao/tls/cert.pem"@,
{
    "/etc/sao/tls/cert.pem".to_string()
}

fn default_key_path() -> (r: String)
    ensures
        r@ == "/etc/sao/tls/key.pem"@,
{
    "/etc/sao/tls/key.pem".to_string()
}

fn default_listen() -> (r: String)
    ensures
        r@ == "0.0.0.0:8443"@,
{
    "0.0.0.0:8443".to_string()
}

fn default_authorized_keys() -> (r: String)
    ensures
        r@ == "/etc/sao/authorized_keys"@,
{
    "/etc/sao/authorized_keys".to_string()
}

fn default_shell_argv() -> (r: Vec<String>)
    ensures
        r@.len() == 2,
        r@[0]@ == "bash"@,
        r@[1]@ == "-lc"@,
{
    let mut v: Vec<String> = Vec::new();
    v.push("bash".to_string());
    v.push("-lc".to_string());
    v
}

fn default_exec_timeout_secs() -> (r: u64)
    ensures
        r == 300,
{
    300
}

fn default_policy_group() -> (r: String)
    ensures
        r@ == "default"@,
{
    "default".to_string()
}

/// The default TLS settings.
pub open spec fn is_default_tls(t: TlsConfig) -> bool {
    &&& t.cert_path@ == "/etc/sao/tls/cert.pem"@
    &&& t.key_path@ == "/etc/sao/tls/key.pem"@
    &&& !t.auto_generate_self_signed
}

impl Default for TlsConfig {
    fn default() -> (r: Self)
        ensures
            is_default_tls(r),
    {
        Self {
            cert_path: default_cert_path(),
            key_path: default_key_path(),
            auto_generate_self_signed: false,
        }
    }
}

impl Default for PolicyConfig {
    fn default() -> (r: Self)
        ensures
            r.deny_substrings@.len() == 0,
    {
        Self { deny_substrings: Vec::new() }
    }
}

/// No fingerprint occurs twice in a policy-group mapping.
pub open spec fn distinct_fingerprints(m: Seq<(String, String)>) -> bool {
    forall|i: int, j: int| 0 <= i < j < m.len() ==> (#[trigger] m[i]).0@ != (#[trigger] m[j]).0@
}

impl ServerConfig {
    /// Well-formedness: the policy-group mapping is a map (no fingerprint
    /// occurs twice).
    pub open spec fn wf(&self) -> bool {
        distinct_fingerprints(self.policy_group_by_fingerprint@)
    }

    /// Whether the configuration is well-formed.
    pub fn fingerprints_distinct(&self) -> (r: bool)
        ensures
            r == self.wf(),
    {
        let m = &self.policy_group_by_fingerprint;
        for j in 0..m.len()
            invariant
                m@ == self.policy_group_by_fingerprint@,
                forall|a: int, b: int| 0 <= a < b < j ==> (#[trigger] m@[a]).0@ != (#[trigger] m@[b]).0@,
        {
            for i in 0..j
                invariant
                    m@ == self.policy_group_by_fingerprint@,
                    j < m@.len(),
                    forall|a: int, b: int| 0 <= a < b < j ==> (#[trigger] m@[a]).0@ != (#[trigger] m@[b]).0@,
                    forall|a: int| 0 <= a < i ==> (#[trigger] m@[a]).0@ != m@[j as int].0@,
            {
                if chars_eq(&str_chars(m[i].0.as_str()), &str_chars(m[j].0.as_str())) {
                    return false;
                }
            }
        }
        true
    }
}

/// The default server configuration.
pub open spec fn is_default_config(c: ServerConfig) -> bool {
    &&& c.listen@ == "0.0.0.0:8443"@
    &&& is_default_tls(c.tls)
    &&& c.authorized_keys_path@ == "/etc/sao/authorized_keys"@
    &&& !c.allow_insecure_plain
    &&& c.insecure_plain_listen is None
    &&& c.policy.deny_substrings@.len() == 0
    &&& c.shell_argv@.len() == 2
    &&& c.shell_argv@[0]@ == "bash"@
    &&& c.shell_argv@[1]@ == "-lc"@
    &&& c.exec_timeout_secs == 300
    &&& c.policy_group_default@ == "default"@
    &&& c.policy_group_by_fingerprint@.len() == 0
}

impl Default for ServerConfig {
    fn default() -> (r: Self)
        ensures
            is_default_config(r),
    {
        Self {
            listen: default_listen(),
            tls: TlsConfig::default(),
            authorized_keys_path: default_authorized_keys(),
            allow_insecure_plain: false,
            insecure_plain_listen: None,
            policy: PolicyConfig::default(),
            shell_argv: default_shell_argv(),
            exec_timeout_secs: default_exec_timeout_secs(),
            policy_group_default: default_policy_group(),
            policy_group_by_fingerprint: Vec::new(),
        }
    }
}

/// The configuration `init` writes for the directory `dir`: every path under
/// `dir`, listening on all addresses only for system directories (`/etc...`).
pub open spec fn is_init_config_for(c: ServerConfig, dir: Seq<char>) -> bool {
    &&& c.listen@ == (if text::has_prefix(dir, "/etc"@) {
        "0.0.0.0:8443"@
    } else {
        "127.0.0.1:8443"@
    })
    &&& c.tls.cert_path@ == paths::path_joined(paths::path_joined(dir, "tls"@), "cert.pem"@)
    &&& c.tls.key_path@ == paths::path_joined(paths::path_joined(dir, "tls"@), "key.pem"@)
    &&& c.tls.auto_generate_self_signed
    &&& c.authorized_keys_path@ == paths::path_joined(dir, "authorized_keys"@)
    &&& !c.allow_insecure_plain
    &&& c.insecure_plain_listen is None
    &&& c.policy.deny_substrings@.len() == 1
    &&& c.policy.deny_substrings@[0]@ == "rm -rf /"@
    &&& c.shell_argv@.len() == 2
    &&& c.shell_argv@[0]@ == "bash"@
    &&& c.shell_argv@[1]@ == "-lc"@
    &&& c.exec_timeout_secs == 120
    &&& c.policy_group_default@ == "default"@
    &&& c.policy_group_by_fingerprint@.len() == 0
}

/// The `init` layout listens on all addresses exactly for directories whose
/// text begins with `/etc`, and on the loopback address otherwise.
pub proof fn lemma_init_listen(c: ServerConfig, dir: Seq<char>)
    requires
        is_init_config_for(c, dir),
    ensures
        (dir.len() >= 4 && dir[0] == '/' && dir[1] == 'e' && dir[2] == 't' && dir[3] == 'c') ==> c.listen@
            =~= seq!['0', '.', '0', '.', '0', '.', '0', ':', '8', '4', '4', '3'],
        !(dir.len() >= 4 && dir[0] == '/' && dir[1] == 'e' && dir[2] == 't' && dir[3] == 'c')
            ==> c.listen@ =~= seq!['1', '2', '7', '.', '0', '.', '0', '.', '1', ':', '8', '4', '4', '3'],
{
    reveal_strlit("/etc");
    reveal_strlit("0.0.0.0:8443");
    reveal_strlit("127.0.0.1:8443");
    if dir.len() >= 4 && dir[0] == '/' && dir[1] == 'e' && dir[2] == 't' && dir[3] == 'c' {
        assert(dir.take(4) =~= "/etc"@);
    } else if dir.len() >= 4 {
        if dir.take(4) == "/etc"@ {
            assert(dir.take(4)[0] == dir[0]);
            assert(dir.take(4)[1] == dir[1]);
            assert(dir.take(4)[2] == dir[2]);
            assert(dir.take(4)[3] == dir[3]);
        }
    }
}

impl ServerConfig {
    /// Default layout for local development: all paths under `.sao/`.
    pub fn local_dev_init() -> (r: Self)
        ensures
            is_init_config_for(r, ".sao"@),
    {
        Self::init_for_dir(".sao")
    }

    /// Init layout with paths under `dir`; listens on 0.0.0.0 for system dirs like /etc/sao.
    pub fn init_for_dir(dir: &str) -> (r: Self)
        ensures
            is_init_config_for(r, dir@),
    {
        let listen = if starts_with_chars(&str_chars(dir), &str_chars("/etc")) {
            "0.0.0.0:8443".to_string()
        } else {
            "127.0.0.1:8443".to_string()
        };
        let tls_dir = join_path(dir, "tls");
        let mut deny: Vec<String> = Vec::new();
        deny.push("rm -rf /".to_string());
        Self {
            listen,
            tls: TlsConfig {
                cert_path: join_path(tls_dir.as_str(), "cert.pem"),
                key_path: join_path(tls_dir.as_str(), "key.pem"),
                auto_generate_self_signed: true,
            },
            authorized_keys_path: join_path(dir, "authorized_keys"),
            allow_insecure_plain: false,
            insecure_plain_listen: None,
            policy: PolicyConfig { deny_substrings: deny },
            shell_argv: default_shell_argv(),
            exec_timeout_secs: 120,
            policy_group_default: default_policy_group(),
            policy_group_by_fingerprint: Vec::new(),
        }
    }
}

} // verus!
