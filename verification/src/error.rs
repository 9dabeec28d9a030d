//! Error types: framing errors of the wire protocol, and the library's own errors.

use vstd::prelude::*;

use crate::encoding;
use crate::encoding::{push_decimal, push_hex_byte};
use crate::text::string_push_str;

verus! {

/// `std::io::Error`, carried by the `Io` variants of the error types.
#[verifier::external_type_specification]
#[verifier::external_body]
pub struct ExIoError(std::io::Error);

/// `serde_yaml::Error`, carried by [`CoreError::Yaml`].
#[verifier::external_type_specification]
#[verifier::external_body]
pub struct ExYamlError(serde_yaml::Error);

/// `serde_json::Error`, carried by [`CoreError::Json`].
#[verifier::external_type_specification]
#[verifier::external_body]
pub struct ExJsonError(serde_json::Error);

/// Framing or version errors while reading/writing frames.
#[derive(Debug)]
pub enum ProtocolError {
    /// Underlying I/O failure.
    Io(std::io::Error),
    /// Connection closed before a full header or payload.
    UnexpectedEof,
    /// First three bytes were not `SAO`.
    InvalidMagic,
    /// `version` field is not the supported version.
    UnsupportedVersion { got: u8 },
    /// Declared payload length exceeds the configured maximum.
    PayloadTooLarge { len: u32, max: u32 },
    /// Declared payload length does not fit in `usize` on this platform.
    PayloadLengthOverflow { len: u32 },
}

/// Errors of configuration, key material, pinning and policy.
#[derive(Debug)]
pub enum CoreError {
    Io(std::io::Error),
    Yaml(serde_yaml::Error),
    Json(serde_json::Error),
    KnownHostsLine(String),
    KnownHostsMissing(String),
    InvalidFingerprint(String),
    AuthorizedKeys(String),
    KeyNotFound,
    UnsupportedKeyType(String),
    Ed25519(String),
    PolicyDenied(String),
    X509(String),
    MissingConfig(String),
}


/// The text of an I/O error (its `Display`); it depends on the platform, so
/// nothing is claimed of it.
#[verifier::external_body]
pub(crate) fn io_error_text(e: &std::io::Error) -> String {
    e.to_string()
}

/// The message of a framing error other than `Io`.
pub open spec fn protocol_error_text(e: ProtocolError) -> Seq<char> {
    match e {
        ProtocolError::Io(_) => "io error: "@,
        ProtocolError::UnexpectedEof => "unexpected end of stream"@,
        ProtocolError::InvalidMagic => "invalid frame magic (expected SAO)"@,
        ProtocolError::UnsupportedVersion { got } => "unsupported protocol version: 0x"@
            + encoding::hex_lower(seq![got]),
        ProtocolError::PayloadTooLarge { len, max } => "payload length "@ + encoding::decimal_text(
            len as nat,
        ) + " exceeds maximum "@ + encoding::decimal_text(max as nat),
        ProtocolError::PayloadLengthOverflow { len } => "payload length "@ + encoding::decimal_text(
            len as nat,
        ) + " too large for this platform"@,
    }
}

impl ProtocolError {
    /// The human-readable message (`Display`). For `Io` it is `io error: `
    /// followed by the I/O error's own text.
    pub fn message(&self) -> (r: String)
        ensures
            !(self is Io) ==> r@ == protocol_error_text(*self),
            self is Io ==> r@.take(10) == protocol_error_text(*self),
    {
        let mut s = String::new();
        match self {
            ProtocolError::Io(e) => {
                string_push_str(&mut s, "io error: ");
                let t = io_error_text(e);
                string_push_str(&mut s, t.as_str());
                proof {
                    reveal_strlit("io error: ");
                }
                assert(s@.take(10) =~= "io error: "@);
            },
            ProtocolError::UnexpectedEof => {
                string_push_str(&mut s, "unexpected end of stream");
            },
            ProtocolError::InvalidMagic => {
                string_push_str(&mut s, "invalid frame magic (expected SAO)");
            },
            ProtocolError::UnsupportedVersion { got } => {
                string_push_str(&mut s, "unsupported protocol version: 0x");
                push_hex_byte(&mut s, *got);
            },
            ProtocolError::PayloadTooLarge { len, max } => {
                string_push_str(&mut s, "payload length ");
                push_decimal(&mut s, *len as u64);
                string_push_str(&mut s, " exceeds maximum ");
                push_decimal(&mut s, *max as u64);
            },
            ProtocolError::PayloadLengthOverflow { len } => {
                string_push_str(&mut s, "payload length ");
                push_decimal(&mut s, *len as u64);
                string_push_str(&mut s, " too large for this platform");
            },
        }
        s
    }
}

impl From<std::io::Error> for ProtocolError {
    fn from(e: std::io::Error) -> (r: Self) {
        ProtocolError::Io(e)
    }
}

impl vstd::std_specs::convert::FromSpecImpl<std::io::Error> for ProtocolError {
    open spec fn obeys_from_spec() -> bool {
        true
    }

    open spec fn from_spec(e: std::io::Error) -> Self {
        ProtocolError::Io(e)
    }
}

} // verus!
