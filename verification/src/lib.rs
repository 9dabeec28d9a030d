//! Agent remote-operation protocol: frame codec, authentication material,
//! pinned host keys, authorized keys, execution policy and session decisions.

pub mod error;
pub mod frame;
pub mod msg_type;
pub mod codec;
pub mod auth_message;
pub mod authorized_keys;
pub mod agent_key;
pub mod paths;
pub mod known_hosts;
pub mod config;
pub mod policy;
pub mod spki;
pub mod tls;
pub mod session;
pub mod client;
pub mod text;
pub mod encoding;
pub mod crypto;

pub use agent_key::sign_auth_message;
pub use auth_message::signing_bytes;
pub use authorized_keys::{find_key, verify_ed25519_signature, AuthorizedKey, KEY_TYPE_ED25519};
pub use codec::FrameCodec;
pub use error::{CoreError, ProtocolError};
pub use frame::{parse_header, write_header, Frame, DEFAULT_MAX_PAYLOAD_LEN, HEADER_LEN, MAGIC, VERSION};
pub use policy::check_shell;
