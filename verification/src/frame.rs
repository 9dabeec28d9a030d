//! Fixed 9-byte frame header: magic(3) + version(1) + msg_type(1) + payload_len(4, big-endian).

use vstd::prelude::*;

use crate::error::ProtocolError;

verus! {

/// Frame magic bytes `S` `A` `O`.
pub const MAGIC: [u8; 3] = [0x53u8, 0x41u8, 0x4Fu8];

/// Current wire protocol version.
pub const VERSION: u8 = 0x01;

/// Header size: magic(3) + version(1) + msg_type(1) + payload_len(4).
pub const HEADER_LEN: usize = 9;

/// Default maximum payload size in bytes (1 MiB).
pub const DEFAULT_MAX_PAYLOAD_LEN: u32 = 1024 * 1024;

/// The four big-endian bytes of `n`.
pub open spec fn u32_be_bytes(n: u32) -> Seq<u8> {
    seq![
        (n / 0x100_0000) as u8,
        ((n / 0x1_0000) % 0x100) as u8,
        ((n / 0x100) % 0x100) as u8,
        (n % 0x100) as u8,
    ]
}

/// The number whose big-endian bytes are `b[0..4]`.
pub open spec fn be_u32_value(b: Seq<u8>) -> int {
    b[0] * 0x100_0000 + b[1] * 0x1_0000 + b[2] * 0x100 + b[3]
}

/// The header bytes for `version`, `msg_type` and `payload_len`.
pub open spec fn header_bytes(version: u8, msg_type: u8, payload_len: u32) -> Seq<u8> {
    seq![0x53u8, 0x41u8, 0x4Fu8, version, msg_type] + u32_be_bytes(payload_len)
}

/// Write the 9-byte header into `out`.
pub fn write_header(out: &mut [u8], version: u8, msg_type: u8, payload_len: u32)
    requires
        old(out)@.len() == HEADER_LEN,
    ensures
        final(out)@ == header_bytes(version, msg_type, payload_len),
{
    out[0] = MAGIC[0];
    out[1] = MAGIC[1];
    out[2] = MAGIC[2];
    out[3] = version;
    out[4] = msg_type;
    out[5] = (payload_len / 0x100_0000) as u8;
    out[6] = ((payload_len / 0x1_0000) % 0x100) as u8;
    out[7] = ((payload_len / 0x100) % 0x100) as u8;
    out[8] = (payload_len % 0x100) as u8;
    assert(out@ =~= header_bytes(version, msg_type, payload_len));
}


/// One decoded frame: message type and raw body.
#[derive(Debug, Clone, PartialEq, Eq)]
pub struct Frame {
    pub msg_type: u8,
    pub payload: Vec<u8>,
}

/// The magic bytes `S` `A` `O`.
pub open spec fn magic_bytes() -> Seq<u8> {
    seq![0x53u8, 0x41u8, 0x4Fu8]
}

/// What parsing the header `h` gives: `(version, msg_type, payload_len)` or the error.
pub open spec fn parsed_header(h: Seq<u8>) -> Result<(u8, u8, u32), ProtocolError> {
    if h.take(3) != magic_bytes() {
        Err(ProtocolError::InvalidMagic)
    } else if h[3] != VERSION {
        Err(ProtocolError::UnsupportedVersion { got: h[3] })
    } else {
        Ok((h[3], h[4], be_u32_value(h.subrange(5, 9)) as u32))
    }
}

/// Parse header; returns `(version, msg_type, payload_len)`.
pub fn parse_header(hdr: &[u8; HEADER_LEN]) -> (r: Result<(u8, u8, u32), ProtocolError>)
    ensures
        r == parsed_header(hdr@),
{
    if hdr[0] != MAGIC[0] || hdr[1] != MAGIC[1] || hdr[2] != MAGIC[2] {
        assert(hdr@.take(3) != magic_bytes()) by {
            if hdr@.take(3) == magic_bytes() {
                assert(hdr@.take(3)[0] == hdr@[0]);
                assert(hdr@.take(3)[1] == hdr@[1]);
                assert(hdr@.take(3)[2] == hdr@[2]);
            }
        }
        return Err(ProtocolError::InvalidMagic);
    }
    assert(hdr@.take(3) =~= magic_bytes());
    let version = hdr[3];
    if version != VERSION {
        return Err(ProtocolError::UnsupportedVersion { got: version });
    }
    let msg_type = hdr[4];
    let payload_len: u32 = (hdr[5] as u32) * 0x100_0000 + (hdr[6] as u32) * 0x1_0000
        + (hdr[7] as u32) * 0x100 + (hdr[8] as u32);
    Ok((version, msg_type, payload_len))
}

/// Big-endian bytes give back the number they were made from.
pub proof fn lemma_u32_be_value(n: u32)
    ensures
        be_u32_value(u32_be_bytes(n)) == n,
        u32_be_bytes(n).len() == 4,
{
    let b0 = n / 0x100_0000;
    let b1 = (n / 0x1_0000) % 0x100;
    let b2 = (n / 0x100) % 0x100;
    let b3 = n % 0x100;
    assert(b0 * 0x100_0000 + b1 * 0x1_0000 + b2 * 0x100 + b3 == n && b0 < 0x100) by (nonlinear_arith)
        requires
            b0 == n / 0x100_0000,
            b1 == (n / 0x1_0000) % 0x100,
            b2 == (n / 0x100) % 0x100,
            b3 == n % 0x100,
            0 <= n <= 0xffff_ffff,
    ;
}

/// Four bytes are the big-endian bytes of the number they denote.
pub proof fn lemma_be_u32_bytes(b: Seq<u8>)
    requires
        b.len() == 4,
    ensures
        0 <= be_u32_value(b) <= u32::MAX,
        u32_be_bytes(be_u32_value(b) as u32) == b,
{
    let v = be_u32_value(b);
    let b0 = b[0] as int;
    let b1 = b[1] as int;
    let b2 = b[2] as int;
    let b3 = b[3] as int;
    assert(v / 0x100_0000 == b0 && (v / 0x1_0000) % 0x100 == b1 && (v / 0x100) % 0x100 == b2
        && v % 0x100 == b3) by (nonlinear_arith)
        requires
            v == b0 * 0x100_0000 + b1 * 0x1_0000 + b2 * 0x100 + b3,
            0 <= b0 < 256,
            0 <= b1 < 256,
            0 <= b2 < 256,
            0 <= b3 < 256,
    ;
    assert(u32_be_bytes(v as u32) =~= b);
}

/// A header written for the supported version parses back to what was written.
pub proof fn lemma_header_write_parse(msg_type: u8, payload_len: u32)
    ensures
        parsed_header(header_bytes(VERSION, msg_type, payload_len)) == Ok::<(u8, u8, u32), ProtocolError>(
            (VERSION, msg_type, payload_len),
        ),
{
    let h = header_bytes(VERSION, msg_type, payload_len);
    lemma_u32_be_value(payload_len);
    assert(h.take(3) =~= magic_bytes());
    assert(h.subrange(5, 9) =~= u32_be_bytes(payload_len));
}

/// A header of another version is refused with that version.
pub proof fn lemma_header_other_version(version: u8, msg_type: u8, payload_len: u32)
    requires
        version != VERSION,
    ensures
        parsed_header(header_bytes(version, msg_type, payload_len)) == Err::<(u8, u8, u32), ProtocolError>(
            ProtocolError::UnsupportedVersion { got: version },
        ),
{
    let h = header_bytes(version, msg_type, payload_len);
    assert(h.take(3) =~= magic_bytes());
}

/// Nine bytes that parse as a header are exactly the header written for what they parse to.
pub proof fn lemma_header_parse_write(h: Seq<u8>)
    requires
        h.len() == HEADER_LEN,
        parsed_header(h) is Ok,
    ensures
        header_bytes(parsed_header(h)->Ok_0.0, parsed_header(h)->Ok_0.1, parsed_header(h)->Ok_0.2)
            == h,
{
    lemma_be_u32_bytes(h.subrange(5, 9));
    let (v, t, n) = parsed_header(h)->Ok_0;
    assert(h.take(3) == magic_bytes());
    assert(header_bytes(v, t, n) =~= h) by {
        assert(h.take(3)[0] == h[0]);
        assert(h.take(3)[1] == h[1]);
        assert(h.take(3)[2] == h[2]);
        assert(u32_be_bytes(n) == h.subrange(5, 9));
    }
}

} // verus!
