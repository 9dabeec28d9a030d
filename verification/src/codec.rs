//! [`FrameCodec`]: a byte stream together with the maximum payload it accepts.
//! The codec decides what a header means and what bytes a frame becomes; the
//! stream itself is read and written by the caller.

use vstd::prelude::*;

use crate::error::ProtocolError;
use crate::frame;
use crate::frame::{parse_header, write_header, Frame, DEFAULT_MAX_PAYLOAD_LEN, HEADER_LEN, VERSION};

verus! {

/// Frame reader/writer over a byte stream `S`.
pub struct FrameCodec<S> {
    inner: S,
    max_payload_len: u32,
}

/// What a header read from the stream means under the payload limit `max`:
/// the message type and the payload length to read next, or the error.
pub open spec fn header_outcome(max: u32, h: Seq<u8>) -> Result<(u8, usize), ProtocolError> {
    match frame::parsed_header(h) {
        Err(e) => Err(e),
        Ok((_v, t, len)) => if len > max {
            Err(ProtocolError::PayloadTooLarge { len, max })
        } else {
            Ok((t, len as usize))
        },
    }
}

/// What writing a frame with a payload of `n` bytes under the limit `max` gives:
/// the header to write before the payload, or the error.
pub open spec fn header_for_write(max: u32, msg_type: u8, n: nat) -> Result<Seq<u8>, ProtocolError> {
    if n > u32::MAX {
        Err(ProtocolError::PayloadTooLarge { len: u32::MAX, max })
    } else if n > max {
        Err(ProtocolError::PayloadTooLarge { len: n as u32, max })
    } else {
        Ok(frame::header_bytes(VERSION, msg_type, n as u32))
    }
}

/// The bytes of one frame written under the limit `max`.
pub open spec fn encoded_frame(max: u32, msg_type: u8, payload: Seq<u8>) -> Result<
    Seq<u8>,
    ProtocolError,
> {
    match header_for_write(max, msg_type, payload.len()) {
        Err(e) => Err(e),
        Ok(h) => Ok(h + payload),
    }
}

/// What reading one frame from the front of `bytes` under the limit `max` gives:
/// the message type, the payload and the number of bytes the frame took, or the error.
/// `UnexpectedEof` stands for a stream that ends too early.
pub open spec fn decoded_frame(max: u32, bytes: Seq<u8>) -> Result<(u8, Seq<u8>, nat), ProtocolError> {
    if bytes.len() < HEADER_LEN {
        Err(ProtocolError::UnexpectedEof)
    } else {
        match header_outcome(max, bytes.take(HEADER_LEN as int)) {
            Err(e) => Err(e),
            Ok((t, len)) => if bytes.len() < HEADER_LEN + len {
                Err(ProtocolError::UnexpectedEof)
            } else {
                Ok(
                    (
                        t,
                        bytes.subrange(HEADER_LEN as int, HEADER_LEN + len),
                        (HEADER_LEN + len) as nat,
                    ),
                )
            },
        }
    }
}

impl<S> FrameCodec<S> {
    /// The maximum payload length this codec accepts.
    pub closed spec fn max_len(&self) -> u32 {
        self.max_payload_len
    }

    /// The stream this codec reads and writes.
    pub closed spec fn stream(&self) -> S {
        self.inner
    }

    /// New codec with the default maximum payload.
    pub fn new(inner: S) -> (r: Self)
        ensures
            r.max_len() == DEFAULT_MAX_PAYLOAD_LEN,
            r.stream() == inner,
    {
        Self { inner, max_payload_len: DEFAULT_MAX_PAYLOAD_LEN }
    }

    /// New codec with a custom maximum payload length (bytes).
    pub fn with_max_payload_len(inner: S, max_payload_len: u32) -> (r: Self)
        ensures
            r.max_len() == max_payload_len,
            r.stream() == inner,
    {
        Self { inner, max_payload_len }
    }

    /// The maximum payload length (bytes) this codec accepts and writes.
    pub fn max_payload_len(&self) -> (r: u32)
        ensures
            r == self.max_len(),
    {
        self.max_payload_len
    }

    /// The underlying stream.
    pub fn get_ref(&self) -> (r: &S)
        ensures
            *r == self.stream(),
    {
        &self.inner
    }

    /// The underlying stream, mutably.
    pub fn get_mut(&mut self) -> (r: &mut S)
        ensures
            *r == old(self).stream(),
            final(self).stream() == *final(r),
            final(self).max_len() == old(self).max_len(),
    {
        &mut self.inner
    }

    /// Gives back the underlying stream.
    pub fn into_inner(self) -> (r: S)
        ensures
            r == self.stream(),
    {
        self.inner
    }

    /// Checks a header read from the stream; returns the message type and the
    /// number of payload bytes to read after it.
    pub fn check_header(&self, hdr: &[u8; HEADER_LEN]) -> (r: Result<(u8, usize), ProtocolError>)
        ensures
            r == header_outcome(self.max_len(), hdr@),
    {
        let (_version, msg_type, payload_len) = parse_header(hdr)?;
        if payload_len > self.max_payload_len {
            return Err(ProtocolError::PayloadTooLarge { len: payload_len, max: self.max_payload_len });
        }
        Ok((msg_type, payload_len as usize))
    }

    /// The header to write before a payload of `payload_len` bytes
    /// (`version` is the supported version).
    pub fn encode_header(&self, msg_type: u8, payload_len: usize) -> (r: Result<
        [u8; HEADER_LEN],
        ProtocolError,
    >)
        ensures
            match r {
                Ok(h) => header_for_write(self.max_len(), msg_type, payload_len as nat) == Ok::<
                    Seq<u8>,
                    ProtocolError,
                >(h@),
                Err(e) => header_for_write(self.max_len(), msg_type, payload_len as nat) == Err::<
                    Seq<u8>,
                    ProtocolError,
                >(e),
            },
    {
        if payload_len > u32::MAX as usize {
            return Err(ProtocolError::PayloadTooLarge { len: u32::MAX, max: self.max_payload_len });
        }
        let len_u32 = payload_len as u32;
        if len_u32 > self.max_payload_len {
            return Err(ProtocolError::PayloadTooLarge { len: len_u32, max: self.max_payload_len });
        }
        let mut hdr = [0u8; HEADER_LEN];
        write_header(&mut hdr, VERSION, msg_type, len_u32);
        Ok(hdr)
    }

    /// The bytes of one frame (header, then payload).
    pub fn encode_frame(&self, msg_type: u8, payload: &[u8]) -> (r: Result<Vec<u8>, ProtocolError>)
        ensures
            match r {
                Ok(v) => encoded_frame(self.max_len(), msg_type, payload@) == Ok::<
                    Seq<u8>,
                    ProtocolError,
                >(v@),
                Err(e) => encoded_frame(self.max_len(), msg_type, payload@) == Err::<
                    Seq<u8>,
                    ProtocolError,
                >(e),
            },
    {
        let hdr = self.encode_header(msg_type, payload.len())?;
        let mut out: Vec<u8> = Vec::new();
        for i in 0..HEADER_LEN
            invariant
                out@ == hdr@.take(i as int),
        {
            out.push(hdr[i]);
        }
        for i in 0..payload.len()
            invariant
                out@ == hdr@ + payload@.take(i as int),
        {
            out.push(payload[i]);
        }
        assert(payload@.take(payload@.len() as int) =~= payload@);
        Ok(out)
    }

    /// Reads one frame from the front of `bytes`; returns it with the number of
    /// bytes it took.
    pub fn decode_frame(&self, bytes: &[u8]) -> (r: Result<(Frame, usize), ProtocolError>)
        ensures
            match r {
                Ok((f, n)) => decoded_frame(self.max_len(), bytes@) == Ok::<
                    (u8, Seq<u8>, nat),
                    ProtocolError,
                >((f.msg_type, f.payload@, n as nat)),
                Err(e) => decoded_frame(self.max_len(), bytes@) == Err::<
                    (u8, Seq<u8>, nat),
                    ProtocolError,
                >(e),
            },
    {
        if bytes.len() < HEADER_LEN {
            return Err(ProtocolError::UnexpectedEof);
        }
        let mut hdr = [0u8; HEADER_LEN];
        for i in 0..HEADER_LEN
            invariant
                bytes@.len() >= HEADER_LEN,
                forall|j: int| 0 <= j < i ==> hdr@[j] == bytes@[j],
        {
            hdr[i] = bytes[i];
        }
        assert(hdr@ =~= bytes@.take(HEADER_LEN as int));
        let (msg_type, len) = self.check_header(&hdr)?;
        if bytes.len() - HEADER_LEN < len {
            return Err(ProtocolError::UnexpectedEof);
        }
        let mut payload: Vec<u8> = Vec::new();
        for i in 0..len
            invariant
                bytes.len() >= HEADER_LEN + len,
                payload@ == bytes@.subrange(HEADER_LEN as int, HEADER_LEN + i),
        {
            payload.push(bytes[HEADER_LEN + i]);
            assert(payload@ =~= bytes@.subrange(HEADER_LEN as int, HEADER_LEN + i + 1));
        }
        Ok((Frame { msg_type, payload }, HEADER_LEN + len))
    }
}

/// Reading gives back what was written: a frame encoded under a limit, followed
/// by any further bytes, decodes under the same limit to the same message type
/// and payload, and takes exactly the encoded bytes.
pub proof fn lemma_frame_roundtrip(max: u32, msg_type: u8, payload: Seq<u8>, rest: Seq<u8>)
    requires
        payload.len() <= max,
    ensures
        encoded_frame(max, msg_type, payload) is Ok,
        decoded_frame(max, encoded_frame(max, msg_type, payload)->Ok_0 + rest) == Ok::<
            (u8, Seq<u8>, nat),
            ProtocolError,
        >((msg_type, payload, (HEADER_LEN + payload.len()) as nat)),
{
    let h = frame::header_bytes(VERSION, msg_type, payload.len() as u32);
    let bytes = h + payload + rest;
    frame::lemma_header_write_parse(msg_type, payload.len() as u32);
    assert(encoded_frame(max, msg_type, payload)->Ok_0 + rest =~= bytes);
    assert(bytes.take(HEADER_LEN as int) =~= h);
    assert(bytes.subrange(HEADER_LEN as int, HEADER_LEN + payload.len()) =~= payload);
}

/// Writing refuses exactly the payloads that reading would refuse: a payload
/// is accepted for writing iff its length is within the limit.
pub proof fn lemma_write_limit(max: u32, msg_type: u8, payload: Seq<u8>)
    ensures
        encoded_frame(max, msg_type, payload) is Ok <==> payload.len() <= max,
{
}

/// What was read is what would be written: when bytes decode to a frame, the
/// frame they took is exactly the encoding of that frame.
pub proof fn lemma_decode_encode(max: u32, bytes: Seq<u8>)
    requires
        decoded_frame(max, bytes) is Ok,
    ensures
        ({
            let (t, p, n) = decoded_frame(max, bytes)->Ok_0;
            encoded_frame(max, t, p) == Ok::<Seq<u8>, ProtocolError>(bytes.take(n as int))
        }),
{
    let h = bytes.take(HEADER_LEN as int);
    frame::lemma_header_parse_write(h);
    let (t, p, n) = decoded_frame(max, bytes)->Ok_0;
    assert(h + p =~= bytes.take(n as int));
}

/// A stream that ends inside a frame is reported as ending too early.
pub proof fn lemma_truncated_frame(max: u32, msg_type: u8, payload: Seq<u8>, cut: int)
    requires
        payload.len() <= max,
        0 <= cut < HEADER_LEN + payload.len(),
    ensures
        decoded_frame(max, (encoded_frame(max, msg_type, payload)->Ok_0).take(cut))
            == Err::<(u8, Seq<u8>, nat), ProtocolError>(ProtocolError::UnexpectedEof),
{
    let h = frame::header_bytes(VERSION, msg_type, payload.len() as u32);
    let bytes = (h + payload).take(cut);
    frame::lemma_header_write_parse(msg_type, payload.len() as u32);
    if cut >= HEADER_LEN {
        assert(bytes.take(HEADER_LEN as int) =~= h);
    }
}

} // verus!
