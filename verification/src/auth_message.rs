//! Canonical bytes signed in authentication.

use vstd::prelude::*;

verus! {

/// `UTF-8("sao-auth-v1\0")`: the prefix of the signed bytes.
pub open spec fn auth_prefix() -> Seq<u8> {
    seq![0x73u8, 0x61, 0x6f, 0x2d, 0x61, 0x75, 0x74, 0x68, 0x2d, 0x76, 0x31, 0x00]
}

/// The bytes an agent signs for a challenge:
/// `UTF-8("sao-auth-v1\0") || nonce || UTF-8(session_id)`.
pub open spec fn auth_signed_bytes(nonce: Seq<u8>, session_id: Seq<char>) -> Seq<u8> {
    auth_prefix() + nonce + vstd::utf8::encode_utf8(session_id)
}

/// The signed bytes are the 12 bytes of `sao-auth-v1\0`, then every byte of
/// the nonce, then every byte of the session id's UTF-8 text, and nothing else.
pub proof fn lemma_signed_bytes_layout(nonce: Seq<u8>, session_id: Seq<char>)
    ensures
        ({
            let b = auth_signed_bytes(nonce, session_id);
            let sid = vstd::utf8::encode_utf8(session_id);
            &&& b.len() == 12 + nonce.len() + sid.len()
            &&& b.subrange(0, 12) == seq![
                0x73u8, 0x61u8, 0x6fu8, 0x2du8, 0x61u8, 0x75u8, 0x74u8, 0x68u8, 0x2du8, 0x76u8,
                0x31u8, 0x00u8,
            ]
            &&& b.subrange(12, 12 + nonce.len() as int) == nonce
            &&& b.subrange(12 + nonce.len() as int, b.len() as int) == sid
        }),
{
    let b = auth_signed_bytes(nonce, session_id);
    let sid = vstd::utf8::encode_utf8(session_id);
    assert(b.subrange(0, 12) =~= seq![
        0x73u8, 0x61u8, 0x6fu8, 0x2du8, 0x61u8, 0x75u8, 0x74u8, 0x68u8, 0x2du8, 0x76u8, 0x31u8,
        0x00u8,
    ]);
    assert(b.subrange(12, 12 + nonce.len() as int) =~= nonce);
    assert(b.subrange(12 + nonce.len() as int, b.len() as int) =~= sid);
}

/// `UTF-8("sao-auth-v1\0") || nonce || UTF-8(session_id)`.
pub fn signing_bytes(nonce: &[u8], session_id: &str) -> (v: Vec<u8>)
    ensures
        v@ == auth_signed_bytes(nonce@, session_id@),
        v@.len() == 12 + nonce@.len() + vstd::utf8::encode_utf8(session_id@).len(),
        v@.subrange(0, 12) == seq![
            0x73u8, 0x61u8, 0x6fu8, 0x2du8, 0x61u8, 0x75u8, 0x74u8, 0x68u8, 0x2du8, 0x76u8, 0x31u8,
            0x00u8,
        ],
        v@.subrange(12, 12 + nonce@.len() as int) == nonce@,
        v@.subrange(12 + nonce@.len() as int, v@.len() as int) == vstd::utf8::encode_utf8(session_id@),
{
    proof {
        lemma_signed_bytes_layout(nonce@, session_id@);
    }
    let prefix: [u8; 12] = [0x73, 0x61, 0x6f, 0x2d, 0x61, 0x75, 0x74, 0x68, 0x2d, 0x76, 0x31, 0x00];
    let mut v: Vec<u8> = Vec::new();
    for i in 0..12
        invariant
            prefix@ == auth_prefix(),
            v@ == auth_prefix().take(i as int),
    {
        v.push(prefix[i]);
        assert(v@ =~= auth_prefix().take(i + 1));
    }
    assert(auth_prefix().take(12) =~= auth_prefix());
    for i in 0..nonce.len()
        invariant
            v@ == auth_prefix() + nonce@.take(i as int),
    {
        v.push(nonce[i]);
        assert(v@ =~= auth_prefix() + nonce@.take(i + 1));
    }
    assert(nonce@.take(nonce@.len() as int) =~= nonce@);
    let sid = session_id.as_bytes();
    for i in 0..sid.len()
        invariant
            sid@ == vstd::utf8::encode_utf8(session_id@),
            v@ == auth_prefix() + nonce@ + sid@.take(i as int),
    {
        v.push(sid[i]);
        assert(v@ =~= auth_prefix() + nonce@ + sid@.take(i + 1));
    }
    assert(sid@.take(sid@.len() as int) =~= sid@);
    v
}

} // verus!
