//! Decisions of the TCP login client: the framing of server packets, the
//! fixed-width credential fields, and what each reply opcode means.
use vstd::prelude::*;
use vstd::utf8::encode_utf8;
use crate::bytes::{be_u16, u16_be_bytes, read_u16_be, copy_range, push_u16_be, push_slice};

verus! {

/// The opcode and payload of a login packet body: the big-endian opcode in
/// its first two bytes and the rest; a body shorter than two bytes reads as
/// opcode 0 with the body as payload.
pub open spec fn body_parts(body: Seq<u8>) -> (u16, Seq<u8>) {
    if body.len() < 2 {
        (0, body)
    } else {
        (be_u16(body, 0), body.skip(2))
    }
}

/// Splits a received packet body into its opcode and payload (see
/// `body_parts`).
pub fn split_body(body: &[u8]) -> (r: (u16, Vec<u8>))
    ensures
        (r.0, r.1@) == body_parts(body@),
{
    if body.len() < 2 {
        let v = copy_range(body, 0, body.len());
        assert(v@ =~= body@);
        return (0, v);
    }
    let opcode = read_u16_be(body, 0);
    let payload = copy_range(body, 2, body.len());
    assert(payload@ =~= body@.skip(2));
    (opcode, payload)
}

/// The 64-byte field of `bytes`: its first 64 bytes, zero-padded.
pub open spec fn field64(bytes: Seq<u8>) -> Seq<u8> {
    if bytes.len() >= 64 {
        bytes.subrange(0, 64)
    } else {
        bytes + Seq::new((64 - bytes.len()) as nat, |i: int| 0u8)
    }
}

/// The fixed 64-byte credential field holding `s`: its UTF-8 bytes cut to 64
/// and padded with zeros.
pub fn string_to_bytes(s: &str) -> (r: [u8; 64])
    ensures
        r@ == field64(encode_utf8(s@)),
{
    let mut buf = [0u8; 64];
    let bytes = s.as_bytes();
    let len = if bytes.len() < 64 {
        bytes.len()
    } else {
        64
    };
    let mut k: usize = 0;
    while k < 64
        invariant
            k <= 64,
            len <= 64,
            len <= bytes@.len(),
            len == (if bytes@.len() < 64 {
                bytes@.len()
            } else {
                64
            }),
            buf@.len() == 64,
            forall|j: int| 0 <= j < k ==> buf@[j] == (if j < len {
                bytes@[j]
            } else {
                0u8
            }),
        decreases 64 - k,
    {
        if k < len {
            buf[k] = bytes[k];
        } else {
            buf[k] = 0u8;
        }
        k = k + 1;
    }
    assert(buf@ =~= field64(encode_utf8(s@)));
    buf
}

/// What a reply of the login server means to the client.
#[derive(Debug, PartialEq, Eq, Structural, Clone, Copy)]
pub enum LoginReply {
    /// The server list arrived (opcodes 0x0004, 0x0018, 0x0019); the login
    /// run is over.
    ServerList,
    /// The login was accepted (opcodes 0x0003, 0x0017).
    Accepted,
    /// Anything else; keep reading.
    Other,
}

/// The meaning of the reply opcode `opcode`.
pub open spec fn reply_kind(opcode: u16) -> LoginReply {
    if opcode == 0x0004 || opcode == 0x0018 || opcode == 0x0019 {
        LoginReply::ServerList
    } else if opcode == 0x0003 || opcode == 0x0017 {
        LoginReply::Accepted
    } else {
        LoginReply::Other
    }
}

/// Classifies a reply of the login server by its opcode (see `reply_kind`).
pub fn classify_reply(opcode: u16) -> (r: LoginReply)
    ensures
        r == reply_kind(opcode),
{
    if opcode == 0x0004 || opcode == 0x0018 || opcode == 0x0019 {
        LoginReply::ServerList
    } else if opcode == 0x0003 || opcode == 0x0017 {
        LoginReply::Accepted
    } else {
        LoginReply::Other
    }
}

/// Whether the handshake reply opcode acknowledges the handshake (0x0001).
pub fn handshake_acknowledged(opcode: u16) -> (r: bool)
    ensures
        r == (opcode == 0x0001),
{
    opcode == 0x0001
}

/// The framed login packet carrying `opcode` and `payload`: the big-endian
/// size of the body, then the body, which is the big-endian opcode followed
/// by the payload.
pub open spec fn login_frame(opcode: u16, payload: Seq<u8>) -> Seq<u8> {
    u16_be_bytes((payload.len() + 2) as u16) + u16_be_bytes(opcode) + payload
}

/// Frames a login packet (see `login_frame`); `None` when the body is too
/// long for its 16-bit size.
pub fn frame_packet(opcode: u16, payload: &[u8]) -> (r: Option<Vec<u8>>)
    ensures
        payload@.len() + 2 <= 0xFFFF ==> (r matches Some(v) && v@ == login_frame(opcode, payload@)),
        payload@.len() + 2 > 0xFFFF ==> r is None,
{
    if payload.len() > 0xFFFD {
        return None;
    }
    let mut v: Vec<u8> = Vec::new();
    push_u16_be(&mut v, (payload.len() + 2) as u16);
    push_u16_be(&mut v, opcode);
    push_slice(&mut v, payload);
    proof {
        assert(v@ =~= login_frame(opcode, payload@));
    }
    Some(v)
}

/// A framed login packet announces the length of its body, and splitting
/// the body gives back the opcode and the payload.
pub proof fn framed_packet_splits_back(opcode: u16, payload: Seq<u8>)
    requires
        payload.len() + 2 <= 0xFFFF,
    ensures
        be_u16(login_frame(opcode, payload), 0) == payload.len() + 2,
        login_frame(opcode, payload).len() == payload.len() + 4,
        body_parts(login_frame(opcode, payload).skip(2)) == (opcode, payload),
{
    let size = (payload.len() + 2) as u16;
    let f = login_frame(opcode, payload);
    crate::bytes::lemma_u16_be_roundtrip(size, u16_be_bytes(opcode) + payload, Seq::empty());
    assert(Seq::<u8>::empty() + u16_be_bytes(size) + (u16_be_bytes(opcode) + payload) =~= f);
    let body = f.skip(2);
    crate::bytes::lemma_u16_be_roundtrip(opcode, payload, Seq::empty());
    assert(body =~= Seq::<u8>::empty() + u16_be_bytes(opcode) + payload);
    assert(body.skip(2) =~= payload);
}

/// A login packet body is read as its first two bytes, most significant
/// first, for the opcode and the rest for the payload.
pub proof fn body_opcode_is_big_endian(hi: u8, lo: u8, payload: Seq<u8>)
    ensures
        body_parts(seq![hi, lo] + payload) == ((256 * hi + lo) as u16, payload),
{
    assert((seq![hi, lo] + payload).skip(2) =~= payload);
}

/// A framed login packet is its body size (the payload length plus two)
/// and then its opcode, each as two bytes most significant first, followed
/// by the payload.
pub proof fn login_frame_bytes(opcode: u16, payload: Seq<u8>)
    requires
        payload.len() + 2 <= 0xFFFF,
    ensures
        login_frame(opcode, payload) == seq![
            ((payload.len() + 2) / 256) as u8,
            ((payload.len() + 2) % 256) as u8,
            (opcode / 256) as u8,
            (opcode % 256) as u8,
        ] + payload,
{
    reveal(u16_be_bytes);
    assert(login_frame(opcode, payload) =~= seq![
        ((payload.len() + 2) / 256) as u8,
        ((payload.len() + 2) % 256) as u8,
        (opcode / 256) as u8,
        (opcode % 256) as u8,
    ] + payload);
}

} // verus!
