//! Records of the reliable-stream session layer, with their
//! decoding from and encoding to bytes.
use vstd::prelude::*;
use crate::bytes::{
    be_u16, be_u32, u16_be_bytes, u32_be_bytes, read_u16_be, read_u32_be, push_u16_be,
    push_u32_be, lemma_u16_be_roundtrip, lemma_u32_be_roundtrip,
};

verus! {

/// The first two bytes of every session-layer datagram.
#[derive(Debug, PartialEq, Eq, Structural, Clone, Copy)]
pub struct ReliableStreamHeader {
    pub zero: u8,
    pub opcode: u8,
}

impl ReliableStreamHeader {
    pub open spec fn spec_bytes(self) -> Seq<u8> {
        seq![self.zero, self.opcode]
    }

    pub open spec fn spec_read(s: Seq<u8>) -> Option<ReliableStreamHeader> {
        if s.len() >= 2 {
            Some(ReliableStreamHeader { zero: s[0], opcode: s[1] })
        } else {
            None
        }
    }

    /// Decodes the header from the front of `b`; `None` when `b` is too short.
    pub fn read(b: &[u8]) -> (r: Option<ReliableStreamHeader>)
        ensures
            r == Self::spec_read(b@),
    {
        if b.len() < 2 {
            return None;
        }
        Some(ReliableStreamHeader { zero: b[0], opcode: b[1] })
    }

    /// The wire bytes of the header.
    pub fn write(&self) -> (r: Vec<u8>)
        ensures
            r@ == self.spec_bytes(),
    {
        let mut v: Vec<u8> = Vec::new();
        v.push(self.zero);
        v.push(self.opcode);
        assert(v@ =~= self.spec_bytes());
        v
    }
}

/// Reading the bytes of a stream header gives the header back.
pub proof fn reliable_stream_header_roundtrip(m: ReliableStreamHeader, rest: Seq<u8>)
    ensures
        ReliableStreamHeader::spec_read(m.spec_bytes() + rest) == Some(m),
{
    let s = m.spec_bytes() + rest;
    assert(s[0] == m.zero && s[1] == m.opcode);
}

/// Session request (client to server), opcode 0x01; integers big-endian.
#[derive(Debug, PartialEq, Eq, Structural, Clone, Copy)]
pub struct ReliableStreamConnect {
    pub zero: u8,
    pub opcode: u8,
    pub protocol_version: u32,
    pub connect_code: u32,
    pub max_packet_size: u32,
}

impl ReliableStreamConnect {
    pub open spec fn spec_bytes(self) -> Seq<u8> {
        seq![self.zero, self.opcode] + u32_be_bytes(self.protocol_version) + u32_be_bytes(
            self.connect_code,
        ) + u32_be_bytes(self.max_packet_size)
    }

    pub open spec fn spec_read(s: Seq<u8>) -> Option<ReliableStreamConnect> {
        if s.len() >= 14 {
            Some(
                ReliableStreamConnect {
                    zero: s[0],
                    opcode: s[1],
                    protocol_version: be_u32(s, 2),
                    connect_code: be_u32(s, 6),
                    max_packet_size: be_u32(s, 10),
                },
            )
        } else {
            None
        }
    }

    /// Decodes the request from the front of `b`; `None` when `b` is too short.
    pub fn read(b: &[u8]) -> (r: Option<ReliableStreamConnect>)
        ensures
            r == Self::spec_read(b@),
    {
        if b.len() < 14 {
            return None;
        }
        Some(
            ReliableStreamConnect {
                zero: b[0],
                opcode: b[1],
                protocol_version: read_u32_be(b, 2),
                connect_code: read_u32_be(b, 6),
                max_packet_size: read_u32_be(b, 10),
            },
        )
    }

    /// The wire bytes of the request.
    pub fn write(&self) -> (r: Vec<u8>)
        ensures
            r@ == self.spec_bytes(),
    {
        let mut v: Vec<u8> = Vec::new();
        v.push(self.zero);
        v.push(self.opcode);
        push_u32_be(&mut v, self.protocol_version);
        push_u32_be(&mut v, self.connect_code);
        push_u32_be(&mut v, self.max_packet_size);
        assert(v@ =~= self.spec_bytes());
        v
    }
}

/// Reading the bytes of a session request gives the request back.
pub proof fn reliable_stream_connect_roundtrip(m: ReliableStreamConnect, rest: Seq<u8>)
    ensures
        ReliableStreamConnect::spec_read(m.spec_bytes() + rest) == Some(m),
{
    let a = seq![m.zero, m.opcode];
    let b = u32_be_bytes(m.protocol_version);
    let c = u32_be_bytes(m.connect_code);
    let d = u32_be_bytes(m.max_packet_size);
    let s = m.spec_bytes() + rest;
    lemma_u32_be_roundtrip(m.protocol_version, c + d + rest, a);
    lemma_u32_be_roundtrip(m.connect_code, d + rest, a + b);
    lemma_u32_be_roundtrip(m.max_packet_size, rest, a + b + c);
    assert(s =~= a + b + (c + d + rest));
    assert(s =~= (a + b) + c + (d + rest));
    assert(s =~= (a + b + c) + d + rest);
}

/// Session response (server to client), opcode 0x02; integers big-endian.
#[derive(Debug, PartialEq, Eq, Structural, Clone, Copy)]
pub struct ReliableStreamConnectReply {
    pub zero: u8,
    pub opcode: u8,
    pub connect_code: u32,
    pub encode_key: u32,
    pub crc_bytes: u8,
    pub encode_pass1: u8,
    pub encode_pass2: u8,
    pub max_packet_size: u32,
}

impl ReliableStreamConnectReply {
    pub open spec fn spec_bytes(self) -> Seq<u8> {
        seq![self.zero, self.opcode] + u32_be_bytes(self.connect_code) + u32_be_bytes(
            self.encode_key,
        ) + seq![self.crc_bytes, self.encode_pass1, self.encode_pass2] + u32_be_bytes(
            self.max_packet_size,
        )
    }

    pub open spec fn spec_read(s: Seq<u8>) -> Option<ReliableStreamConnectReply> {
        if s.len() >= 17 {
            Some(
                ReliableStreamConnectReply {
                    zero: s[0],
                    opcode: s[1],
                    connect_code: be_u32(s, 2),
                    encode_key: be_u32(s, 6),
                    crc_bytes: s[10],
                    encode_pass1: s[11],
                    encode_pass2: s[12],
                    max_packet_size: be_u32(s, 13),
                },
            )
        } else {
            None
        }
    }

    /// Decodes the response from the front of `b`; `None` when `b` is too short.
    pub fn read(b: &[u8]) -> (r: Option<ReliableStreamConnectReply>)
        ensures
            r == Self::spec_read(b@),
    {
        if b.len() < 17 {
            return None;
        }
        Some(
            ReliableStreamConnectReply {
                zero: b[0],
                opcode: b[1],
                connect_code: read_u32_be(b, 2),
                encode_key: read_u32_be(b, 6),
                crc_bytes: b[10],
                encode_pass1: b[11],
                encode_pass2: b[12],
                max_packet_size: read_u32_be(b, 13),
            },
        )
    }

    /// The wire bytes of the response.
    pub fn write(&self) -> (r: Vec<u8>)
        ensures
            r@ == self.spec_bytes(),
    {
        let mut v: Vec<u8> = Vec::new();
        v.push(self.zero);
        v.push(self.opcode);
        push_u32_be(&mut v, self.connect_code);
        push_u32_be(&mut v, self.encode_key);
        v.push(self.crc_bytes);
        v.push(self.encode_pass1);
        v.push(self.encode_pass2);
        push_u32_be(&mut v, self.max_packet_size);
        assert(v@ =~= self.spec_bytes());
        v
    }
}

/// Reading the bytes of a session response gives the response back.
pub proof fn reliable_stream_connect_reply_roundtrip(m: ReliableStreamConnectReply, rest: Seq<u8>)
    ensures
        ReliableStreamConnectReply::spec_read(m.spec_bytes() + rest) == Some(m),
{
    let a = seq![m.zero, m.opcode];
    let b = u32_be_bytes(m.connect_code);
    let c = u32_be_bytes(m.encode_key);
    let d = seq![m.crc_bytes, m.encode_pass1, m.encode_pass2];
    let e = u32_be_bytes(m.max_packet_size);
    let s = m.spec_bytes() + rest;
    lemma_u32_be_roundtrip(m.connect_code, c + d + e + rest, a);
    lemma_u32_be_roundtrip(m.encode_key, d + e + rest, a + b);
    lemma_u32_be_roundtrip(m.max_packet_size, rest, a + b + c + d);
    assert(s =~= a + b + (c + d + e + rest));
    assert(s =~= (a + b) + c + (d + e + rest));
    assert(s =~= (a + b + c + d) + e + rest);
    assert(s[10] == m.crc_bytes);
    assert(s[11] == m.encode_pass1);
    assert(s[12] == m.encode_pass2);
}

/// Header of sequenced session packets (0x09 packet, 0x0D fragment, 0x15
/// ack): zero byte, opcode, big-endian sequence number.
#[derive(Debug, PartialEq, Eq, Structural, Clone, Copy)]
pub struct ReliableStreamReliableHeader {
    pub zero: u8,
    pub opcode: u8,
    pub sequence: u16,
}

impl ReliableStreamReliableHeader {
    pub open spec fn spec_bytes(self) -> Seq<u8> {
        seq![self.zero, self.opcode] + u16_be_bytes(self.sequence)
    }

    pub open spec fn spec_read(s: Seq<u8>) -> Option<ReliableStreamReliableHeader> {
        if s.len() >= 4 {
            Some(ReliableStreamReliableHeader { zero: s[0], opcode: s[1], sequence: be_u16(s, 2) })
        } else {
            None
        }
    }

    /// Decodes the header from the front of `b`; `None` when `b` is too short.
    pub fn read(b: &[u8]) -> (r: Option<ReliableStreamReliableHeader>)
        ensures
            r == Self::spec_read(b@),
    {
        if b.len() < 4 {
            return None;
        }
        Some(ReliableStreamReliableHeader { zero: b[0], opcode: b[1], sequence: read_u16_be(b, 2) })
    }

    /// The wire bytes of the header.
    pub fn write(&self) -> (r: Vec<u8>)
        ensures
            r@ == self.spec_bytes(),
    {
        let mut v: Vec<u8> = Vec::new();
        v.push(self.zero);
        v.push(self.opcode);
        push_u16_be(&mut v, self.sequence);
        assert(v@ =~= self.spec_bytes());
        v
    }
}

/// Reading the bytes of a sequenced header gives the header back.
pub proof fn reliable_header_roundtrip(m: ReliableStreamReliableHeader, rest: Seq<u8>)
    ensures
        ReliableStreamReliableHeader::spec_read(m.spec_bytes() + rest) == Some(m),
{
    lemma_u16_be_roundtrip(m.sequence, rest, seq![m.zero, m.opcode]);
}

/// Header of the first fragment of a fragmented packet: the sequenced header
/// followed by the big-endian total size of the reassembled packet.
#[derive(Debug, PartialEq, Eq, Structural, Clone, Copy)]
pub struct ReliableFragmentHeader {
    pub zero: u8,
    pub opcode: u8,
    pub sequence: u16,
    pub total_size: u32,
}

impl ReliableFragmentHeader {
    pub open spec fn spec_bytes(self) -> Seq<u8> {
        seq![self.zero, self.opcode] + u16_be_bytes(self.sequence) + u32_be_bytes(self.total_size)
    }

    pub open spec fn spec_read(s: Seq<u8>) -> Option<ReliableFragmentHeader> {
        if s.len() >= 8 {
            Some(
                ReliableFragmentHeader {
                    zero: s[0],
                    opcode: s[1],
                    sequence: be_u16(s, 2),
                    total_size: be_u32(s, 4),
                },
            )
        } else {
            None
        }
    }

    /// Decodes the header from the front of `b`; `None` when `b` is too short.
    pub fn read(b: &[u8]) -> (r: Option<ReliableFragmentHeader>)
        ensures
            r == Self::spec_read(b@),
    {
        if b.len() < 8 {
            return None;
        }
        Some(
            ReliableFragmentHeader {
                zero: b[0],
                opcode: b[1],
                sequence: read_u16_be(b, 2),
                total_size: read_u32_be(b, 4),
            },
        )
    }

    /// The wire bytes of the header.
    pub fn write(&self) -> (r: Vec<u8>)
        ensures
            r@ == self.spec_bytes(),
    {
        let mut v: Vec<u8> = Vec::new();
        v.push(self.zero);
        v.push(self.opcode);
        push_u16_be(&mut v, self.sequence);
        push_u32_be(&mut v, self.total_size);
        assert(v@ =~= self.spec_bytes());
        v
    }
}

/// Reading the bytes of a fragment header gives the header back.
pub proof fn fragment_header_roundtrip(m: ReliableFragmentHeader, rest: Seq<u8>)
    ensures
        ReliableFragmentHeader::spec_read(m.spec_bytes() + rest) == Some(m),
{
    let a = seq![m.zero, m.opcode];
    let b = u16_be_bytes(m.sequence);
    let c = u32_be_bytes(m.total_size);
    let s = m.spec_bytes() + rest;
    lemma_u16_be_roundtrip(m.sequence, c + rest, a);
    lemma_u32_be_roundtrip(m.total_size, rest, a + b);
    assert(s =~= a + b + (c + rest));
    assert(s =~= (a + b) + c + rest);
}

/// The session request on the wire: the zero byte and the opcode, then the
/// protocol version, the session id and the maximum packet size, each
/// big-endian. Reading such bytes gives each field from its own place, and
/// writing a request lays its fields out so.
pub proof fn connect_wire_layout(
    zero: u8,
    opcode: u8,
    protocol_version: u32,
    connect_code: u32,
    max_packet_size: u32,
    rest: Seq<u8>,
)
    ensures
        ({
            let m = (ReliableStreamConnect { zero, opcode, protocol_version, connect_code, max_packet_size });
            let wire = seq![zero, opcode] + u32_be_bytes(protocol_version) + u32_be_bytes(connect_code)
                + u32_be_bytes(max_packet_size);
            &&& ReliableStreamConnect::spec_read(wire + rest) == Some(m)
            &&& m.spec_bytes() == wire
        }),
{
    let m = (ReliableStreamConnect { zero, opcode, protocol_version, connect_code, max_packet_size });
    reliable_stream_connect_roundtrip(m, rest);
}

/// The session response on the wire: the zero byte and the opcode, then the
/// session id and the CRC key (both big-endian), the CRC size, the two
/// encoding passes, and the maximum packet size (big-endian). Reading such
/// bytes gives each field from its own place, and writing a response lays
/// its fields out so.
pub proof fn connect_reply_wire_layout(
    zero: u8,
    opcode: u8,
    connect_code: u32,
    encode_key: u32,
    crc_bytes: u8,
    encode_pass1: u8,
    encode_pass2: u8,
    max_packet_size: u32,
    rest: Seq<u8>,
)
    ensures
        ({
            let m = (ReliableStreamConnectReply {
                zero,
                opcode,
                connect_code,
                encode_key,
                crc_bytes,
                encode_pass1,
                encode_pass2,
                max_packet_size,
            });
            let wire = seq![zero, opcode] + u32_be_bytes(connect_code) + u32_be_bytes(encode_key)
                + seq![crc_bytes, encode_pass1, encode_pass2] + u32_be_bytes(max_packet_size);
            &&& ReliableStreamConnectReply::spec_read(wire + rest) == Some(m)
            &&& m.spec_bytes() == wire
        }),
{
    let m = (ReliableStreamConnectReply {
        zero,
        opcode,
        connect_code,
        encode_key,
        crc_bytes,
        encode_pass1,
        encode_pass2,
        max_packet_size,
    });
    reliable_stream_connect_reply_roundtrip(m, rest);
}

/// A sequenced header on the wire: the zero byte, the opcode and the
/// big-endian sequence number; a first fragment adds the big-endian total
/// size. Reading such bytes gives each field from its own place, and writing
/// a header lays its fields out so.
pub proof fn sequenced_headers_wire_layout(zero: u8, opcode: u8, sequence: u16, total_size: u32, rest: Seq<u8>)
    ensures
        ({
            let h = (ReliableStreamReliableHeader { zero, opcode, sequence });
            let wire = seq![zero, opcode] + u16_be_bytes(sequence);
            &&& ReliableStreamReliableHeader::spec_read(wire + rest) == Some(h)
            &&& h.spec_bytes() == wire
        }),
        ({
            let f = (ReliableFragmentHeader { zero, opcode, sequence, total_size });
            let wire = seq![zero, opcode] + u16_be_bytes(sequence) + u32_be_bytes(total_size);
            &&& ReliableFragmentHeader::spec_read(wire + rest) == Some(f)
            &&& f.spec_bytes() == wire
        }),
{
    reliable_header_roundtrip((ReliableStreamReliableHeader { zero, opcode, sequence }), rest);
    fragment_header_roundtrip((ReliableFragmentHeader { zero, opcode, sequence, total_size }), rest);
}

} // verus!
