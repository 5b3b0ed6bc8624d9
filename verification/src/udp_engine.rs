//! The reliable-UDP session: handshake, sequencing with an out-of-order
//! buffer, fragment reassembly, combined packets, the optional wrapping and
//! zlib compression of data packets, and the keyed CRC that seals each
//! datagram.
//!
//! The socket stays with the caller. Each operation here takes the datagram
//! that arrived and gives back the application payloads it delivers and the
//! datagrams (acknowledgements) that must be sent in reply, in order.
use vstd::prelude::*;
use std::collections::BTreeMap;
use std::io::Read;
use flate2::read::ZlibDecoder;
use crate::bytes::{
    be_u16, be_u32, u16_be_bytes, u32_be_bytes, u16_le_bytes, read_u16_be, read_u32_be,
    push_u16_be, push_u16_le, push_u32_be, push_slice, copy_range,
};
use crate::crc::{keyed_crc, crc32_with_key};
use crate::packets::{ReliableStreamConnect, ReliableStreamConnectReply, ReliableStreamReliableHeader};

verus! {

broadcast use {vstd::std_specs::btree::group_btree_axioms, vstd::laws_cmp::group_laws_cmp};

/// Lifecycle of a session.
#[derive(Debug, PartialEq, Eq, Structural, Clone, Copy)]
pub enum ConnectionStatus {
    Disconnected,
    Connecting,
    Connected,
    Disconnecting,
}

/// What the receive path knows of a session: the next expected sequence
/// number, the packets that arrived ahead of it (each stored as its opcode
/// followed by its payload), and the fragment reassembly in progress.
pub ghost struct RecvState {
    pub seq_in: u16,
    pub ooo: Map<u16, Seq<u8>>,
    pub frag: Seq<u8>,
    pub frag_total: usize,
}

/// The sequence number that follows `s`, wrapping after 65535.
pub open spec fn seq_next(s: u16) -> u16 {
    if s == 0xFFFF {
        0
    } else {
        (s + 1) as u16
    }
}

/// The sequence number that precedes `s`, wrapping below zero.
pub open spec fn seq_prev(s: u16) -> u16 {
    if s == 0 {
        0xFFFF
    } else {
        (s - 1) as u16
    }
}

/// How far `seq` lies ahead of `expected`, counted modulo 65536.
pub open spec fn seq_distance(seq: u16, expected: u16) -> int {
    if seq >= expected {
        seq - expected
    } else {
        seq - expected + 65536
    }
}

/// The session's receive path is sound: every buffered packet holds at least
/// its opcode byte.
pub open spec fn recv_wf(st: RecvState) -> bool {
    &&& st.ooo.dom().finite()
    &&& forall|k: u16| #[trigger] st.ooo.contains_key(k) ==> st.ooo[k].len() >= 1
}

/// Delivery of the payload of an in-order sequenced packet: an application
/// packet (0x09..=0x0C) is delivered as is; a fragment (0x0D) either starts a
/// reassembly (when none is in progress and it carries a nonzero big-endian
/// total size ahead of its data) or extends the one in progress, and the
/// reassembled packet is delivered once it holds at least the total size.
pub open spec fn payload_step(st: RecvState, opcode: u8, payload: Seq<u8>) -> (RecvState, Seq<Seq<u8>>) {
    if 0x09 <= opcode <= 0x0C {
        (st, seq![payload])
    } else if opcode == 0x0D {
        let buf = if st.frag.len() == 0 {
            if payload.len() >= 4 && be_u32(payload, 0) > 0 {
                payload.skip(4)
            } else {
                st.frag
            }
        } else {
            st.frag + payload
        };
        let total = if st.frag.len() == 0 && payload.len() >= 4 && be_u32(payload, 0) > 0 {
            be_u32(payload, 0) as usize
        } else {
            st.frag_total
        };
        if buf.len() > 0 && buf.len() >= total {
            (RecvState { seq_in: st.seq_in, ooo: st.ooo, frag: Seq::empty(), frag_total: 0 }, seq![buf])
        } else {
            (RecvState { seq_in: st.seq_in, ooo: st.ooo, frag: buf, frag_total: total }, Seq::empty())
        }
    } else {
        (st, Seq::empty())
    }
}

/// Delivers, in sequence order, every buffered packet that has become next in
/// line.
pub open spec fn drain(st: RecvState) -> (RecvState, Seq<Seq<u8>>)
    decreases st.ooo.dom().len(),
    when st.ooo.dom().finite()
{
    if st.ooo.contains_key(st.seq_in) {
        let b = st.ooo[st.seq_in];
        let st1 = RecvState {
            seq_in: seq_next(st.seq_in),
            ooo: st.ooo.remove(st.seq_in),
            frag: st.frag,
            frag_total: st.frag_total,
        };
        let (st2, out1) = payload_step(st1, b[0], b.skip(1));
        let (st3, out2) = drain(st2);
        (st3, out1 + out2)
    } else {
        (st, Seq::empty())
    }
}

/// Link parameters that the handshake fixed and that the data path reads.
pub ghost struct LinkParams {
    pub status: ConnectionStatus,
    pub crc_bytes: u8,
    pub encode_key: u32,
    pub encode_pass1: u8,
    pub encode_pass2: u8,
}

/// Whether the session is connecting or connected.
pub open spec fn is_live(p: LinkParams) -> bool {
    p.status == ConnectionStatus::Connecting || p.status == ConnectionStatus::Connected
}

/// Whether data packets are wrapped (and possibly compressed) on this link.
pub open spec fn is_encoded(p: LinkParams) -> bool {
    p.encode_pass1 == 1 || p.encode_pass2 == 1
}

/// The datagram that carries the session-layer packet `pkt`: data packets
/// (opcodes 0x03..=0x1C) of a live, encoded link get the 0xA5 "uncompressed"
/// tag after their two header bytes, and then a CRC of 2 bytes (the low half)
/// or 4 bytes, big-endian, is appended when the link uses one. Packets of
/// fewer than two bytes are not sent.
pub open spec fn raw_frame(p: LinkParams, pkt: Seq<u8>) -> Option<Seq<u8>> {
    if pkt.len() < 2 {
        None
    } else {
        let op = pkt[1];
        let body = if is_live(p) && 0x03 <= op <= 0x1C && is_encoded(p) {
            seq![pkt[0], pkt[1], 0xA5u8] + pkt.skip(2)
        } else {
            pkt
        };
        let crc = keyed_crc(body, p.encode_key);
        if p.crc_bytes == 2 {
            Some(body + u16_be_bytes((crc % 65536) as u16))
        } else if p.crc_bytes == 4 {
            Some(body + u32_be_bytes(crc))
        } else {
            Some(body)
        }
    }
}

/// The bytes of an acknowledgement of `seq` on stream `stream_id`.
pub open spec fn ack_packet(stream_id: u8, seq: u16) -> Seq<u8> {
    seq![0u8, (0x15 + stream_id) as u8] + u16_be_bytes(seq)
}

/// Handling of a sequenced packet: the expected one is delivered together
/// with every buffered packet that follows it, and the highest contiguous
/// sequence number is acknowledged; one up to 32767 ahead is buffered without
/// acknowledgement; any other is a duplicate and ignored.
pub open spec fn sequenced(
    p: LinkParams,
    st: RecvState,
    seq: u16,
    opcode: u8,
    payload: Seq<u8>,
    stream_id: u8,
) -> (RecvState, Seq<Seq<u8>>, Seq<Seq<u8>>) {
    let d = seq_distance(seq, st.seq_in);
    if d == 0 {
        let st1 = RecvState {
            seq_in: seq_next(st.seq_in),
            ooo: st.ooo,
            frag: st.frag,
            frag_total: st.frag_total,
        };
        let (st2, out1) = payload_step(st1, opcode, payload);
        let (st3, out2) = drain(st2);
        (st3, out1 + out2, seq![raw_frame(p, ack_packet(stream_id, seq_prev(st3.seq_in)))->0])
    } else if d < 32768 {
        (
            RecvState {
                seq_in: st.seq_in,
                ooo: st.ooo.insert(seq, seq![opcode] + payload),
                frag: st.frag,
                frag_total: st.frag_total,
            },
            Seq::empty(),
            Seq::empty(),
        )
    } else {
        (st, Seq::empty(), Seq::empty())
    }
}

/// Handling of one packet found inside a combined packet: sequenced packets
/// of streams 0..=3 and stream-0 fragments are sequenced, nested combined
/// packets are unpacked in turn, and anything else is ignored.
pub open spec fn subpacket(p: LinkParams, st: RecvState, buf: Seq<u8>) -> (
    RecvState,
    Seq<Seq<u8>>,
    Seq<Seq<u8>>,
)
    decreases buf.len(), 1int, 0int,
{
    if buf.len() < 2 {
        (st, Seq::empty(), Seq::empty())
    } else {
        let op = buf[1];
        if 0x09 <= op <= 0x0C {
            if buf.len() < 4 {
                (st, Seq::empty(), Seq::empty())
            } else {
                sequenced(p, st, be_u16(buf, 2), op, buf.skip(4), (op - 0x09) as u8)
            }
        } else if op == 0x0D {
            if buf.len() < 4 {
                (st, Seq::empty(), Seq::empty())
            } else {
                sequenced(p, st, be_u16(buf, 2), op, buf.skip(4), 0)
            }
        } else if op == 0x03 {
            combined(p, st, buf, 2)
        } else {
            (st, Seq::empty(), Seq::empty())
        }
    }
}

/// Handling of the packets packed into `buf` from `offset` on, each a length
/// byte followed by that many bytes; unpacking stops at the end of `buf` or at
/// the first packet whose length runs past it.
pub open spec fn combined(p: LinkParams, st: RecvState, buf: Seq<u8>, offset: int) -> (
    RecvState,
    Seq<Seq<u8>>,
    Seq<Seq<u8>>,
)
    decreases buf.len(), 0int, buf.len() - offset,
{
    if offset < 0 || offset >= buf.len() {
        (st, Seq::empty(), Seq::empty())
    } else {
        let sub_len = buf[offset] as int;
        let start = offset + 1;
        if start + sub_len > buf.len() {
            (st, Seq::empty(), Seq::empty())
        } else {
            let (st1, a1, o1) = subpacket(p, st, buf.subrange(start, start + sub_len));
            let (st2, a2, o2) = combined(p, st1, buf, start + sub_len);
            (st2, a1 + a2, o1 + o2)
        }
    }
}

/// Handling of a decoded session-layer packet by its opcode.
pub open spec fn dispatch(p: LinkParams, st: RecvState, opcode: u8, data: Seq<u8>) -> (
    RecvState,
    Seq<Seq<u8>>,
    Seq<Seq<u8>>,
) {
    if 0x09 <= opcode <= 0x0C {
        if data.len() < 4 {
            (st, Seq::empty(), Seq::empty())
        } else {
            sequenced(p, st, be_u16(data, 2), opcode, data.skip(4), (opcode - 0x09) as u8)
        }
    } else if 0x0D <= opcode <= 0x10 {
        if data.len() < 4 {
            (st, Seq::empty(), Seq::empty())
        } else {
            sequenced(p, st, be_u16(data, 2), opcode, data.skip(4), (opcode - 0x0D) as u8)
        }
    } else if opcode == 0x03 {
        combined(p, st, data, 2)
    } else {
        (st, Seq::empty(), Seq::empty())
    }
}

/// The result of inflating the zlib stream `data` with the flate2 crate:
/// `None` when the stream is malformed.
pub uninterp spec fn zlib_inflate(data: Seq<u8>) -> Option<Seq<u8>>;

/// The CRC carried at the end of `data` on a link with `crc_bytes` of CRC: the
/// last two bytes, big-endian, for 2; otherwise the last four, big-endian.
pub open spec fn received_crc(data: Seq<u8>, crc_bytes: u8) -> u32 {
    if crc_bytes == 2 {
        be_u16(data, data.len() - 2) as u32
    } else {
        be_u32(data, data.len() - 4)
    }
}

/// The CRC that `body` should carry on a link with `crc_bytes` of CRC.
pub open spec fn expected_crc(body: Seq<u8>, p: LinkParams) -> u32 {
    if p.crc_bytes == 2 {
        keyed_crc(body, p.encode_key) % 65536
    } else {
        keyed_crc(body, p.encode_key)
    }
}

/// Whether the CRC check of a datagram would read before its start: a link
/// whose CRC size is neither 0 nor 2 reads the last four bytes of a
/// CRC-checked datagram, which a datagram of fewer than four bytes lacks.
pub open spec fn incoming_faults(p: LinkParams, buf: Seq<u8>) -> bool {
    &&& buf.len() >= 2
    &&& is_live(p)
    &&& p.crc_bytes != 0 && p.crc_bytes != 2
    &&& buf.len() < 4
    &&& if buf[0] != 0 {
        buf.len() > p.crc_bytes
    } else {
        0x03 <= buf[1] <= 0x1C && buf.len() >= p.crc_bytes
    }
}

/// The application payload carried by a non-reliable datagram (first byte
/// nonzero) of a live link: the CRC, when the link uses one and the datagram
/// is longer than it, must match and is stripped; on an encoded link the
/// flag byte at offset 1 selects zlib decompression (0x5A) of the rest or
/// plain removal of the flag (0xA5). Nothing is delivered when the CRC does
/// not match, when decompression fails, or when fewer than two bytes remain.
pub open spec fn nonreliable_payload(p: LinkParams, buf: Seq<u8>) -> Option<Seq<u8>> {
    let checked = p.crc_bytes > 0 && buf.len() > p.crc_bytes;
    let body = if checked {
        buf.subrange(0, buf.len() - p.crc_bytes)
    } else {
        buf
    };
    if !is_live(p) {
        None
    } else if checked && received_crc(buf, p.crc_bytes) != expected_crc(body, p) {
        None
    } else if is_encoded(p) && body.len() > 1 && body[1] == 0x5A {
        match zlib_inflate(body.skip(2)) {
            Some(d) => {
                let data = seq![body[0]] + d;
                if data.len() >= 2 {
                    Some(data)
                } else {
                    None
                }
            },
            None => None,
        }
    } else {
        let data = if is_encoded(p) && body.len() > 1 && body[1] == 0xA5 {
            seq![body[0]] + body.skip(2)
        } else {
            body
        };
        if data.len() >= 2 {
            Some(data)
        } else {
            None
        }
    }
}

/// A session-layer datagram (first byte zero) with its CRC stripped and its
/// data unwrapped: data packets (opcodes 0x03..=0x1C) of a live link lose
/// their trailing CRC bytes (a mismatch is not acted on), and on an encoded
/// link the flag byte at offset 2 selects zlib decompression (0x5A) of the
/// rest, kept as is when it fails, or removal of the flag (0xA5).
pub open spec fn session_decoded(p: LinkParams, buf: Seq<u8>) -> Seq<u8> {
    let op = buf[1];
    if is_live(p) && 0x03 <= op <= 0x1C {
        let body = if buf.len() > p.crc_bytes {
            buf.subrange(0, buf.len() - p.crc_bytes)
        } else {
            buf
        };
        if is_encoded(p) && body.len() > 2 && body[2] == 0x5A {
            match zlib_inflate(body.skip(3)) {
                Some(d) => seq![body[0], body[1]] + d,
                None => body,
            }
        } else if is_encoded(p) && body.len() > 2 && body[2] == 0xA5 {
            seq![body[0], body[1]] + body.skip(3)
        } else {
            body
        }
    } else {
        buf
    }
}

/// Handling of one received datagram.
pub open spec fn incoming(p: LinkParams, st: RecvState, buf: Seq<u8>) -> (
    RecvState,
    Seq<Seq<u8>>,
    Seq<Seq<u8>>,
) {
    if buf.len() < 2 {
        (st, Seq::empty(), Seq::empty())
    } else if buf[0] != 0 {
        match nonreliable_payload(p, buf) {
            Some(d) => (st, seq![d], Seq::empty()),
            None => (st, Seq::empty(), Seq::empty()),
        }
    } else {
        dispatch(p, st, buf[1], session_decoded(p, buf))
    }
}

/// Inflates the zlib stream `data` with flate2's `ZlibDecoder`, reading it to
/// its end. Trusted: the contract claims only that the outcome is the named
/// result `zlib_inflate` of the input bytes, `None` when flate2 reports an
/// error.
#[verifier::external_body]
fn decompress_zlib(data: &[u8]) -> (r: Option<Vec<u8>>)
    ensures
        match r {
            Some(v) => zlib_inflate(data@) == Some(v@),
            None => zlib_inflate(data@) is None,
        },
{
    let mut decoder = ZlibDecoder::new(data);
    let mut out = Vec::new();
    match decoder.read_to_end(&mut out) {
        Ok(_) => Some(out),
        Err(_) => None,
    }
}

/// A random `u32` from `rand::random`. Trusted; nothing is claimed of the
/// value.
#[verifier::external_body]
fn random_u32() -> u32 {
    rand::random::<u32>()
}

/// The application payloads delivered by a datagram and the datagrams to
/// send in reply, both in order.
pub struct Delivery {
    pub app_payloads: Vec<Vec<u8>>,
    pub outgoing: Vec<Vec<u8>>,
}

/// The byte sequences held by a vector of buffers.
pub open spec fn bufs(v: Seq<Vec<u8>>) -> Seq<Seq<u8>> {
    v.map_values(|x: Vec<u8>| x@)
}

impl Delivery {
    pub open spec fn payloads(&self) -> Seq<Seq<u8>> {
        bufs(self.app_payloads@)
    }

    pub open spec fn sent(&self) -> Seq<Seq<u8>> {
        bufs(self.outgoing@)
    }

    /// Nothing delivered, nothing to send.
    pub fn new() -> (r: Delivery)
        ensures
            r.payloads() == Seq::<Seq<u8>>::empty(),
            r.sent() == Seq::<Seq<u8>>::empty(),
    {
        let r = Delivery { app_payloads: Vec::new(), outgoing: Vec::new() };
        assert(r.payloads() =~= Seq::<Seq<u8>>::empty());
        assert(r.sent() =~= Seq::<Seq<u8>>::empty());
        r
    }

    /// Appends everything of `other` after what is already here.
    pub fn extend(&mut self, other: Delivery)
        ensures
            final(self).payloads() == old(self).payloads() + other.payloads(),
            final(self).sent() == old(self).sent() + other.sent(),
    {
        let ghost p0 = self.app_payloads@;
        let ghost s0 = self.outgoing@;
        let mut o = other;
        self.app_payloads.append(&mut o.app_payloads);
        self.outgoing.append(&mut o.outgoing);
        assert(bufs(p0 + other.app_payloads@) =~= bufs(p0) + bufs(other.app_payloads@));
        assert(bufs(s0 + other.outgoing@) =~= bufs(s0) + bufs(other.outgoing@));
    }
}

/// State of one reliable-UDP session with a server.
pub struct ReliableConnection {
    pub status: ConnectionStatus,
    /// Next expected incoming sequence number.
    pub sequence_in: u16,
    /// Next outgoing sequence number.
    pub sequence_out: u16,
    /// Packets that arrived ahead of `sequence_in`, each as opcode then payload.
    pub out_of_order_buffer: BTreeMap<u16, Vec<u8>>,
    /// This client's session id.
    pub connect_code: u32,
    /// Key of the datagram CRC, given by the server.
    pub encode_key: u32,
    /// Size of the datagram CRC in bytes (2 or 4; 0 for none).
    pub crc_bytes: u8,
    /// Fragment data gathered so far.
    pub fragment_buffer: Vec<u8>,
    /// Size of the packet being reassembled.
    pub fragment_total_size: usize,
    pub encode_pass1: u8,
    pub encode_pass2: u8,
}

impl ReliableConnection {
    /// The receive-path state of the session.
    pub open spec fn recv(&self) -> RecvState {
        RecvState {
            seq_in: self.sequence_in,
            ooo: self.out_of_order_buffer@.map_values(|v: Vec<u8>| v@),
            frag: self.fragment_buffer@,
            frag_total: self.fragment_total_size,
        }
    }

    /// The link parameters of the session.
    pub open spec fn params(&self) -> LinkParams {
        LinkParams {
            status: self.status,
            crc_bytes: self.crc_bytes,
            encode_key: self.encode_key,
            encode_pass1: self.encode_pass1,
            encode_pass2: self.encode_pass2,
        }
    }

    /// Every buffered out-of-order packet holds at least its opcode byte.
    pub open spec fn wf(&self) -> bool {
        recv_wf(self.recv())
    }

    /// `self` and `other` agree on everything but the receive path.
    pub open spec fn same_link(&self, other: &ReliableConnection) -> bool {
        &&& self.params() == other.params()
        &&& self.connect_code == other.connect_code
        &&& self.sequence_out == other.sequence_out
    }

    /// A fresh, disconnected session identified by `connect_code`.
    pub fn with_connect_code(connect_code: u32) -> (r: ReliableConnection)
        ensures
            r.wf(),
            r.status == ConnectionStatus::Disconnected,
            r.sequence_in == 0,
            r.sequence_out == 0,
            r.out_of_order_buffer@ == Map::<u16, Vec<u8>>::empty(),
            r.connect_code == connect_code,
            r.encode_key == 0,
            r.crc_bytes == 0,
            r.fragment_buffer@ == Seq::<u8>::empty(),
            r.fragment_total_size == 0,
            r.encode_pass1 == 0,
            r.encode_pass2 == 0,
    {
        let r = ReliableConnection {
            status: ConnectionStatus::Disconnected,
            sequence_in: 0,
            sequence_out: 0,
            out_of_order_buffer: BTreeMap::new(),
            connect_code,
            encode_key: 0,
            crc_bytes: 0,
            fragment_buffer: Vec::new(),
            fragment_total_size: 0,
            encode_pass1: 0,
            encode_pass2: 0,
        };
        assert(r.recv().ooo =~= Map::<u16, Seq<u8>>::empty());
        r
    }

    /// A fresh, disconnected session with a random session id.
    pub fn new() -> (r: ReliableConnection)
        ensures
            r.wf(),
            r.status == ConnectionStatus::Disconnected,
            r.sequence_in == 0,
            r.sequence_out == 0,
            r.out_of_order_buffer@ == Map::<u16, Vec<u8>>::empty(),
            r.encode_key == 0,
            r.crc_bytes == 0,
            r.fragment_buffer@ == Seq::<u8>::empty(),
            r.fragment_total_size == 0,
            r.encode_pass1 == 0,
            r.encode_pass2 == 0,
    {
        let code = random_u32();
        Self::with_connect_code(code)
    }

    fn is_live_exec(&self) -> (r: bool)
        ensures
            r == is_live(self.params()),
    {
        self.status == ConnectionStatus::Connected || self.status == ConnectionStatus::Connecting
    }

    fn is_encoded_exec(&self) -> (r: bool)
        ensures
            r == is_encoded(self.params()),
    {
        self.encode_pass1 == 1 || self.encode_pass2 == 1
    }

    /// The datagram that carries the session-layer packet `reliable_packet`
    /// (see `raw_frame`); `None` for packets of fewer than two bytes, which
    /// are not sent.
    pub fn send_raw_reliable(&self, reliable_packet: &[u8]) -> (r: Option<Vec<u8>>)
        ensures
            match r {
                Some(v) => raw_frame(self.params(), reliable_packet@) == Some(v@),
                None => raw_frame(self.params(), reliable_packet@) is None,
            },
    {
        if reliable_packet.len() < 2 {
            return None;
        }
        let opcode = reliable_packet[1];
        let mut final_packet: Vec<u8>;
        if self.is_live_exec() && opcode >= 0x03 && opcode <= 0x1C && self.is_encoded_exec() {
            final_packet = Vec::new();
            final_packet.push(reliable_packet[0]);
            final_packet.push(reliable_packet[1]);
            final_packet.push(0xA5);
            push_slice(&mut final_packet, &reliable_packet[2..reliable_packet.len()]);
            assert(final_packet@ =~= seq![reliable_packet@[0], reliable_packet@[1], 0xA5u8]
                + reliable_packet@.skip(2));
        } else {
            final_packet = copy_range(reliable_packet, 0, reliable_packet.len());
            assert(final_packet@ =~= reliable_packet@);
        }
        if self.crc_bytes == 2 {
            let crc = crc32_with_key(final_packet.as_slice(), self.encode_key);
            push_u16_be(&mut final_packet, (crc % 65536) as u16);
        } else if self.crc_bytes == 4 {
            let crc = crc32_with_key(final_packet.as_slice(), self.encode_key);
            push_u32_be(&mut final_packet, crc);
        }
        Some(final_packet)
    }

    /// The datagram acknowledging `seq` on stream `stream_id` (opcode
    /// 0x15 + `stream_id`).
    pub fn send_ack(&self, stream_id: u8, seq: u16) -> (r: Vec<u8>)
        requires
            stream_id <= 0xEA,
        ensures
            raw_frame(self.params(), ack_packet(stream_id, seq)) == Some(r@),
    {
        let header = ReliableStreamReliableHeader { zero: 0, opcode: 0x15 + stream_id, sequence: seq };
        let packet_bytes = header.write();
        assert(packet_bytes@ =~= ack_packet(stream_id, seq));
        match self.send_raw_reliable(packet_bytes.as_slice()) {
            Some(v) => v,
            None => Vec::new(),
        }
    }
}

impl ReliableConnection {
    /// Delivers the payload of an in-order sequenced packet (see
    /// `payload_step`).
    fn process_payload(&mut self, opcode: u8, payload: &[u8]) -> (r: Vec<Vec<u8>>)
        requires
            old(self).wf(),
        ensures
            final(self).wf(),
            final(self).same_link(&*old(self)),
            final(self).out_of_order_buffer@ == old(self).out_of_order_buffer@,
            final(self).sequence_in == old(self).sequence_in,
            (final(self).recv(), bufs(r@)) == payload_step(old(self).recv(), opcode, payload@),
    {
        let mut app_payloads: Vec<Vec<u8>> = Vec::new();
        if opcode >= 0x09 && opcode <= 0x0C {
            app_payloads.push(copy_range(payload, 0, payload.len()));
            assert(payload@.subrange(0, payload@.len() as int) =~= payload@);
            assert(bufs(app_payloads@) =~= seq![payload@]);
        } else if opcode == 0x0D {
            if self.fragment_buffer.len() == 0 {
                if payload.len() >= 4 {
                    let possible_size = read_u32_be(payload, 0) as usize;
                    if possible_size > 0 {
                        self.fragment_total_size = possible_size;
                        push_slice(&mut self.fragment_buffer, &payload[4..payload.len()]);
                        assert(self.fragment_buffer@ =~= payload@.skip(4));
                    }
                }
            } else {
                push_slice(&mut self.fragment_buffer, payload);
            }
            if self.fragment_buffer.len() > 0 && self.fragment_buffer.len()
                >= self.fragment_total_size {
                let mut done: Vec<u8> = Vec::new();
                std::mem::swap(&mut done, &mut self.fragment_buffer);
                app_payloads.push(done);
                self.fragment_total_size = 0;
                assert(bufs(app_payloads@) =~= seq![done@]);
            } else {
                assert(bufs(app_payloads@) =~= Seq::<Seq<u8>>::empty());
            }
        } else {
            assert(bufs(app_payloads@) =~= Seq::<Seq<u8>>::empty());
        }
        app_payloads
    }

    /// Handles a sequenced packet (see `sequenced`): delivers it and the
    /// buffered packets that follow it when it is the expected one, buffers it
    /// when it is ahead, ignores it when it is behind.
    pub fn handle_sequenced_packet(&mut self, seq: u16, opcode: u8, payload: &[u8], stream_id: u8) -> (r: Delivery)
        requires
            old(self).wf(),
            seq == old(self).sequence_in ==> stream_id <= 0xEA,
        ensures
            final(self).wf(),
            final(self).same_link(&*old(self)),
            (final(self).recv(), r.payloads(), r.sent()) == sequenced(
                old(self).params(),
                old(self).recv(),
                seq,
                opcode,
                payload@,
                stream_id,
            ),
    {
        let diff = seq.wrapping_sub(self.sequence_in);
        let ghost st0 = self.recv();
        if diff == 0 {
            self.sequence_in = self.sequence_in.wrapping_add(1);
            let mut results = self.process_payload(opcode, payload);
            let ghost st2 = self.recv();
            let ghost out1 = bufs(results@);
            let ghost mut acc: Seq<Seq<u8>> = Seq::empty();
            while self.out_of_order_buffer.contains_key(&self.sequence_in)
                invariant
                    self.wf(),
                    self.same_link(&*old(self)),
                    recv_wf(st2),
                    drain(st2) == (drain(self.recv()).0, acc + drain(self.recv()).1),
                    bufs(results@) == out1 + acc,
                decreases self.out_of_order_buffer@.dom().len(),
            {
                let ghost cur = self.recv();
                let key = self.sequence_in;
                let removed = self.out_of_order_buffer.remove(&key);
                if let Some(buffered) = removed {
                    proof {
                        assert(self.recv().ooo =~= cur.ooo.remove(key));
                        assert(cur.ooo.contains_key(key));
                        assert(cur.ooo[key] == buffered@);
                    }
                    let op = buffered[0];
                    self.sequence_in = self.sequence_in.wrapping_add(1);
                    let ghost rv = results@;
                    let mut more = self.process_payload(op, &buffered.as_slice()[1..buffered.len()]);
                    proof {
                        assert(buffered@.subrange(1, buffered@.len() as int) =~= buffered@.skip(1));
                    }
                    let ghost mv = more@;
                    results.append(&mut more);
                    proof {
                        assert(bufs(rv + mv) =~= bufs(rv) + bufs(mv));
                        assert(out1 + acc + bufs(mv) =~= out1 + (acc + bufs(mv)));
                        let (sa, oa) = drain(self.recv());
                        assert(acc + (bufs(mv) + oa) =~= (acc + bufs(mv)) + oa);
                        acc = acc + bufs(mv);
                    }
                }
            }
            proof {
                assert(acc + Seq::<Seq<u8>>::empty() =~= acc);
            }
            let ack_seq = self.sequence_in.wrapping_sub(1);
            let ack = self.send_ack(stream_id, ack_seq);
            let mut outgoing: Vec<Vec<u8>> = Vec::new();
            outgoing.push(ack);
            let r = Delivery { app_payloads: results, outgoing };
            proof {
                assert(r.sent() =~= seq![ack@]);
            }
            r
        } else if diff < 32768 {
            let mut buf: Vec<u8> = Vec::new();
            buf.push(opcode);
            push_slice(&mut buf, payload);
            let ghost b = buf@;
            self.out_of_order_buffer.insert(seq, buf);
            proof {
                assert(b =~= seq![opcode] + payload@);
                assert(self.recv().ooo =~= st0.ooo.insert(seq, b));
            }
            Delivery::new()
        } else {
            Delivery::new()
        }
    }
}

/// The application payload of a compressed non-reliable datagram whose
/// first byte is `first` and whose compressed part inflated to `inflated`:
/// the first byte followed by the inflated bytes, when that makes at least
/// two bytes.
pub fn inflated_payload(first: u8, inflated: &[u8]) -> (r: Option<Vec<u8>>)
    ensures
        match r {
            Some(v) => v@ == seq![first] + inflated@ && v@.len() >= 2,
            None => inflated@.len() == 0,
        },
{
    let mut data: Vec<u8> = Vec::new();
    data.push(first);
    push_slice(&mut data, inflated);
    assert(data@ =~= seq![first] + inflated@);
    if data.len() >= 2 {
        Some(data)
    } else {
        None
    }
}

impl ReliableConnection {
    /// Handles one packet found inside a combined packet (see `subpacket`).
    pub fn process_subpacket(&mut self, buf: &[u8]) -> (r: Delivery)
        requires
            old(self).wf(),
        ensures
            final(self).wf(),
            final(self).same_link(&*old(self)),
            (final(self).recv(), r.payloads(), r.sent()) == subpacket(
                old(self).params(),
                old(self).recv(),
                buf@,
            ),
        decreases buf@.len(), 1int, 0int,
    {
        if buf.len() < 2 {
            return Delivery::new();
        }
        let opcode = buf[1];
        if opcode >= 0x09 && opcode <= 0x0C {
            if buf.len() < 4 {
                return Delivery::new();
            }
            let seq = read_u16_be(buf, 2);
            let payload = &buf[4..buf.len()];
            assert(payload@ =~= buf@.skip(4));
            self.handle_sequenced_packet(seq, opcode, payload, opcode - 0x09)
        } else if opcode == 0x0D {
            if buf.len() < 4 {
                return Delivery::new();
            }
            let seq = read_u16_be(buf, 2);
            let payload = &buf[4..buf.len()];
            assert(payload@ =~= buf@.skip(4));
            self.handle_sequenced_packet(seq, opcode, payload, 0)
        } else if opcode == 0x03 {
            self.process_combined(buf, 2)
        } else {
            Delivery::new()
        }
    }

    /// Handles the packets packed into `buf` from `start` on (see
    /// `combined`).
    pub fn process_combined(&mut self, buf: &[u8], start: usize) -> (r: Delivery)
        requires
            old(self).wf(),
        ensures
            final(self).wf(),
            final(self).same_link(&*old(self)),
            (final(self).recv(), r.payloads(), r.sent()) == combined(
                old(self).params(),
                old(self).recv(),
                buf@,
                start as int,
            ),
        decreases buf@.len(), 0int, buf@.len() - start,
    {
        let ghost p = self.params();
        let ghost st0 = self.recv();
        let mut d = Delivery::new();
        let mut offset = start;
        let mut going = true;
        while going && offset < buf.len()
            invariant
                self.wf(),
                self.same_link(&*old(self)),
                self.params() == p,
                start <= offset,
                going ==> combined(p, st0, buf@, start as int) == (
                    combined(p, self.recv(), buf@, offset as int).0,
                    d.payloads() + combined(p, self.recv(), buf@, offset as int).1,
                    d.sent() + combined(p, self.recv(), buf@, offset as int).2,
                ),
                !going ==> combined(p, st0, buf@, start as int) == (
                    self.recv(),
                    d.payloads(),
                    d.sent(),
                ),
            decreases buf@.len() - offset, (if going { 1int } else { 0int }),
        {
            let sub_len = buf[offset] as usize;
            if sub_len > buf.len() - offset - 1 {
                going = false;
                proof {
                    assert(d.payloads() + Seq::<Seq<u8>>::empty() =~= d.payloads());
                    assert(d.sent() + Seq::<Seq<u8>>::empty() =~= d.sent());
                }
            } else {
                let sub_start = offset + 1;
                let sub = &buf[sub_start..sub_start + sub_len];
                let ghost cur = self.recv();
                let ghost dp = d.payloads();
                let ghost ds = d.sent();
                let res = self.process_subpacket(sub);
                proof {
                    assert(sub@ =~= buf@.subrange(sub_start as int, sub_start + sub_len));
                }
                let ghost rp = res.payloads();
                let ghost rs = res.sent();
                d.extend(res);
                offset = sub_start + sub_len;
                proof {
                    let rest = combined(p, self.recv(), buf@, offset as int);
                    assert(dp + (rp + rest.1) =~= (dp + rp) + rest.1);
                    assert(ds + (rs + rest.2) =~= (ds + rs) + rest.2);
                }
            }
        }
        proof {
            if going {
                assert(d.payloads() + Seq::<Seq<u8>>::empty() =~= d.payloads());
                assert(d.sent() + Seq::<Seq<u8>>::empty() =~= d.sent());
            }
        }
        d
    }

    /// Handles a session-layer packet whose CRC was stripped and whose data
    /// was unwrapped, by its opcode (see `dispatch`).
    pub fn process_decoded(&mut self, opcode: u8, data: &[u8]) -> (r: Delivery)
        requires
            old(self).wf(),
        ensures
            final(self).wf(),
            final(self).same_link(&*old(self)),
            (final(self).recv(), r.payloads(), r.sent()) == dispatch(
                old(self).params(),
                old(self).recv(),
                opcode,
                data@,
            ),
    {
        if opcode >= 0x09 && opcode <= 0x0C {
            if data.len() < 4 {
                return Delivery::new();
            }
            let seq = read_u16_be(data, 2);
            let payload = &data[4..data.len()];
            assert(payload@ =~= data@.skip(4));
            self.handle_sequenced_packet(seq, opcode, payload, opcode - 0x09)
        } else if opcode >= 0x0D && opcode <= 0x10 {
            if data.len() < 4 {
                return Delivery::new();
            }
            let seq = read_u16_be(data, 2);
            let payload = &data[4..data.len()];
            assert(payload@ =~= data@.skip(4));
            self.handle_sequenced_packet(seq, opcode, payload, opcode - 0x0D)
        } else if opcode == 0x03 {
            self.process_combined(data, 2)
        } else {
            Delivery::new()
        }
    }

    /// The payload of a non-reliable datagram (see `nonreliable_payload`).
    fn decode_nonreliable(&self, buf: &[u8]) -> (r: Option<Vec<u8>>)
        requires
            buf@.len() >= 2,
            buf@[0] != 0,
            !incoming_faults(self.params(), buf@),
        ensures
            match r {
                Some(v) => nonreliable_payload(self.params(), buf@) == Some(v@),
                None => nonreliable_payload(self.params(), buf@) is None,
            },
    {
        if !self.is_live_exec() {
            return None;
        }
        let len = buf.len();
        let crc_len = self.crc_bytes as usize;
        let mut end = len;
        if self.crc_bytes > 0 && len > crc_len {
            end = len - crc_len;
            let rx_crc: u32 = if self.crc_bytes == 2 {
                read_u16_be(buf, len - 2) as u32
            } else {
                read_u32_be(buf, len - 4)
            };
            let calc_crc = crc32_with_key(&buf[0..end], self.encode_key);
            let calc_val = if self.crc_bytes == 2 {
                calc_crc % 65536
            } else {
                calc_crc
            };
            assert(buf@.subrange(0, end as int) =~= buf@.subrange(0, buf@.len() - self.crc_bytes));
            if rx_crc != calc_val {
                return None;
            }
        }
        let body = &buf[0..end];
        assert(body@ =~= (if self.crc_bytes > 0 && buf@.len() > self.crc_bytes {
            buf@.subrange(0, buf@.len() - self.crc_bytes)
        } else {
            buf@
        }));
        if self.is_encoded_exec() && body.len() > 1 && body[1] == 0x5A {
            let tail = &body[2..body.len()];
            assert(tail@ =~= body@.skip(2));
            match decompress_zlib(tail) {
                Some(decompressed) => inflated_payload(body[0], decompressed.as_slice()),
                None => None,
            }
        } else if self.is_encoded_exec() && body.len() > 1 && body[1] == 0xA5 {
            let mut data: Vec<u8> = Vec::new();
            data.push(body[0]);
            push_slice(&mut data, &body[2..body.len()]);
            assert(data@ =~= seq![body@[0]] + body@.skip(2));
            if data.len() >= 2 {
                Some(data)
            } else {
                None
            }
        } else {
            let data = copy_range(body, 0, body.len());
            assert(data@ =~= body@);
            if data.len() >= 2 {
                Some(data)
            } else {
                None
            }
        }
    }

    /// A session-layer datagram with its CRC stripped and its data unwrapped
    /// (see `session_decoded`).
    fn decode_session(&self, buf: &[u8]) -> (r: Vec<u8>)
        requires
            buf@.len() >= 2,
        ensures
            r@ == session_decoded(self.params(), buf@),
    {
        let opcode = buf[1];
        if self.is_live_exec() && opcode >= 0x03 && opcode <= 0x1C {
            let crc_len = self.crc_bytes as usize;
            let end = if buf.len() > crc_len {
                buf.len() - crc_len
            } else {
                buf.len()
            };
            let body = &buf[0..end];
            assert(body@ =~= (if buf@.len() > self.crc_bytes {
                buf@.subrange(0, buf@.len() - self.crc_bytes)
            } else {
                buf@
            }));
            if self.is_encoded_exec() && body.len() > 2 && body[2] == 0x5A {
                let tail = &body[3..body.len()];
                assert(tail@ =~= body@.skip(3));
                match decompress_zlib(tail) {
                    Some(decompressed) => {
                        let mut data: Vec<u8> = Vec::new();
                        data.push(body[0]);
                        data.push(body[1]);
                        push_slice(&mut data, decompressed.as_slice());
                        assert(data@ =~= seq![body@[0], body@[1]] + decompressed@);
                        data
                    },
                    None => copy_range(body, 0, body.len()),
                }
            } else if self.is_encoded_exec() && body.len() > 2 && body[2] == 0xA5 {
                let mut data: Vec<u8> = Vec::new();
                data.push(body[0]);
                data.push(body[1]);
                push_slice(&mut data, &body[3..body.len()]);
                assert(data@ =~= seq![body@[0], body@[1]] + body@.skip(3));
                data
            } else {
                let data = copy_range(body, 0, body.len());
                assert(data@ =~= body@);
                data
            }
        } else {
            let data = copy_range(buf, 0, buf.len());
            assert(data@ =~= buf@);
            data
        }
    }

    /// Whether the CRC check of the datagram `buf` would read before its
    /// start (see `incoming_faults`); `process_incoming_packet` is not to be
    /// handed such a datagram.
    pub fn reads_before_start(&self, buf: &[u8]) -> (r: bool)
        ensures
            r == incoming_faults(self.params(), buf@),
    {
        if buf.len() < 2 || !self.is_live_exec() || self.crc_bytes == 0 || self.crc_bytes == 2
            || buf.len() >= 4 {
            return false;
        }
        let cb = self.crc_bytes as usize;
        if buf[0] != 0 {
            buf.len() > cb
        } else {
            buf[1] >= 0x03 && buf[1] <= 0x1C && buf.len() >= cb
        }
    }

    /// Handles one received datagram (see `incoming`): returns the
    /// application payloads it delivers and the acknowledgements to send.
    pub fn process_incoming_packet(&mut self, buf: &[u8]) -> (r: Delivery)
        requires
            old(self).wf(),
            !incoming_faults(old(self).params(), buf@),
        ensures
            final(self).wf(),
            final(self).same_link(&*old(self)),
            (final(self).recv(), r.payloads(), r.sent()) == incoming(
                old(self).params(),
                old(self).recv(),
                buf@,
            ),
    {
        if buf.len() < 2 {
            return Delivery::new();
        }
        if buf[0] != 0 {
            let mut d = Delivery::new();
            match self.decode_nonreliable(buf) {
                Some(data) => {
                    let ghost dv = data@;
                    d.app_payloads.push(data);
                    assert(d.payloads() =~= seq![dv]);
                },
                None => {},
            }
            return d;
        }
        let opcode = buf[1];
        let data = self.decode_session(buf);
        self.process_decoded(opcode, data.as_slice())
    }
}

/// Where the handshake stands after a datagram was examined.
#[derive(Debug, PartialEq, Eq, Structural, Clone, Copy)]
pub enum HandshakeStep {
    /// Not the awaited session response; keep waiting.
    Waiting,
    /// The session response matched this session; the session is connected.
    Complete,
    /// A session response too short to decode; the handshake fails.
    Malformed,
}

/// The sequence number a zone server starts at, which it sends in the CRC
/// size and first encoding pass fields of its session response; login
/// servers (CRC size 2) start at 0.
pub open spec fn starting_sequence(crc_bytes: u8, pass1: u8) -> u16 {
    if crc_bytes != 2 {
        (crc_bytes * 256 + pass1) as u16
    } else {
        0
    }
}

/// The session-layer packet of an application packet: the sequenced header
/// (opcode 0x09, big-endian `seq`), the little-endian application opcode, the
/// payload.
pub open spec fn app_packet(seq: u16, app_opcode: u16, payload: Seq<u8>) -> Seq<u8> {
    seq![0u8, 0x09u8] + u16_be_bytes(seq) + u16_le_bytes(app_opcode) + payload
}

/// What the handshake makes of a datagram received while it waits for the
/// session response of the session `connect_code`: datagrams from another
/// address, shorter than two bytes, or with an opcode other than 0x02 are
/// passed over; a session response too short to decode fails the
/// handshake; one for another session is passed over; one for this session
/// completes it.
pub open spec fn handshake_step(connect_code: u32, datagram: Seq<u8>, from_remote: bool) -> HandshakeStep {
    let reply = ReliableStreamConnectReply::spec_read(datagram);
    if !from_remote || datagram.len() < 2 || datagram[1] != 0x02 {
        HandshakeStep::Waiting
    } else if reply is None {
        HandshakeStep::Malformed
    } else if reply->0.connect_code != connect_code {
        HandshakeStep::Waiting
    } else {
        HandshakeStep::Complete
    }
}

impl ReliableConnection {
    /// The session request that opens the handshake: protocol version 3, this
    /// session's id, a maximum packet size of 512.
    pub fn handshake_request(&self) -> (r: Vec<u8>)
        ensures
            r@ == (ReliableStreamConnect {
                zero: 0,
                opcode: 0x01,
                protocol_version: 3,
                connect_code: self.connect_code,
                max_packet_size: 512,
            }).spec_bytes(),
    {
        let request = ReliableStreamConnect {
            zero: 0,
            opcode: 0x01,
            protocol_version: 3,
            connect_code: self.connect_code,
            max_packet_size: 512,
        };
        request.write()
    }

    /// Records that the session request was sent.
    pub fn handshake_sent(&mut self)
        ensures
            final(self).status == ConnectionStatus::Connecting,
            final(self).recv() == old(self).recv(),
            final(self).connect_code == old(self).connect_code,
            final(self).sequence_out == old(self).sequence_out,
            final(self).crc_bytes == old(self).crc_bytes,
            final(self).encode_key == old(self).encode_key,
            final(self).encode_pass1 == old(self).encode_pass1,
            final(self).encode_pass2 == old(self).encode_pass2,
    {
        self.status = ConnectionStatus::Connecting;
    }

    /// Examines a datagram received while waiting for the session response.
    /// Datagrams from another address (`from_remote` false), shorter than two
    /// bytes, or with an opcode other than 0x02 are passed over. A session
    /// response shorter than its 17 bytes fails the handshake. One whose
    /// session id is not this session's is passed over; one whose id matches
    /// takes the CRC key, CRC size and encoding passes, sets the expected
    /// incoming sequence (see `starting_sequence`) and connects the session.
    pub fn handshake(&mut self, datagram: &[u8], from_remote: bool) -> (r: HandshakeStep)
        ensures
            r == handshake_step(old(self).connect_code, datagram@, from_remote),
            ({
                let reply = ReliableStreamConnectReply::spec_read(datagram@);
                if r != HandshakeStep::Complete {
                    *final(self) == *old(self)
                } else {
                    let m = reply->0;
                    &&& r == HandshakeStep::Complete
                    &&& final(self).status == ConnectionStatus::Connected
                    &&& final(self).encode_key == m.encode_key
                    &&& final(self).crc_bytes == m.crc_bytes
                    &&& final(self).encode_pass1 == m.encode_pass1
                    &&& final(self).encode_pass2 == m.encode_pass2
                    &&& final(self).sequence_in == starting_sequence(m.crc_bytes, m.encode_pass1)
                    &&& final(self).sequence_out == old(self).sequence_out
                    &&& final(self).connect_code == old(self).connect_code
                    &&& final(self).out_of_order_buffer == old(self).out_of_order_buffer
                    &&& final(self).fragment_buffer == old(self).fragment_buffer
                    &&& final(self).fragment_total_size == old(self).fragment_total_size
                }
            }),
    {
        if !from_remote || datagram.len() < 2 {
            return HandshakeStep::Waiting;
        }
        if datagram[1] != 0x02 {
            return HandshakeStep::Waiting;
        }
        match ReliableStreamConnectReply::read(datagram) {
            None => HandshakeStep::Malformed,
            Some(response) => {
                if response.connect_code == self.connect_code {
                    self.encode_key = response.encode_key;
                    self.crc_bytes = response.crc_bytes;
                    self.encode_pass1 = response.encode_pass1;
                    self.encode_pass2 = response.encode_pass2;
                    if response.crc_bytes != 2 {
                        self.sequence_in = (response.crc_bytes as u16) * 256
                            + (response.encode_pass1 as u16);
                    } else {
                        self.sequence_in = 0;
                    }
                    self.status = ConnectionStatus::Connected;
                    HandshakeStep::Complete
                } else {
                    HandshakeStep::Waiting
                }
            },
        }
    }

    /// The datagram carrying the application packet `app_opcode` with
    /// `payload` as the next outgoing sequenced packet; the outgoing sequence
    /// number advances by one.
    pub fn send_app_packet(&mut self, app_opcode: u16, payload: &[u8]) -> (r: Vec<u8>)
        requires
            old(self).sequence_out < 0xFFFF,
        ensures
            final(self).sequence_out == old(self).sequence_out + 1,
            final(self).recv() == old(self).recv(),
            final(self).params() == old(self).params(),
            final(self).connect_code == old(self).connect_code,
            raw_frame(old(self).params(), app_packet(old(self).sequence_out, app_opcode, payload@))
                == Some(r@),
    {
        let seq = self.sequence_out;
        self.sequence_out = self.sequence_out + 1;
        let header = ReliableStreamReliableHeader { zero: 0, opcode: 0x09, sequence: seq };
        let mut reliable_packet = header.write();
        push_u16_le(&mut reliable_packet, app_opcode);
        push_slice(&mut reliable_packet, payload);
        assert(reliable_packet@ =~= app_packet(seq, app_opcode, payload@));
        match self.send_raw_reliable(reliable_packet.as_slice()) {
            Some(v) => v,
            None => Vec::new(),
        }
    }
}

/// A packet that arrives one ahead of the expected sequence number is held
/// back without acknowledgement; when the expected packet then arrives, both
/// are delivered in sequence order and the later one is acknowledged.
pub proof fn out_of_order_packets_delivered_in_order(
    p: LinkParams,
    st: RecvState,
    first: Seq<u8>,
    second: Seq<u8>,
)
    requires
        recv_wf(st),
        !st.ooo.contains_key(seq_next(seq_next(st.seq_in))),
    ensures
        ({
            let n = st.seq_in;
            let (st1, out1, sent1) = sequenced(p, st, seq_next(n), 0x09, second, 0);
            let (st2, out2, sent2) = sequenced(p, st1, n, 0x09, first, 0);
            &&& out1 == Seq::<Seq<u8>>::empty()
            &&& sent1 == Seq::<Seq<u8>>::empty()
            &&& out2 == seq![first, second]
            &&& sent2 == seq![raw_frame(p, ack_packet(0, seq_next(n)))->0]
            &&& st2.seq_in == seq_next(seq_next(n))
            &&& st2.ooo == st.ooo.remove(seq_next(n))
        }),
{
    let n = st.seq_in;
    let m = seq_next(n);
    assert(seq_distance(m, n) == 1);
    let (st1, out1, sent1) = sequenced(p, st, m, 0x09, second, 0);
    assert(st1.ooo == st.ooo.insert(m, seq![0x09u8] + second));
    assert(seq_distance(n, st1.seq_in) == 0);
    let sa = RecvState { seq_in: m, ooo: st1.ooo, frag: st1.frag, frag_total: st1.frag_total };
    let (sb, o1) = payload_step(sa, 0x09, first);
    assert(sb == sa);
    assert(sb.ooo.contains_key(sb.seq_in));
    let b = sb.ooo[sb.seq_in];
    assert(b == seq![0x09u8] + second);
    assert(b[0] == 0x09);
    assert(b.skip(1) =~= second);
    let sc = RecvState {
        seq_in: seq_next(m),
        ooo: sb.ooo.remove(m),
        frag: sb.frag,
        frag_total: sb.frag_total,
    };
    assert(sc.ooo =~= st.ooo.remove(m));
    assert(!sc.ooo.contains_key(sc.seq_in));
    let (sd, o2) = payload_step(sc, b[0], b.skip(1));
    assert(sd == sc);
    assert(drain(sd) == (sd, Seq::<Seq<u8>>::empty()));
    assert(drain(sb) == (sd, o2 + Seq::<Seq<u8>>::empty()));
    let (st2, out2, sent2) = sequenced(p, st1, n, 0x09, first, 0);
    assert(out2 =~= seq![first, second]);
}

/// A packet behind the expected sequence number (a duplicate) changes nothing
/// and is neither delivered nor acknowledged.
pub proof fn duplicate_packets_are_ignored(
    p: LinkParams,
    st: RecvState,
    seq: u16,
    opcode: u8,
    payload: Seq<u8>,
    stream_id: u8,
)
    requires
        seq_distance(seq, st.seq_in) >= 32768,
    ensures
        sequenced(p, st, seq, opcode, payload, stream_id) == (
            st,
            Seq::<Seq<u8>>::empty(),
            Seq::<Seq<u8>>::empty(),
        ),
{
}

/// A packet ahead of the expected sequence number is stored, neither
/// delivered nor acknowledged, and the expected number does not move.
pub proof fn future_packets_are_buffered(
    p: LinkParams,
    st: RecvState,
    seq: u16,
    opcode: u8,
    payload: Seq<u8>,
    stream_id: u8,
)
    requires
        0 < seq_distance(seq, st.seq_in) < 32768,
    ensures
        ({
            let (st1, out, sent) = sequenced(p, st, seq, opcode, payload, stream_id);
            &&& st1.seq_in == st.seq_in
            &&& st1.ooo == st.ooo.insert(seq, seq![opcode] + payload)
            &&& out == Seq::<Seq<u8>>::empty()
            &&& sent == Seq::<Seq<u8>>::empty()
        }),
{
}

/// With no reassembly in progress, a first fragment announcing a total size
/// `total` and carrying fewer bytes than that, followed by a fragment that
/// completes it, delivers the joined data once and leaves no reassembly in
/// progress.
pub proof fn fragments_reassemble(st: RecvState, total: u32, part1: Seq<u8>, part2: Seq<u8>)
    requires
        st.frag.len() == 0,
        total > 0,
        0 < part1.len() < total,
        part1.len() + part2.len() >= total,
    ensures
        ({
            let (st1, out1) = payload_step(st, 0x0D, u32_be_bytes(total) + part1);
            let (st2, out2) = payload_step(st1, 0x0D, part2);
            &&& out1 == Seq::<Seq<u8>>::empty()
            &&& out2 == seq![part1 + part2]
            &&& st2.frag.len() == 0
            &&& st2.frag_total == 0
        }),
{
    let first = u32_be_bytes(total) + part1;
    crate::bytes::lemma_u32_be_roundtrip(total, part1, Seq::empty());
    assert(Seq::<u8>::empty() + u32_be_bytes(total) + part1 =~= first);
    assert(be_u32(first, 0) == total);
    assert(first.skip(4) =~= part1);
}

/// Every datagram sealed with a CRC carries the CRC that the receive path
/// expects of the bytes in front of it.
pub proof fn sealed_datagrams_carry_valid_crc(p: LinkParams, pkt: Seq<u8>)
    requires
        pkt.len() >= 2,
        p.crc_bytes == 2 || p.crc_bytes == 4,
    ensures
        ({
            let f = raw_frame(p, pkt)->0;
            &&& f.len() > p.crc_bytes
            &&& received_crc(f, p.crc_bytes) == expected_crc(f.subrange(0, f.len() - p.crc_bytes), p)
        }),
{
    let op = pkt[1];
    let body = if is_live(p) && 0x03 <= op <= 0x1C && is_encoded(p) {
        seq![pkt[0], pkt[1], 0xA5u8] + pkt.skip(2)
    } else {
        pkt
    };
    let crc = keyed_crc(body, p.encode_key);
    let f = raw_frame(p, pkt)->0;
    if p.crc_bytes == 2 {
        let v = (crc % 65536) as u16;
        crate::bytes::lemma_u16_be_roundtrip(v, Seq::empty(), body);
        assert(body + u16_be_bytes(v) + Seq::<u8>::empty() =~= f);
        assert(f.subrange(0, f.len() - 2) =~= body);
    } else {
        crate::bytes::lemma_u32_be_roundtrip(crc, Seq::empty(), body);
        assert(body + u32_be_bytes(crc) + Seq::<u8>::empty() =~= f);
        assert(f.subrange(0, f.len() - 4) =~= body);
    }
}

/// On a live link whose CRC is 0, 2 or 4 bytes, the receive path's decoding
/// of a data packet (opcodes 0x03..=0x1C) that this side framed gives back
/// the packet: the CRC is stripped and the 0xA5 wrapping removed.
pub proof fn decoding_inverts_framing(p: LinkParams, pkt: Seq<u8>)
    requires
        is_live(p),
        p.crc_bytes == 0 || p.crc_bytes == 2 || p.crc_bytes == 4,
        pkt.len() >= 2,
        0x03 <= pkt[1] <= 0x1C,
    ensures
        session_decoded(p, raw_frame(p, pkt)->0) == pkt,
{
    let body = if is_encoded(p) {
        seq![pkt[0], pkt[1], 0xA5u8] + pkt.skip(2)
    } else {
        pkt
    };
    let crc = keyed_crc(body, p.encode_key);
    let f = raw_frame(p, pkt)->0;
    if p.crc_bytes == 2 {
        crate::bytes::lemma_u16_be_len((crc % 65536) as u16);
        assert(f.subrange(0, f.len() - 2) =~= body);
    } else if p.crc_bytes == 4 {
        crate::bytes::lemma_u32_be_len(crc);
        assert(f.subrange(0, f.len() - 4) =~= body);
    } else {
        assert(f.subrange(0, f.len() - 0) =~= body);
    }
    assert(f[1] == pkt[1]);
    if is_encoded(p) {
        assert(seq![body[0], body[1]] + body.skip(3) =~= pkt);
    }
}

/// An application packet framed by this side as the next sequenced packet
/// is delivered, whole, by the receive path of a peer on the same link that
/// expects its sequence number, and acknowledged.
pub proof fn app_packets_delivered_end_to_end(
    p: LinkParams,
    st: RecvState,
    app_opcode: u16,
    payload: Seq<u8>,
)
    requires
        is_live(p),
        p.crc_bytes == 0 || p.crc_bytes == 2 || p.crc_bytes == 4,
        recv_wf(st),
        !st.ooo.contains_key(seq_next(st.seq_in)),
    ensures
        ({
            let d = raw_frame(p, app_packet(st.seq_in, app_opcode, payload))->0;
            let (st1, out, sent) = incoming(p, st, d);
            &&& out == seq![u16_le_bytes(app_opcode) + payload]
            &&& st1.seq_in == seq_next(st.seq_in)
            &&& sent == seq![raw_frame(p, ack_packet(0, st.seq_in))->0]
        }),
{
    let n = st.seq_in;
    let pkt = app_packet(n, app_opcode, payload);
    let hdr = seq![0u8, 0x09u8];
    crate::bytes::lemma_u16_be_roundtrip(n, u16_le_bytes(app_opcode) + payload, hdr);
    crate::bytes::lemma_u16_le_len(app_opcode);
    assert(pkt =~= hdr + u16_be_bytes(n) + (u16_le_bytes(app_opcode) + payload));
    assert(pkt[0] == 0 && pkt[1] == 0x09);
    decoding_inverts_framing(p, pkt);
    let d = raw_frame(p, pkt)->0;
    assert(d[0] == 0 && d[1] == 0x09);
    assert(pkt.skip(4) =~= u16_le_bytes(app_opcode) + payload);
    assert(seq_distance(n, n) == 0);
    let st1 = RecvState { seq_in: seq_next(n), ooo: st.ooo, frag: st.frag, frag_total: st.frag_total };
    assert(!st1.ooo.contains_key(st1.seq_in));
    assert(drain(st1) == (st1, Seq::<Seq<u8>>::empty()));
    let (stf, out, sent) = incoming(p, st, d);
    assert(out =~= seq![u16_le_bytes(app_opcode) + payload]);
    assert(seq_prev(seq_next(n)) == n);
}

} // verus!
