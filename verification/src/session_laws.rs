//! Laws on how single datagrams are framed, decoded and unpacked, stated
//! over the bytes on the wire.
use vstd::prelude::*;
use crate::bytes::{be_u16, u16_be_bytes, lemma_u16_be_roundtrip};
use crate::bytes::{u32_be_bytes, be_u32};
use crate::opcodes::ReliableOp;
use crate::packets::ReliableStreamConnectReply;
use crate::packets::session::connect_reply_wire_layout;
use crate::udp_engine::{received_crc, expected_crc,
    LinkParams, RecvState, is_live, is_encoded, raw_frame, ack_packet, session_decoded, sequenced,
    subpacket, combined, dispatch, starting_sequence, app_packet, incoming, handshake_step,
    HandshakeStep, payload_step,
};
use crate::crc::keyed_crc;

verus! {

/// On a live, encoded link every session packet whose opcode lies in
/// 0x03..=0x1C, acknowledgements included, goes out with the 0xA5 tag after
/// its two header bytes and then the rest of the packet; any CRC follows
/// that. Every other packet goes out as it is, CRC apart.
pub proof fn data_packets_are_tagged_on_encoded_links(p: LinkParams, pkt: Seq<u8>)
    requires
        pkt.len() >= 2,
    ensures
        is_live(p) && is_encoded(p) && 0x03 <= pkt[1] <= 0x1C ==> raw_frame(p, pkt)->0.subrange(
            0,
            pkt.len() + 1int,
        ) == seq![pkt[0], pkt[1], 0xA5u8] + pkt.skip(2),
        !(is_live(p) && is_encoded(p) && 0x03 <= pkt[1] <= 0x1C) ==> raw_frame(p, pkt)->0.subrange(
            0,
            pkt.len() as int,
        ) == pkt,
        p.crc_bytes != 2 && p.crc_bytes != 4 && is_live(p) && is_encoded(p) && 0x03 <= pkt[1]
            <= 0x1C ==> raw_frame(p, pkt) == Some(seq![pkt[0], pkt[1], 0xA5u8] + pkt.skip(2)),
{
    let f = raw_frame(p, pkt)->0;
    if is_live(p) && is_encoded(p) && 0x03 <= pkt[1] <= 0x1C {
        let body = seq![pkt[0], pkt[1], 0xA5u8] + pkt.skip(2);
        assert(f.subrange(0, pkt.len() + 1int) =~= body);
    } else {
        assert(f.subrange(0, pkt.len() as int) =~= pkt);
    }
}

/// An acknowledgement on stream `stream_id` (0..=7, opcodes 0x15..=0x1C) of a
/// live, encoded link starts with the zero byte, its opcode and the 0xA5
/// tag, followed by the acknowledged sequence number, big-endian.
pub proof fn acknowledgements_are_tagged_on_encoded_links(p: LinkParams, stream_id: u8, seq: u16)
    requires
        is_live(p),
        is_encoded(p),
        stream_id <= 7,
    ensures
        raw_frame(p, ack_packet(stream_id, seq))->0.subrange(0, 5) == seq![0u8, (0x15 + stream_id) as u8, 0xA5u8]
            + u16_be_bytes(seq),
{
    let a = ack_packet(stream_id, seq);
    lemma_u16_be_roundtrip(seq, Seq::empty(), seq![0u8, (0x15 + stream_id) as u8]);
    assert(a[1] == (0x15 + stream_id) as u8);
    assert(a[0] == 0u8);
    data_packets_are_tagged_on_encoded_links(p, a);
    assert(a.skip(2) =~= u16_be_bytes(seq));
}

/// On a live, encoded link a received data packet (opcode 0x03..=0x1C)
/// carrying the 0xA5 tag after its two header bytes, followed by as many
/// trailing bytes as the link's CRC has, decodes to its header and the bytes
/// after the tag, the trailer dropped.
pub proof fn tagged_packets_are_unwrapped(p: LinkParams, z: u8, op: u8, rest: Seq<u8>, trailer: Seq<u8>)
    requires
        is_live(p),
        is_encoded(p),
        0x03 <= op <= 0x1C,
        trailer.len() == p.crc_bytes,
    ensures
        session_decoded(p, seq![z, op, 0xA5u8] + rest + trailer) == seq![z, op] + rest,
{
    let buf = seq![z, op, 0xA5u8] + rest + trailer;
    let body = buf.subrange(0, buf.len() - p.crc_bytes);
    assert(body =~= seq![z, op, 0xA5u8] + rest);
    assert(seq![body[0], body[1]] + body.skip(3) =~= seq![z, op] + rest);
}

/// A sequenced packet found inside a combined packet is handled as the same
/// packet arriving alone: application packets of streams 0..=3 (opcodes
/// 0x09..=0x0C) on their own stream, fragments (0x0D) on stream 0.
pub proof fn subpackets_are_sequenced(p: LinkParams, st: RecvState, z: u8, op: u8, seq: u16, payload: Seq<u8>)
    requires
        0x09 <= op <= 0x0D,
    ensures
        subpacket(p, st, seq![z, op] + u16_be_bytes(seq) + payload) == sequenced(
            p,
            st,
            seq,
            op,
            payload,
            if op == 0x0D {
                0u8
            } else {
                (op - 0x09) as u8
            },
        ),
{
    let buf = seq![z, op] + u16_be_bytes(seq) + payload;
    lemma_u16_be_roundtrip(seq, payload, seq![z, op]);
    assert(be_u16(buf, 2) == seq);
    assert(buf[1] == op);
    assert(buf.skip(4) =~= payload);
}

/// The packets of a combined packet, each behind its length byte, are
/// handled one after the other, each as it would be alone, and their
/// deliveries and replies are joined in that order.
pub proof fn combined_packets_are_handled_in_turn(
    p: LinkParams,
    st: RecvState,
    z: u8,
    first: Seq<u8>,
    second: Seq<u8>,
)
    requires
        first.len() <= 255,
        second.len() <= 255,
    ensures
        ({
            let buf = seq![z, 0x03u8, first.len() as u8] + first + seq![second.len() as u8] + second;
            let (st1, a1, o1) = subpacket(p, st, first);
            let (st2, a2, o2) = subpacket(p, st1, second);
            combined(p, st, buf, 2) == (st2, a1 + a2, o1 + o2)
        }),
{
    let buf = seq![z, 0x03u8, first.len() as u8] + first + seq![second.len() as u8] + second;
    let n1 = first.len() as int;
    let n2 = second.len() as int;
    assert(buf[2] == first.len() as u8);
    assert(buf.subrange(3, 3 + n1) =~= first);
    assert(buf[3 + n1] == second.len() as u8);
    assert(buf.subrange(4 + n1, 4 + n1 + n2) =~= second);
    let (st1, a1, o1) = subpacket(p, st, first);
    let (st2, a2, o2) = subpacket(p, st1, second);
    assert(combined(p, st2, buf, 4 + n1 + n2) == (st2, Seq::<Seq<u8>>::empty(), Seq::<Seq<u8>>::empty()));
    assert(combined(p, st1, buf, 3 + n1) == (st2, a2 + Seq::<Seq<u8>>::empty(), o2 + Seq::<Seq<u8>>::empty()));
    assert(a2 + Seq::<Seq<u8>>::empty() =~= a2);
    assert(o2 + Seq::<Seq<u8>>::empty() =~= o2);
}

/// The expected incoming sequence that a session response sets, read off the
/// response as it stands on the wire: a login server's (CRC size 2) starts
/// at 0; a zone server carries its starting sequence big-endian in the
/// CRC-size and first-pass bytes, offsets 10 and 11.
pub proof fn starting_sequence_from_response_bytes(
    connect_code: u32,
    encode_key: u32,
    crc_bytes: u8,
    encode_pass1: u8,
    encode_pass2: u8,
    max_packet_size: u32,
    rest: Seq<u8>,
)
    ensures
        ({
            let wire = seq![0u8, 0x02u8] + u32_be_bytes(connect_code) + u32_be_bytes(encode_key)
                + seq![crc_bytes, encode_pass1, encode_pass2] + u32_be_bytes(max_packet_size) + rest;
            &&& ReliableStreamConnectReply::spec_read(wire) matches Some(m)
            &&& starting_sequence(m.crc_bytes, m.encode_pass1) == if wire[10] == 2 {
                0u16
            } else {
                be_u16(wire, 10)
            }
        }),
{
    connect_reply_wire_layout(0, 0x02, connect_code, encode_key, crc_bytes, encode_pass1, encode_pass2, max_packet_size, rest);
    crate::bytes::lemma_u32_be_len(connect_code);
    crate::bytes::lemma_u32_be_len(encode_key);
    let wire = seq![0u8, 0x02u8] + u32_be_bytes(connect_code) + u32_be_bytes(encode_key)
        + seq![crc_bytes, encode_pass1, encode_pass2] + u32_be_bytes(max_packet_size) + rest;
    assert(wire[10] == crc_bytes);
    assert(wire[11] == encode_pass1);
}

/// The session opcodes the engine acts on are those of the opcode table:
/// acknowledgements carry `Ack`, application packets `Packet`, a combined
/// datagram is unpacked under `Combined` and a fragment sequenced under
/// `Fragment`.
pub proof fn engine_uses_the_session_opcodes(
    p: LinkParams,
    st: RecvState,
    stream_id: u8,
    seq: u16,
    app_opcode: u16,
    payload: Seq<u8>,
    data: Seq<u8>,
)
    ensures
        ack_packet(0, seq)[1] == ReliableOp::Ack.spec_code(),
        app_packet(seq, app_opcode, payload)[1] == ReliableOp::Packet.spec_code(),
        dispatch(p, st, ReliableOp::Combined.spec_code(), data) == combined(p, st, data, 2),
        data.len() >= 4 ==> dispatch(p, st, ReliableOp::Fragment.spec_code(), data) == sequenced(
            p,
            st,
            be_u16(data, 2),
            0x0D,
            data.skip(4),
            0,
        ),
{
}

/// On a live link that neither wraps nor checks datagrams, a sequenced
/// datagram (opcode 0x09..=0x0C for an application packet of streams 0..=3,
/// 0x0D..=0x10 for a fragment of streams 0..=3) is handled by sequencing its
/// payload under the big-endian sequence number of bytes 2 and 3.
pub proof fn sequenced_datagrams_are_sequenced(
    p: LinkParams,
    st: RecvState,
    op: u8,
    seq: u16,
    payload: Seq<u8>,
)
    requires
        is_live(p),
        !is_encoded(p),
        p.crc_bytes == 0,
        0x09 <= op <= 0x10,
    ensures
        incoming(p, st, seq![0u8, op] + u16_be_bytes(seq) + payload) == sequenced(
            p,
            st,
            seq,
            op,
            payload,
            if op <= 0x0C {
                (op - 0x09) as u8
            } else {
                (op - 0x0D) as u8
            },
        ),
{
    let buf = seq![0u8, op] + u16_be_bytes(seq) + payload;
    lemma_u16_be_roundtrip(seq, payload, seq![0u8, op]);
    assert(buf[0] == 0u8 && buf[1] == op);
    assert(buf.subrange(0, buf.len() - 0) =~= buf);
    assert(session_decoded(p, buf) == buf);
    assert(buf.skip(4) =~= payload);
}

/// The two bytes of a big-endian `u16` are the encoding of its value.
proof fn lemma_be_u16_bytes(t: Seq<u8>)
    requires
        t.len() == 2,
    ensures
        u16_be_bytes(be_u16(t, 0)) == t,
{
    reveal(u16_be_bytes);
    let v = be_u16(t, 0);
    assert(v == 256 * t[0] + t[1]);
    assert(u16_be_bytes(v) =~= t);
}

/// The four bytes of a big-endian `u32` are the encoding of its value.
proof fn lemma_be_u32_bytes(t: Seq<u8>)
    requires
        t.len() == 4,
    ensures
        u32_be_bytes(be_u32(t, 0)) == t,
{
    reveal(u32_be_bytes);
    let v = be_u32(t, 0);
    let (a, b, c, d) = (t[0] as int, t[1] as int, t[2] as int, t[3] as int);
    let x = v as int;
    assert(x == 16777216 * a + 65536 * b + 256 * c + d);
    assert(x / 16777216 == a && (x / 65536) % 256 == b && (x / 256) % 256 == c && x % 256 == d)
        by (nonlinear_arith)
        requires
            x == 16777216 * a + 65536 * b + 256 * c + d,
            0 <= a < 256,
            0 <= b < 256,
            0 <= c < 256,
            0 <= d < 256,
    {
        assert(x == 16777216 * a + (65536 * b + 256 * c + d));
        assert(x == 65536 * (256 * a + b) + (256 * c + d));
        assert(x == 256 * (65536 * a + 256 * b + c) + d);
    }
    assert(u32_be_bytes(v) =~= t);
}

/// On a live link that checks datagrams with a 2- or 4-byte CRC and does not
/// wrap them, a non-reliable datagram (first byte nonzero, at least two
/// bytes) followed by a trailer of the CRC's size is delivered, trailer
/// stripped, exactly when the trailer is the big-endian keyed CRC of the
/// bytes before it (its low half on a 2-byte link); otherwise nothing is
/// delivered. Nothing is acknowledged either way.
pub proof fn nonreliable_crc_is_checked_and_stripped(p: LinkParams, st: RecvState, body: Seq<u8>, trailer: Seq<u8>)
    requires
        is_live(p),
        !is_encoded(p),
        p.crc_bytes == 2 || p.crc_bytes == 4,
        body.len() >= 2,
        body[0] != 0,
        trailer.len() == p.crc_bytes,
    ensures
        ({
            let good = if p.crc_bytes == 2 {
                u16_be_bytes((keyed_crc(body, p.encode_key) % 65536) as u16)
            } else {
                u32_be_bytes(keyed_crc(body, p.encode_key))
            };
            incoming(p, st, body + trailer) == if trailer == good {
                (st, seq![body], Seq::<Seq<u8>>::empty())
            } else {
                (st, Seq::<Seq<u8>>::empty(), Seq::<Seq<u8>>::empty())
            }
        }),
{
    let buf = body + trailer;
    let n = buf.len() as int;
    let k = keyed_crc(body, p.encode_key);
    assert(buf[0] == body[0]);
    assert(buf.subrange(0, n - p.crc_bytes) =~= body);
    if p.crc_bytes == 2 {
        let v = (k % 65536) as u16;
        let good = u16_be_bytes(v);
        assert(be_u16(buf, n - 2) == be_u16(trailer, 0));
        lemma_u16_be_roundtrip(v, Seq::empty(), Seq::empty());
        assert(Seq::<u8>::empty() + good + Seq::<u8>::empty() =~= good);
        lemma_be_u16_bytes(trailer);
        assert(received_crc(buf, 2) == be_u16(trailer, 0) as u32);
        assert(expected_crc(body, p) == k % 65536);
        if trailer == good {
            assert(received_crc(buf, 2) == expected_crc(body, p));
        } else {
            assert(received_crc(buf, 2) != expected_crc(body, p));
        }
    } else {
        let good = u32_be_bytes(k);
        assert(be_u32(buf, n - 4) == be_u32(trailer, 0));
        crate::bytes::lemma_u32_be_roundtrip(k, Seq::empty(), Seq::empty());
        assert(Seq::<u8>::empty() + good + Seq::<u8>::empty() =~= good);
        lemma_be_u32_bytes(trailer);
        if trailer == good {
            assert(received_crc(buf, 4) == expected_crc(body, p));
        } else {
            assert(received_crc(buf, 4) != expected_crc(body, p));
        }
    }
}

/// An application packet is the zero byte and opcode 0x09, the sequence
/// number most significant byte first, the application opcode least
/// significant byte first, then the payload.
pub proof fn app_packet_bytes(seq: u16, app_opcode: u16, payload: Seq<u8>)
    ensures
        app_packet(seq, app_opcode, payload) == seq![
            0u8,
            0x09u8,
            (seq / 256) as u8,
            (seq % 256) as u8,
            (app_opcode % 256) as u8,
            (app_opcode / 256) as u8,
        ] + payload,
{
    reveal(u16_be_bytes);
    reveal(crate::bytes::u16_le_bytes);
    assert(app_packet(seq, app_opcode, payload) =~= seq![
        0u8,
        0x09u8,
        (seq / 256) as u8,
        (seq % 256) as u8,
        (app_opcode % 256) as u8,
        (app_opcode / 256) as u8,
    ] + payload);
}

/// The handshake on a session response as it stands on the wire (the zero
/// byte, opcode 0x02, then the big-endian session id at bytes 2..6): from
/// the awaited address it completes exactly when that id is this session's
/// and keeps waiting otherwise; from any other address it is passed over; a
/// response of fewer than its 17 bytes fails the handshake.
pub proof fn handshake_matches_the_session_id(
    session: u32,
    connect_code: u32,
    encode_key: u32,
    crc_bytes: u8,
    encode_pass1: u8,
    encode_pass2: u8,
    max_packet_size: u32,
    rest: Seq<u8>,
    short: Seq<u8>,
)
    ensures
        ({
            let wire = seq![0u8, 0x02u8] + u32_be_bytes(connect_code) + u32_be_bytes(encode_key)
                + seq![crc_bytes, encode_pass1, encode_pass2] + u32_be_bytes(max_packet_size) + rest;
            &&& handshake_step(session, wire, true) == if connect_code == session {
                HandshakeStep::Complete
            } else {
                HandshakeStep::Waiting
            }
            &&& handshake_step(session, wire, false) == HandshakeStep::Waiting
        }),
        short.len() < 15 ==> handshake_step(session, seq![0u8, 0x02u8] + short, true)
            == HandshakeStep::Malformed,
{
    connect_reply_wire_layout(0, 0x02, connect_code, encode_key, crc_bytes, encode_pass1, encode_pass2, max_packet_size, rest);
    let wire = seq![0u8, 0x02u8] + u32_be_bytes(connect_code) + u32_be_bytes(encode_key)
        + seq![crc_bytes, encode_pass1, encode_pass2] + u32_be_bytes(max_packet_size) + rest;
    crate::bytes::lemma_u32_be_len(connect_code);
    assert(wire[1] == 0x02u8);
    let sh = seq![0u8, 0x02u8] + short;
    assert(sh[1] == 0x02u8);
}

/// Delivering the payload of an in-order sequenced packet: an application
/// packet of any of the streams 0..=3 (opcodes 0x09..=0x0C) is delivered
/// whole, on its own, and leaves the reassembly as it was; an opcode that is
/// neither that nor a fragment (0x0D) delivers nothing and changes nothing.
pub proof fn app_payloads_are_delivered_whole(st: RecvState, op: u8, payload: Seq<u8>)
    ensures
        0x09 <= op <= 0x0C ==> payload_step(st, op, payload) == (st, seq![payload]),
        !(0x09 <= op <= 0x0D) ==> payload_step(st, op, payload) == (st, Seq::<Seq<u8>>::empty()),
{
}

} // verus!
