use eqclient::packets::{ReliableStreamConnect, ReliableStreamConnectReply};
use eqclient::udp_engine::{ConnectionStatus, HandshakeStep, ReliableConnection};
use std::io::Write;

fn reference_crc(key: u32, data: &[u8]) -> u32 {
    let mut c = flate2::Crc::new();
    c.update(&key.to_le_bytes());
    c.update(data);
    c.sum()
}

fn connected(crc_bytes: u8, key: u32, pass1: u8) -> ReliableConnection {
    let mut c = ReliableConnection::with_connect_code(0x1234_5678);
    c.status = ConnectionStatus::Connected;
    c.crc_bytes = crc_bytes;
    c.encode_key = key;
    c.encode_pass1 = pass1;
    c
}

fn app_datagram(seq: u16, app_op: u16, payload: &[u8]) -> Vec<u8> {
    let mut v = vec![0u8, 0x09];
    v.extend_from_slice(&seq.to_be_bytes());
    v.extend_from_slice(&app_op.to_le_bytes());
    v.extend_from_slice(payload);
    v
}

#[test]
fn keyed_crc_matches_standard_crc32_over_key_and_data() {
    let data = b"123456789";
    assert_eq!(eqclient::crc::crc32_with_key(data, 0xDEADBEEF), reference_crc(0xDEADBEEF, data));
    assert_eq!(eqclient::crc::crc32_with_key(&[], 0), reference_crc(0, &[]));
}

#[test]
fn handshake_request_bytes() {
    let c = ReliableConnection::with_connect_code(0x0102_0304);
    let req = c.handshake_request();
    assert_eq!(req, vec![0, 1, 0, 0, 0, 3, 1, 2, 3, 4, 0, 0, 2, 0]);
    let parsed = ReliableStreamConnect::read(&req).unwrap();
    assert_eq!(parsed.connect_code, 0x0102_0304);
    assert_eq!(parsed.max_packet_size, 512);
}

#[test]
fn handshake_with_login_server_starts_at_zero() {
    let mut c = ReliableConnection::with_connect_code(7);
    c.handshake_sent();
    assert_eq!(c.status, ConnectionStatus::Connecting);
    let reply = ReliableStreamConnectReply {
        zero: 0,
        opcode: 2,
        connect_code: 7,
        encode_key: 0xAABBCCDD,
        crc_bytes: 2,
        encode_pass1: 0,
        encode_pass2: 0,
        max_packet_size: 512,
    };
    assert_eq!(c.handshake(&reply.write(), true), HandshakeStep::Complete);
    assert_eq!(c.status, ConnectionStatus::Connected);
    assert_eq!(c.encode_key, 0xAABBCCDD);
    assert_eq!(c.crc_bytes, 2);
    assert_eq!(c.sequence_in, 0);
}

#[test]
fn handshake_with_zone_server_takes_starting_sequence() {
    let mut c = ReliableConnection::with_connect_code(9);
    let reply = ReliableStreamConnectReply {
        zero: 0,
        opcode: 2,
        connect_code: 9,
        encode_key: 1,
        crc_bytes: 0x01,
        encode_pass1: 0x2C,
        encode_pass2: 0,
        max_packet_size: 512,
    };
    assert_eq!(c.handshake(&reply.write(), true), HandshakeStep::Complete);
    assert_eq!(c.sequence_in, 0x012C);
}

#[test]
fn handshake_ignores_foreign_and_mismatched_and_rejects_short() {
    let mut c = ReliableConnection::with_connect_code(9);
    let mut reply = ReliableStreamConnectReply {
        zero: 0,
        opcode: 2,
        connect_code: 10,
        encode_key: 1,
        crc_bytes: 2,
        encode_pass1: 0,
        encode_pass2: 0,
        max_packet_size: 512,
    };
    assert_eq!(c.handshake(&reply.write(), true), HandshakeStep::Waiting);
    reply.connect_code = 9;
    assert_eq!(c.handshake(&reply.write(), false), HandshakeStep::Waiting);
    assert_eq!(c.handshake(&[0, 2, 0, 0], true), HandshakeStep::Malformed);
    assert_eq!(c.handshake(&[0, 5, 0, 0], true), HandshakeStep::Waiting);
    assert_eq!(c.status, ConnectionStatus::Disconnected);
}

#[test]
fn app_packet_framing_with_crc_and_wrapping() {
    let mut c = connected(2, 0x11223344, 1);
    c.sequence_out = 5;
    let d = c.send_app_packet(0x0002, &[0xAB, 0xCD]);
    assert_eq!(c.sequence_out, 6);
    let body = vec![0u8, 0x09, 0xA5, 0x00, 0x05, 0x02, 0x00, 0xAB, 0xCD];
    let crc = reference_crc(0x11223344, &body) & 0xFFFF;
    let mut expected = body.clone();
    expected.extend_from_slice(&(crc as u16).to_be_bytes());
    assert_eq!(d, expected);
}

#[test]
fn raw_reliable_four_byte_crc_and_short_packets() {
    let c = connected(4, 5, 0);
    let d = c.send_raw_reliable(&[0, 0x15, 0, 1]).unwrap();
    let crc = reference_crc(5, &[0, 0x15, 0, 1]);
    let mut expected = vec![0u8, 0x15, 0, 1];
    expected.extend_from_slice(&crc.to_be_bytes());
    assert_eq!(d, expected);
    assert!(c.send_raw_reliable(&[0]).is_none());
}

#[test]
fn in_order_packet_is_delivered_and_acked() {
    let mut c = connected(0, 0, 0);
    let r = c.process_incoming_packet(&app_datagram(0, 0x0017, &[1, 2, 3]));
    assert_eq!(r.app_payloads, vec![vec![0x17, 0x00, 1, 2, 3]]);
    assert_eq!(r.outgoing, vec![vec![0, 0x15, 0, 0]]);
    assert_eq!(c.sequence_in, 1);
}

#[test]
fn out_of_order_packets_wait_for_the_gap() {
    let mut c = connected(0, 0, 0);
    let r1 = c.process_incoming_packet(&app_datagram(1, 0x0002, &[0xB]));
    assert!(r1.app_payloads.is_empty());
    assert!(r1.outgoing.is_empty());
    assert_eq!(c.out_of_order_buffer.len(), 1);
    let r2 = c.process_incoming_packet(&app_datagram(0, 0x0001, &[0xA]));
    assert_eq!(r2.app_payloads, vec![vec![0x01, 0x00, 0xA], vec![0x02, 0x00, 0xB]]);
    assert_eq!(r2.outgoing, vec![vec![0, 0x15, 0, 1]]);
    assert_eq!(c.sequence_in, 2);
    assert!(c.out_of_order_buffer.is_empty());
}

#[test]
fn shuffled_run_is_delivered_in_sequence_across_the_wrap() {
    let mut c = connected(0, 0, 0);
    c.sequence_in = 0xFFFE;
    let start: u16 = 0xFFFE;
    let order = [3u16, 1, 4, 0, 2];
    let mut delivered: Vec<Vec<u8>> = Vec::new();
    let mut acks: Vec<Vec<u8>> = Vec::new();
    for &i in order.iter() {
        let expected = c.sequence_in;
        let seq = start.wrapping_add(i);
        let r = c.handle_sequenced_packet(seq, 0x09, &[i as u8, 0xAA], 0);
        if seq != expected {
            assert!(r.app_payloads.is_empty());
            assert!(r.outgoing.is_empty());
        } else {
            assert_eq!(r.outgoing.len(), 1);
        }
        delivered.extend(r.app_payloads);
        acks.extend(r.outgoing);
    }
    let want: Vec<Vec<u8>> = (0u8..5).map(|i| vec![i, 0xAA]).collect();
    assert_eq!(delivered, want);
    assert_eq!(c.sequence_in, 3);
    assert!(c.out_of_order_buffer.is_empty());
    assert_eq!(acks, vec![vec![0, 0x15, 0xFF, 0xFF], vec![0, 0x15, 0x00, 0x02]]);
}

#[test]
fn buffered_and_duplicate_packets_of_any_stream_need_no_ack() {
    let mut c = connected(0, 0, 0);
    c.sequence_in = 5;
    let r = c.handle_sequenced_packet(7, 0x09, &[1], 0xFF);
    assert!(r.app_payloads.is_empty() && r.outgoing.is_empty());
    assert_eq!(c.out_of_order_buffer.len(), 1);
    let r = c.handle_sequenced_packet(4, 0x09, &[1], 0xFF);
    assert!(r.app_payloads.is_empty() && r.outgoing.is_empty());
    assert_eq!(c.sequence_in, 5);
}

#[test]
fn three_fragments_are_reassembled_once() {
    let mut c = connected(0, 0, 0);
    let mut first = 7u32.to_be_bytes().to_vec();
    first.extend_from_slice(&[1, 2]);
    let r1 = c.handle_sequenced_packet(0, 0x0D, &first, 0);
    assert!(r1.app_payloads.is_empty());
    let r2 = c.handle_sequenced_packet(1, 0x0D, &[3, 4, 5], 0);
    assert!(r2.app_payloads.is_empty());
    assert_eq!(c.fragment_buffer, vec![1, 2, 3, 4, 5]);
    let r3 = c.handle_sequenced_packet(2, 0x0D, &[6, 7, 8], 0);
    assert_eq!(r3.app_payloads, vec![vec![1, 2, 3, 4, 5, 6, 7, 8]]);
    assert!(c.fragment_buffer.is_empty());
    assert_eq!(c.fragment_total_size, 0);
}

#[test]
fn short_datagrams_on_odd_crc_links_are_flagged() {
    let c = connected(1, 0, 0);
    assert!(c.reads_before_start(&[1, 2]));
    assert!(!c.reads_before_start(&[1]));
    assert!(!c.reads_before_start(&[1, 2, 3, 4]));
    assert!(c.reads_before_start(&[0, 0x09]));
    assert!(!c.reads_before_start(&[0, 0x01]));
    assert!(!connected(2, 0, 0).reads_before_start(&[1, 2]));
    assert!(!connected(4, 0, 0).reads_before_start(&[1, 2, 3]));
    assert!(connected(3, 0, 0).reads_before_start(&[0, 0x09, 0]));
    assert!(!ReliableConnection::with_connect_code(1).reads_before_start(&[1, 2]));
}

#[test]
fn duplicates_are_ignored() {
    let mut c = connected(0, 0, 0);
    c.sequence_in = 10;
    let r = c.process_incoming_packet(&app_datagram(9, 0x0001, &[0xA]));
    assert!(r.app_payloads.is_empty());
    assert!(r.outgoing.is_empty());
    assert_eq!(c.sequence_in, 10);
    assert!(c.out_of_order_buffer.is_empty());
}

#[test]
fn sequence_numbers_wrap() {
    let mut c = connected(0, 0, 0);
    c.sequence_in = 0xFFFF;
    let r = c.process_incoming_packet(&app_datagram(0xFFFF, 0x0001, &[]));
    assert_eq!(r.app_payloads.len(), 1);
    assert_eq!(c.sequence_in, 0);
    assert_eq!(r.outgoing, vec![vec![0, 0x15, 0xFF, 0xFF]]);
}

#[test]
fn fragments_are_reassembled() {
    let mut c = connected(0, 0, 0);
    let mut first = vec![0u8, 0x0D, 0, 0, 0, 0, 0, 5];
    first.extend_from_slice(&[1, 2, 3]);
    let r1 = c.process_incoming_packet(&first);
    assert!(r1.app_payloads.is_empty());
    assert_eq!(r1.outgoing, vec![vec![0, 0x15, 0, 0]]);
    assert_eq!(c.fragment_total_size, 5);
    let r2 = c.process_incoming_packet(&[0, 0x0D, 0, 1, 4, 5]);
    assert_eq!(r2.app_payloads, vec![vec![1, 2, 3, 4, 5]]);
    assert_eq!(c.fragment_total_size, 0);
    assert!(c.fragment_buffer.is_empty());
}

#[test]
fn combined_packets_are_unpacked_in_order() {
    let mut c = connected(0, 0, 0);
    let p0 = app_datagram(0, 0x0001, &[7]);
    let p1 = app_datagram(1, 0x0002, &[8]);
    let mut comb = vec![0u8, 0x03, p0.len() as u8];
    comb.extend_from_slice(&p0);
    comb.push(p1.len() as u8);
    comb.extend_from_slice(&p1);
    comb.push(200);
    let r = c.process_incoming_packet(&comb);
    assert_eq!(r.app_payloads, vec![vec![1, 0, 7], vec![2, 0, 8]]);
    assert_eq!(r.outgoing, vec![vec![0, 0x15, 0, 0], vec![0, 0x15, 0, 1]]);
}

#[test]
fn crc_is_stripped_and_compressed_data_inflated() {
    let mut c = connected(2, 0x5555, 1);
    let inner = app_datagram(0, 0x0004, &[9, 9, 9, 9]);
    let mut enc = flate2::write::ZlibEncoder::new(Vec::new(), flate2::Compression::default());
    enc.write_all(&inner[2..]).unwrap();
    let compressed = enc.finish().unwrap();
    let mut body = vec![0u8, 0x09, 0x5A];
    body.extend_from_slice(&compressed);
    let crc = (reference_crc(0x5555, &body) & 0xFFFF) as u16;
    body.extend_from_slice(&crc.to_be_bytes());
    let r = c.process_incoming_packet(&body);
    assert_eq!(r.app_payloads, vec![vec![0x04, 0x00, 9, 9, 9, 9]]);
    assert_eq!(r.outgoing.len(), 1);
}

#[test]
fn nonreliable_packet_crc_checked() {
    let mut c = connected(2, 0x77, 0);
    let body = vec![0x21u8, 0x00, 1, 2];
    let crc = (reference_crc(0x77, &body) & 0xFFFF) as u16;
    let mut good = body.clone();
    good.extend_from_slice(&crc.to_be_bytes());
    let r = c.process_incoming_packet(&good);
    assert_eq!(r.app_payloads, vec![body.clone()]);
    let mut bad = good.clone();
    let last = bad.len() - 1;
    bad[last] ^= 1;
    let r2 = c.process_incoming_packet(&bad);
    assert!(r2.app_payloads.is_empty());
}

#[test]
fn nonreliable_packet_ignored_when_not_connected() {
    let mut c = ReliableConnection::with_connect_code(1);
    let r = c.process_incoming_packet(&[0x21, 0x00, 1]);
    assert!(r.app_payloads.is_empty());
}

#[test]
fn nonreliable_wrapped_and_bad_zlib() {
    let mut c = connected(0, 0, 1);
    let r = c.process_incoming_packet(&[0x21, 0xA5, 0x01, 0x02]);
    assert_eq!(r.app_payloads, vec![vec![0x21, 0x01, 0x02]]);
    let r2 = c.process_incoming_packet(&[0x21, 0x5A, 0xFF, 0xFF]);
    assert!(r2.app_payloads.is_empty());
}

#[test]
fn ack_packet_bytes() {
    let c = connected(0, 0, 0);
    assert_eq!(c.send_ack(2, 0x0102), vec![0, 0x17, 1, 2]);
}

#[test]
fn inflated_payload_prefixes_the_first_byte() {
    assert_eq!(eqclient::udp_engine::inflated_payload(0x21, &[1, 2]), Some(vec![0x21, 1, 2]));
    assert_eq!(eqclient::udp_engine::inflated_payload(0x21, &[]), None);
}

#[test]
fn decoded_fragment_opcodes_of_other_streams_only_advance_the_sequence() {
    let mut c = connected(0, 0, 0);
    let r = c.process_decoded(0x0E, &[0, 0x0E, 0, 0, 1, 2, 3, 4]);
    assert!(r.app_payloads.is_empty());
    assert_eq!(r.outgoing, vec![vec![0, 0x16, 0, 0]]);
    assert_eq!(c.sequence_in, 1);
}
