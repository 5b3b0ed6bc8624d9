//! Records of the login server's application protocol (Titanium), all
//! little-endian, packed.
use vstd::prelude::*;
use crate::bytes::{
    le_u32, le_i32, u8_to_i8, i8_to_u8, u32_le_bytes, i32_le_bytes, i32_to_u32, read_u32_le,
    read_i32_le, read_i8, read_array, push_u32_le, push_i32_le, push_i8, push_slice,
    lemma_u8_at, lemma_slice_at, lemma_u32_le_roundtrip, lemma_i32_roundtrip,
    lemma_i8_roundtrip, lemma_concat_assoc, lemma_concat_empty, lemma_u32_le_len,
};

verus! {

/// Header of login application packets (`LoginBaseMessage`, 10 bytes).
#[derive(Debug, Clone, Copy)]
pub struct LoginBaseMessage {
    /// 2: handshake, 3: login, 4: server list.
    pub sequence: i32,
    pub compressed: u8,
    /// 1: invert, 2: DES.
    pub encrypt_type: i8,
    /// Unused.
    pub unk3: i32,
}

impl LoginBaseMessage {
    /// Bytes the record occupies on the wire.
    pub open spec fn spec_size() -> nat {
        10
    }

    /// The wire bytes of the record, fields in order.
    pub open spec fn spec_bytes(&self) -> Seq<u8> {
        i32_le_bytes(self.sequence)
            + (seq![self.compressed]
            + (seq![i8_to_u8(self.encrypt_type)]
            + (i32_le_bytes(self.unk3))))
    }

    /// `self` is the record stored at `s[i..i + 10]`.
    pub open spec fn decodes_from(&self, s: Seq<u8>, i: int) -> bool {
        &&& self.sequence == le_i32(s, i + 0)
        &&& self.compressed == s[i + 4]
        &&& self.encrypt_type == u8_to_i8(s[i + 5])
        &&& self.unk3 == le_i32(s, i + 6)
    }

    /// Decodes the record stored at `b[i..i + 10]`.
    pub fn read_at(b: &[u8], i: usize) -> (r: LoginBaseMessage)
        requires
            i + 10 <= b@.len(),
        ensures
            r.decodes_from(b@, i as int),
    {
        let _len = b.len();
        let sequence = read_i32_le(b, i + 0);
        let compressed = b[i + 4];
        let encrypt_type = read_i8(b, i + 5);
        let unk3 = read_i32_le(b, i + 6);
        LoginBaseMessage { sequence, compressed, encrypt_type, unk3 }
    }

    /// Decodes the record at the front of `b`; `None` when `b` is shorter than 10 bytes.
    pub fn read(b: &[u8]) -> (r: Option<LoginBaseMessage>)
        ensures
            r is Some <==> b@.len() >= 10,
            r matches Some(m) ==> m.decodes_from(b@, 0),
    {
        if b.len() < 10 {
            return None;
        }
        Some(Self::read_at(b, 0))
    }

    /// Appends the wire bytes of the record.
    pub fn write_to(&self, v: &mut Vec<u8>)
        ensures
            final(v)@ == old(v)@ + self.spec_bytes(),
    {
        let ghost t3 = i32_le_bytes(self.unk3);
        let ghost t2 = seq![i8_to_u8(self.encrypt_type)] + t3;
        let ghost t1 = seq![self.compressed] + t2;
        let ghost w0 = v@;
        push_i32_le(v, self.sequence);
        proof {
            lemma_concat_assoc(w0, i32_le_bytes(self.sequence), t1);
        }
        let ghost w1 = v@;
        v.push(self.compressed);
        proof {
            lemma_concat_assoc(w1, seq![self.compressed], t2);
        }
        let ghost w2 = v@;
        push_i8(v, self.encrypt_type);
        proof {
            lemma_concat_assoc(w2, seq![i8_to_u8(self.encrypt_type)], t3);
        }
        let ghost w3 = v@;
        push_i32_le(v, self.unk3);
        proof {
            lemma_concat_empty(v@);
        }
    }

    /// The wire bytes of the record.
    pub fn write(&self) -> (r: Vec<u8>)
        ensures
            r@ == self.spec_bytes(),
    {
        let mut v: Vec<u8> = Vec::new();
        self.write_to(&mut v);
        assert(v@ =~= self.spec_bytes());
        v
    }
}

proof fn login_base_message_len(m: LoginBaseMessage)
    ensures
        m.spec_bytes().len() == 10,
{
    lemma_u32_le_len(i32_to_u32(m.sequence));
    lemma_u32_le_len(i32_to_u32(m.unk3));
}

/// Reading back the bytes written for a `LoginBaseMessage` gives the same record.
pub proof fn login_base_message_roundtrip(m: LoginBaseMessage, pre: Seq<u8>, rest: Seq<u8>)
    ensures
        m.decodes_from(pre + m.spec_bytes() + rest, pre.len() as int),
        m.spec_bytes().len() == 10,
{
    login_base_message_len(m);
    let e0 = i32_le_bytes(m.sequence);
    let e1 = seq![m.compressed];
    let e2 = seq![i8_to_u8(m.encrypt_type)];
    let e3 = i32_le_bytes(m.unk3);
    let t4 = Seq::<u8>::empty();
    let t3 = e3;
    let t2 = e2 + t3;
    let t1 = e1 + t2;
    let t0 = e0 + t1;
    let s = pre + m.spec_bytes() + rest;
    let i = pre.len() as int;
    lemma_concat_assoc(pre, t0, rest);
    let p0 = pre;
    let r0 = t1 + rest;
    lemma_concat_assoc(e0, t1, rest);
    lemma_concat_assoc(p0, e0, r0);
    lemma_u32_le_roundtrip(i32_to_u32(m.sequence), r0, p0);
    lemma_i32_roundtrip(m.sequence);
    assert(p0.len() == i + 0);
    assert(m.sequence == le_i32(s, i + 0));
    let p1 = p0 + e0;
    let r1 = t2 + rest;
    lemma_concat_assoc(e1, t2, rest);
    lemma_concat_assoc(p1, e1, r1);
    lemma_u8_at(m.compressed, p1, r1);
    assert(p1.len() == i + 4);
    assert(m.compressed == s[i + 4]);
    let p2 = p1 + e1;
    let r2 = t3 + rest;
    lemma_concat_assoc(e2, t3, rest);
    lemma_concat_assoc(p2, e2, r2);
    lemma_u8_at(i8_to_u8(m.encrypt_type), p2, r2);
    lemma_i8_roundtrip(m.encrypt_type);
    assert(p2.len() == i + 5);
    assert(m.encrypt_type == u8_to_i8(s[i + 5]));
    let p3 = p2 + e2;
    let r3 = t4 + rest;
    lemma_concat_assoc(e3, t4, rest);
    lemma_concat_assoc(p3, e3, r3);
    lemma_u32_le_roundtrip(i32_to_u32(m.unk3), r3, p3);
    lemma_i32_roundtrip(m.unk3);
    assert(p3.len() == i + 6);
    assert(m.unk3 == le_i32(s, i + 6));
    let p4 = p3 + e3;
}

/// The fields of a `LoginBaseMessage` stand on the wire packed in their declared order:
/// reading the bytes of its fields laid out one after another, wherever they
/// stand, gives each field back from its own place.
pub proof fn login_base_message_wire_layout(m: LoginBaseMessage, pre: Seq<u8>, rest: Seq<u8>)
    ensures
        m.decodes_from(
            pre + (
                i32_le_bytes(m.sequence)
                    + (seq![m.compressed]
                    + (seq![i8_to_u8(m.encrypt_type)]
                    + (i32_le_bytes(m.unk3))))
            ) + rest,
            pre.len() as int,
        ),
{
    login_base_message_roundtrip(m, pre, rest);
}

/// Outcome part of login replies (`LoginBaseReplyMessage`, 6 bytes).
#[derive(Debug, Clone, Copy)]
pub struct LoginBaseReplyMessage {
    pub success: u8,
    pub error_str_id: i32,
    pub unknown: u8,
}

impl LoginBaseReplyMessage {
    /// Bytes the record occupies on the wire.
    pub open spec fn spec_size() -> nat {
        6
    }

    /// The wire bytes of the record, fields in order.
    pub open spec fn spec_bytes(&self) -> Seq<u8> {
        seq![self.success] + (i32_le_bytes(self.error_str_id) + (seq![self.unknown]))
    }

    /// `self` is the record stored at `s[i..i + 6]`.
    pub open spec fn decodes_from(&self, s: Seq<u8>, i: int) -> bool {
        &&& self.success == s[i + 0]
        &&& self.error_str_id == le_i32(s, i + 1)
        &&& self.unknown == s[i + 5]
    }

    /// Decodes the record stored at `b[i..i + 6]`.
    pub fn read_at(b: &[u8], i: usize) -> (r: LoginBaseReplyMessage)
        requires
            i + 6 <= b@.len(),
        ensures
            r.decodes_from(b@, i as int),
    {
        let _len = b.len();
        let success = b[i + 0];
        let error_str_id = read_i32_le(b, i + 1);
        let unknown = b[i + 5];
        LoginBaseReplyMessage { success, error_str_id, unknown }
    }

    /// Decodes the record at the front of `b`; `None` when `b` is shorter than 6 bytes.
    pub fn read(b: &[u8]) -> (r: Option<LoginBaseReplyMessage>)
        ensures
            r is Some <==> b@.len() >= 6,
            r matches Some(m) ==> m.decodes_from(b@, 0),
    {
        if b.len() < 6 {
            return None;
        }
        Some(Self::read_at(b, 0))
    }

    /// Appends the wire bytes of the record.
    pub fn write_to(&self, v: &mut Vec<u8>)
        ensures
            final(v)@ == old(v)@ + self.spec_bytes(),
    {
        let ghost t2 = seq![self.unknown];
        let ghost t1 = i32_le_bytes(self.error_str_id) + t2;
        let ghost w0 = v@;
        v.push(self.success);
        proof {
            lemma_concat_assoc(w0, seq![self.success], t1);
        }
        let ghost w1 = v@;
        push_i32_le(v, self.error_str_id);
        proof {
            lemma_concat_assoc(w1, i32_le_bytes(self.error_str_id), t2);
        }
        let ghost w2 = v@;
        v.push(self.unknown);
        proof {
            lemma_concat_empty(v@);
        }
    }

    /// The wire bytes of the record.
    pub fn write(&self) -> (r: Vec<u8>)
        ensures
            r@ == self.spec_bytes(),
    {
        let mut v: Vec<u8> = Vec::new();
        self.write_to(&mut v);
        assert(v@ =~= self.spec_bytes());
        v
    }
}

proof fn login_base_reply_message_len(m: LoginBaseReplyMessage)
    ensures
        m.spec_bytes().len() == 6,
{
    lemma_u32_le_len(i32_to_u32(m.error_str_id));
}

/// Reading back the bytes written for a `LoginBaseReplyMessage` gives the same record.
pub proof fn login_base_reply_message_roundtrip(m: LoginBaseReplyMessage, pre: Seq<u8>, rest: Seq<u8>)
    ensures
        m.decodes_from(pre + m.spec_bytes() + rest, pre.len() as int),
        m.spec_bytes().len() == 6,
{
    login_base_reply_message_len(m);
    let e0 = seq![m.success];
    let e1 = i32_le_bytes(m.error_str_id);
    let e2 = seq![m.unknown];
    let t3 = Seq::<u8>::empty();
    let t2 = e2;
    let t1 = e1 + t2;
    let t0 = e0 + t1;
    let s = pre + m.spec_bytes() + rest;
    let i = pre.len() as int;
    lemma_concat_assoc(pre, t0, rest);
    let p0 = pre;
    let r0 = t1 + rest;
    lemma_concat_assoc(e0, t1, rest);
    lemma_concat_assoc(p0, e0, r0);
    lemma_u8_at(m.success, p0, r0);
    assert(p0.len() == i + 0);
    assert(m.success == s[i + 0]);
    let p1 = p0 + e0;
    let r1 = t2 + rest;
    lemma_concat_assoc(e1, t2, rest);
    lemma_concat_assoc(p1, e1, r1);
    lemma_u32_le_roundtrip(i32_to_u32(m.error_str_id), r1, p1);
    lemma_i32_roundtrip(m.error_str_id);
    assert(p1.len() == i + 1);
    assert(m.error_str_id == le_i32(s, i + 1));
    let p2 = p1 + e1;
    let r2 = t3 + rest;
    lemma_concat_assoc(e2, t3, rest);
    lemma_concat_assoc(p2, e2, r2);
    lemma_u8_at(m.unknown, p2, r2);
    assert(p2.len() == i + 5);
    assert(m.unknown == s[i + 5]);
    let p3 = p2 + e2;
}

/// The fields of a `LoginBaseReplyMessage` stand on the wire packed in their declared order:
/// reading the bytes of its fields laid out one after another, wherever they
/// stand, gives each field back from its own place.
pub proof fn login_base_reply_message_wire_layout(m: LoginBaseReplyMessage, pre: Seq<u8>, rest: Seq<u8>)
    ensures
        m.decodes_from(
            pre + (
                seq![m.success] + (i32_le_bytes(m.error_str_id) + (seq![m.unknown]))
            ) + rest,
            pre.len() as int,
        ),
{
    login_base_reply_message_roundtrip(m, pre, rest);
}

/// Handshake reply, server to client (opcode `ChatMessage`, 0x0016).
#[derive(Debug, Clone, Copy)]
pub struct LoginHandShakeReply {
    pub base_header: LoginBaseMessage,
    pub success: u8,
    pub error_str_id: i32,
}

impl LoginHandShakeReply {
    /// Bytes the record occupies on the wire.
    pub open spec fn spec_size() -> nat {
        15
    }

    /// The wire bytes of the record, fields in order.
    pub open spec fn spec_bytes(&self) -> Seq<u8> {
        self.base_header.spec_bytes() + (seq![self.success] + (i32_le_bytes(self.error_str_id)))
    }

    /// `self` is the record stored at `s[i..i + 15]`.
    pub open spec fn decodes_from(&self, s: Seq<u8>, i: int) -> bool {
        &&& self.base_header.decodes_from(s, i + 0)
        &&& self.success == s[i + 10]
        &&& self.error_str_id == le_i32(s, i + 11)
    }

    /// Decodes the record stored at `b[i..i + 15]`.
    pub fn read_at(b: &[u8], i: usize) -> (r: LoginHandShakeReply)
        requires
            i + 15 <= b@.len(),
        ensures
            r.decodes_from(b@, i as int),
    {
        let _len = b.len();
        let base_header = LoginBaseMessage::read_at(b, i + 0);
        let success = b[i + 10];
        let error_str_id = read_i32_le(b, i + 11);
        LoginHandShakeReply { base_header, success, error_str_id }
    }

    /// Decodes the record at the front of `b`; `None` when `b` is shorter than 15 bytes.
    pub fn read(b: &[u8]) -> (r: Option<LoginHandShakeReply>)
        ensures
            r is Some <==> b@.len() >= 15,
            r matches Some(m) ==> m.decodes_from(b@, 0),
    {
        if b.len() < 15 {
            return None;
        }
        Some(Self::read_at(b, 0))
    }

    /// Appends the wire bytes of the record.
    pub fn write_to(&self, v: &mut Vec<u8>)
        ensures
            final(v)@ == old(v)@ + self.spec_bytes(),
    {
        let ghost t2 = i32_le_bytes(self.error_str_id);
        let ghost t1 = seq![self.success] + t2;
        let ghost w0 = v@;
        self.base_header.write_to(v);
        proof {
            lemma_concat_assoc(w0, self.base_header.spec_bytes(), t1);
        }
        let ghost w1 = v@;
        v.push(self.success);
        proof {
            lemma_concat_assoc(w1, seq![self.success], t2);
        }
        let ghost w2 = v@;
        push_i32_le(v, self.error_str_id);
        proof {
            lemma_concat_empty(v@);
        }
    }

    /// The wire bytes of the record.
    pub fn write(&self) -> (r: Vec<u8>)
        ensures
            r@ == self.spec_bytes(),
    {
        let mut v: Vec<u8> = Vec::new();
        self.write_to(&mut v);
        assert(v@ =~= self.spec_bytes());
        v
    }
}

proof fn login_hand_shake_reply_len(m: LoginHandShakeReply)
    ensures
        m.spec_bytes().len() == 15,
{
    login_base_message_len(m.base_header);
    lemma_u32_le_len(i32_to_u32(m.error_str_id));
}

/// Reading back the bytes written for a `LoginHandShakeReply` gives the same record.
pub proof fn login_hand_shake_reply_roundtrip(m: LoginHandShakeReply, pre: Seq<u8>, rest: Seq<u8>)
    ensures
        m.decodes_from(pre + m.spec_bytes() + rest, pre.len() as int),
        m.spec_bytes().len() == 15,
{
    login_hand_shake_reply_len(m);
    let e0 = m.base_header.spec_bytes();
    let e1 = seq![m.success];
    let e2 = i32_le_bytes(m.error_str_id);
    let t3 = Seq::<u8>::empty();
    let t2 = e2;
    let t1 = e1 + t2;
    let t0 = e0 + t1;
    let s = pre + m.spec_bytes() + rest;
    let i = pre.len() as int;
    lemma_concat_assoc(pre, t0, rest);
    let p0 = pre;
    let r0 = t1 + rest;
    lemma_concat_assoc(e0, t1, rest);
    lemma_concat_assoc(p0, e0, r0);
    login_base_message_roundtrip(m.base_header, p0, r0);
    assert(p0.len() == i + 0);
    assert(m.base_header.decodes_from(s, i + 0));
    let p1 = p0 + e0;
    let r1 = t2 + rest;
    lemma_concat_assoc(e1, t2, rest);
    lemma_concat_assoc(p1, e1, r1);
    lemma_u8_at(m.success, p1, r1);
    assert(p1.len() == i + 10);
    assert(m.success == s[i + 10]);
    let p2 = p1 + e1;
    let r2 = t3 + rest;
    lemma_concat_assoc(e2, t3, rest);
    lemma_concat_assoc(p2, e2, r2);
    lemma_u32_le_roundtrip(i32_to_u32(m.error_str_id), r2, p2);
    lemma_i32_roundtrip(m.error_str_id);
    assert(p2.len() == i + 11);
    assert(m.error_str_id == le_i32(s, i + 11));
    let p3 = p2 + e2;
}

/// The fields of a `LoginHandShakeReply` stand on the wire packed in their declared order:
/// reading the bytes of its fields laid out one after another, wherever they
/// stand, gives each field back from its own place.
pub proof fn login_hand_shake_reply_wire_layout(m: LoginHandShakeReply, pre: Seq<u8>, rest: Seq<u8>)
    ensures
        m.decodes_from(
            pre + (
                m.base_header.spec_bytes() + (seq![m.success] + (i32_le_bytes(m.error_str_id)))
            ) + rest,
            pre.len() as int,
        ),
{
    login_hand_shake_reply_roundtrip(m, pre, rest);
}

/// Session ready, client to server (opcode 0x0001): no payload.
#[derive(Debug, Clone, Copy)]
pub struct SessionReady {
}

impl SessionReady {
    /// Bytes the record occupies on the wire.
    pub open spec fn spec_size() -> nat {
        0
    }

    /// The wire bytes of the record, fields in order.
    pub open spec fn spec_bytes(&self) -> Seq<u8> {
        Seq::empty()
    }

    /// `self` is the record stored at `s[i..i + 0]`.
    pub open spec fn decodes_from(&self, s: Seq<u8>, i: int) -> bool {
        true
    }

    /// Decodes the record stored at `b[i..i + 0]`.
    pub fn read_at(b: &[u8], i: usize) -> (r: SessionReady)
        requires
            i + 0 <= b@.len(),
        ensures
            r.decodes_from(b@, i as int),
    {
        let _len = b.len();
        SessionReady {  }
    }

    /// Decodes the record at the front of `b`; `None` when `b` is shorter than 0 bytes.
    pub fn read(b: &[u8]) -> (r: Option<SessionReady>)
        ensures
            r is Some <==> b@.len() >= 0,
            r matches Some(m) ==> m.decodes_from(b@, 0),
    {
        if b.len() < 0 {
            return None;
        }
        Some(Self::read_at(b, 0))
    }

    /// Appends the wire bytes of the record.
    pub fn write_to(&self, v: &mut Vec<u8>)
        ensures
            final(v)@ == old(v)@ + self.spec_bytes(),
    {
        proof { lemma_concat_empty(v@); }
    }

    /// The wire bytes of the record.
    pub fn write(&self) -> (r: Vec<u8>)
        ensures
            r@ == self.spec_bytes(),
    {
        let mut v: Vec<u8> = Vec::new();
        self.write_to(&mut v);
        assert(v@ =~= self.spec_bytes());
        v
    }
}

proof fn session_ready_len(m: SessionReady)
    ensures
        m.spec_bytes().len() == 0,
{
}

/// Reading back the bytes written for a `SessionReady` gives the same record.
pub proof fn session_ready_roundtrip(m: SessionReady, pre: Seq<u8>, rest: Seq<u8>)
    ensures
        m.decodes_from(pre + m.spec_bytes() + rest, pre.len() as int),
        m.spec_bytes().len() == 0,
{
    session_ready_len(m);
    let t0 = Seq::<u8>::empty();
    let s = pre + m.spec_bytes() + rest;
    let i = pre.len() as int;
}

/// Decrypted payload of a login acceptance (opcode `LoginAccepted`, 0x0017): the fixed part, which holds the session key.
#[derive(Debug, Clone, Copy)]
pub struct PlayerLoginReply {
    pub base_reply: LoginBaseReplyMessage,
    pub unk1: u8,
    pub unk2: u8,
    pub lsid: i32,
    pub key: [u8; 11],
    pub unknown_pad: u8,
    pub failed_attempts: i32,
    pub show_player_count: u32,
    pub offer_min_days: i32,
    pub offer_min_views: i32,
    pub offer_cooldown_minutes: i32,
    pub web_offer_number: i32,
    pub web_offer_min_days: i32,
    pub web_offer_min_views: i32,
    pub web_offer_cooldown_minutes: i32,
}

impl PlayerLoginReply {
    /// Bytes the record occupies on the wire.
    pub open spec fn spec_size() -> nat {
        60
    }

    /// The wire bytes of the record, fields in order.
    pub open spec fn spec_bytes(&self) -> Seq<u8> {
        self.base_reply.spec_bytes()
            + (seq![self.unk1]
            + (seq![self.unk2]
            + (i32_le_bytes(self.lsid)
            + (self.key@
            + (seq![self.unknown_pad]
            + (i32_le_bytes(self.failed_attempts)
            + (u32_le_bytes(self.show_player_count)
            + (i32_le_bytes(self.offer_min_days)
            + (i32_le_bytes(self.offer_min_views)
            + (i32_le_bytes(self.offer_cooldown_minutes)
            + (i32_le_bytes(self.web_offer_number)
            + (i32_le_bytes(self.web_offer_min_days)
            + (i32_le_bytes(self.web_offer_min_views)
            + (i32_le_bytes(self.web_offer_cooldown_minutes)))))))))))))))
    }

    /// `self` is the record stored at `s[i..i + 60]`.
    pub open spec fn decodes_from(&self, s: Seq<u8>, i: int) -> bool {
        &&& self.base_reply.decodes_from(s, i + 0)
        &&& self.unk1 == s[i + 6]
        &&& self.unk2 == s[i + 7]
        &&& self.lsid == le_i32(s, i + 8)
        &&& self.key@ == s.subrange(i + 12, i + 12 + 11)
        &&& self.unknown_pad == s[i + 23]
        &&& self.failed_attempts == le_i32(s, i + 24)
        &&& self.show_player_count == le_u32(s, i + 28)
        &&& self.offer_min_days == le_i32(s, i + 32)
        &&& self.offer_min_views == le_i32(s, i + 36)
        &&& self.offer_cooldown_minutes == le_i32(s, i + 40)
        &&& self.web_offer_number == le_i32(s, i + 44)
        &&& self.web_offer_min_days == le_i32(s, i + 48)
        &&& self.web_offer_min_views == le_i32(s, i + 52)
        &&& self.web_offer_cooldown_minutes == le_i32(s, i + 56)
    }

    /// Decodes the record stored at `b[i..i + 60]`.
    pub fn read_at(b: &[u8], i: usize) -> (r: PlayerLoginReply)
        requires
            i + 60 <= b@.len(),
        ensures
            r.decodes_from(b@, i as int),
    {
        let _len = b.len();
        let base_reply = LoginBaseReplyMessage::read_at(b, i + 0);
        let unk1 = b[i + 6];
        let unk2 = b[i + 7];
        let lsid = read_i32_le(b, i + 8);
        let key = read_array::<11>(b, i + 12);
        let unknown_pad = b[i + 23];
        let failed_attempts = read_i32_le(b, i + 24);
        let show_player_count = read_u32_le(b, i + 28);
        let offer_min_days = read_i32_le(b, i + 32);
        let offer_min_views = read_i32_le(b, i + 36);
        let offer_cooldown_minutes = read_i32_le(b, i + 40);
        let web_offer_number = read_i32_le(b, i + 44);
        let web_offer_min_days = read_i32_le(b, i + 48);
        let web_offer_min_views = read_i32_le(b, i + 52);
        let web_offer_cooldown_minutes = read_i32_le(b, i + 56);
        PlayerLoginReply { base_reply, unk1, unk2, lsid, key, unknown_pad, failed_attempts, show_player_count, offer_min_days, offer_min_views, offer_cooldown_minutes, web_offer_number, web_offer_min_days, web_offer_min_views, web_offer_cooldown_minutes }
    }

    /// Decodes the record at the front of `b`; `None` when `b` is shorter than 60 bytes.
    pub fn read(b: &[u8]) -> (r: Option<PlayerLoginReply>)
        ensures
            r is Some <==> b@.len() >= 60,
            r matches Some(m) ==> m.decodes_from(b@, 0),
    {
        if b.len() < 60 {
            return None;
        }
        Some(Self::read_at(b, 0))
    }

    /// Appends the wire bytes of the record.
    pub fn write_to(&self, v: &mut Vec<u8>)
        ensures
            final(v)@ == old(v)@ + self.spec_bytes(),
    {
        let ghost t14 = i32_le_bytes(self.web_offer_cooldown_minutes);
        let ghost t13 = i32_le_bytes(self.web_offer_min_views) + t14;
        let ghost t12 = i32_le_bytes(self.web_offer_min_days) + t13;
        let ghost t11 = i32_le_bytes(self.web_offer_number) + t12;
        let ghost t10 = i32_le_bytes(self.offer_cooldown_minutes) + t11;
        let ghost t9 = i32_le_bytes(self.offer_min_views) + t10;
        let ghost t8 = i32_le_bytes(self.offer_min_days) + t9;
        let ghost t7 = u32_le_bytes(self.show_player_count) + t8;
        let ghost t6 = i32_le_bytes(self.failed_attempts) + t7;
        let ghost t5 = seq![self.unknown_pad] + t6;
        let ghost t4 = self.key@ + t5;
        let ghost t3 = i32_le_bytes(self.lsid) + t4;
        let ghost t2 = seq![self.unk2] + t3;
        let ghost t1 = seq![self.unk1] + t2;
        let ghost w0 = v@;
        self.base_reply.write_to(v);
        proof {
            lemma_concat_assoc(w0, self.base_reply.spec_bytes(), t1);
        }
        let ghost w1 = v@;
        v.push(self.unk1);
        proof {
            lemma_concat_assoc(w1, seq![self.unk1], t2);
        }
        let ghost w2 = v@;
        v.push(self.unk2);
        proof {
            lemma_concat_assoc(w2, seq![self.unk2], t3);
        }
        let ghost w3 = v@;
        push_i32_le(v, self.lsid);
        proof {
            lemma_concat_assoc(w3, i32_le_bytes(self.lsid), t4);
        }
        let ghost w4 = v@;
        push_slice(v, self.key.as_slice());
        proof {
            lemma_concat_assoc(w4, self.key@, t5);
        }
        let ghost w5 = v@;
        v.push(self.unknown_pad);
        proof {
            lemma_concat_assoc(w5, seq![self.unknown_pad], t6);
        }
        let ghost w6 = v@;
        push_i32_le(v, self.failed_attempts);
        proof {
            lemma_concat_assoc(w6, i32_le_bytes(self.failed_attempts), t7);
        }
        let ghost w7 = v@;
        push_u32_le(v, self.show_player_count);
        proof {
            lemma_concat_assoc(w7, u32_le_bytes(self.show_player_count), t8);
        }
        let ghost w8 = v@;
        push_i32_le(v, self.offer_min_days);
        proof {
            lemma_concat_assoc(w8, i32_le_bytes(self.offer_min_days), t9);
        }
        let ghost w9 = v@;
        push_i32_le(v, self.offer_min_views);
        proof {
            lemma_concat_assoc(w9, i32_le_bytes(self.offer_min_views), t10);
        }
        let ghost w10 = v@;
        push_i32_le(v, self.offer_cooldown_minutes);
        proof {
            lemma_concat_assoc(w10, i32_le_bytes(self.offer_cooldown_minutes), t11);
        }
        let ghost w11 = v@;
        push_i32_le(v, self.web_offer_number);
        proof {
            lemma_concat_assoc(w11, i32_le_bytes(self.web_offer_number), t12);
        }
        let ghost w12 = v@;
        push_i32_le(v, self.web_offer_min_days);
        proof {
            lemma_concat_assoc(w12, i32_le_bytes(self.web_offer_min_days), t13);
        }
        let ghost w13 = v@;
        push_i32_le(v, self.web_offer_min_views);
        proof {
            lemma_concat_assoc(w13, i32_le_bytes(self.web_offer_min_views), t14);
        }
        let ghost w14 = v@;
        push_i32_le(v, self.web_offer_cooldown_minutes);
        proof {
            lemma_concat_empty(v@);
        }
    }

    /// The wire bytes of the record.
    pub fn write(&self) -> (r: Vec<u8>)
        ensures
            r@ == self.spec_bytes(),
    {
        let mut v: Vec<u8> = Vec::new();
        self.write_to(&mut v);
        assert(v@ =~= self.spec_bytes());
        v
    }
}

proof fn player_login_reply_len(m: PlayerLoginReply)
    ensures
        m.spec_bytes().len() == 60,
{
    login_base_reply_message_len(m.base_reply);
    lemma_u32_le_len(i32_to_u32(m.lsid));
    lemma_u32_le_len(i32_to_u32(m.failed_attempts));
    lemma_u32_le_len(m.show_player_count);
    lemma_u32_le_len(i32_to_u32(m.offer_min_days));
    lemma_u32_le_len(i32_to_u32(m.offer_min_views));
    lemma_u32_le_len(i32_to_u32(m.offer_cooldown_minutes));
    lemma_u32_le_len(i32_to_u32(m.web_offer_number));
    lemma_u32_le_len(i32_to_u32(m.web_offer_min_days));
    lemma_u32_le_len(i32_to_u32(m.web_offer_min_views));
    lemma_u32_le_len(i32_to_u32(m.web_offer_cooldown_minutes));
}

proof fn player_login_reply_roundtrip_part0(m: PlayerLoginReply, pre: Seq<u8>, rest: Seq<u8>)
    ensures
        ({
            let s = pre + m.spec_bytes() + rest;
            let i = pre.len() as int;
            &&& m.base_reply.decodes_from(s, i + 0)
            &&& m.unk1 == s[i + 6]
            &&& m.unk2 == s[i + 7]
            &&& m.lsid == le_i32(s, i + 8)
            &&& m.key@ == s.subrange(i + 12, i + 12 + 11)
            &&& m.unknown_pad == s[i + 23]
        }),
{
    let e0 = m.base_reply.spec_bytes();
    let e1 = seq![m.unk1];
    let e2 = seq![m.unk2];
    let e3 = i32_le_bytes(m.lsid);
    let e4 = m.key@;
    let e5 = seq![m.unknown_pad];
    let e6 = i32_le_bytes(m.failed_attempts);
    let e7 = u32_le_bytes(m.show_player_count);
    let e8 = i32_le_bytes(m.offer_min_days);
    let e9 = i32_le_bytes(m.offer_min_views);
    let e10 = i32_le_bytes(m.offer_cooldown_minutes);
    let e11 = i32_le_bytes(m.web_offer_number);
    let e12 = i32_le_bytes(m.web_offer_min_days);
    let e13 = i32_le_bytes(m.web_offer_min_views);
    let e14 = i32_le_bytes(m.web_offer_cooldown_minutes);
    let t15 = Seq::<u8>::empty();
    let t14 = e14;
    let t13 = e13 + t14;
    let t12 = e12 + t13;
    let t11 = e11 + t12;
    let t10 = e10 + t11;
    let t9 = e9 + t10;
    let t8 = e8 + t9;
    let t7 = e7 + t8;
    let t6 = e6 + t7;
    let t5 = e5 + t6;
    let t4 = e4 + t5;
    let t3 = e3 + t4;
    let t2 = e2 + t3;
    let t1 = e1 + t2;
    let t0 = e0 + t1;
    let s = pre + m.spec_bytes() + rest;
    let i = pre.len() as int;
    lemma_concat_assoc(pre, t0, rest);
    let p0 = pre;
    let r0 = t1 + rest;
    lemma_concat_assoc(e0, t1, rest);
    lemma_concat_assoc(p0, e0, r0);
    login_base_reply_message_roundtrip(m.base_reply, p0, r0);
    assert(p0.len() == i + 0);
    assert(m.base_reply.decodes_from(s, i + 0));
    let p1 = p0 + e0;
    let r1 = t2 + rest;
    lemma_concat_assoc(e1, t2, rest);
    lemma_concat_assoc(p1, e1, r1);
    lemma_u8_at(m.unk1, p1, r1);
    assert(p1.len() == i + 6);
    assert(m.unk1 == s[i + 6]);
    let p2 = p1 + e1;
    let r2 = t3 + rest;
    lemma_concat_assoc(e2, t3, rest);
    lemma_concat_assoc(p2, e2, r2);
    lemma_u8_at(m.unk2, p2, r2);
    assert(p2.len() == i + 7);
    assert(m.unk2 == s[i + 7]);
    let p3 = p2 + e2;
    let r3 = t4 + rest;
    lemma_concat_assoc(e3, t4, rest);
    lemma_concat_assoc(p3, e3, r3);
    lemma_u32_le_roundtrip(i32_to_u32(m.lsid), r3, p3);
    lemma_i32_roundtrip(m.lsid);
    assert(p3.len() == i + 8);
    assert(m.lsid == le_i32(s, i + 8));
    let p4 = p3 + e3;
    let r4 = t5 + rest;
    lemma_concat_assoc(e4, t5, rest);
    lemma_concat_assoc(p4, e4, r4);
    lemma_slice_at(m.key@, p4, r4);
    assert(p4.len() == i + 12);
    assert(m.key@ == s.subrange(i + 12, i + 12 + 11));
    let p5 = p4 + e4;
    let r5 = t6 + rest;
    lemma_concat_assoc(e5, t6, rest);
    lemma_concat_assoc(p5, e5, r5);
    lemma_u8_at(m.unknown_pad, p5, r5);
    assert(p5.len() == i + 23);
    assert(m.unknown_pad == s[i + 23]);
    let p6 = p5 + e5;
}

proof fn player_login_reply_roundtrip_part1(m: PlayerLoginReply, pre: Seq<u8>, rest: Seq<u8>)
    ensures
        ({
            let s = pre + m.spec_bytes() + rest;
            let i = pre.len() as int;
            &&& m.failed_attempts == le_i32(s, i + 24)
            &&& m.show_player_count == le_u32(s, i + 28)
            &&& m.offer_min_days == le_i32(s, i + 32)
            &&& m.offer_min_views == le_i32(s, i + 36)
            &&& m.offer_cooldown_minutes == le_i32(s, i + 40)
            &&& m.web_offer_number == le_i32(s, i + 44)
        }),
{
    let e0 = m.base_reply.spec_bytes();
    let e1 = seq![m.unk1];
    let e2 = seq![m.unk2];
    let e3 = i32_le_bytes(m.lsid);
    let e4 = m.key@;
    let e5 = seq![m.unknown_pad];
    let e6 = i32_le_bytes(m.failed_attempts);
    let e7 = u32_le_bytes(m.show_player_count);
    let e8 = i32_le_bytes(m.offer_min_days);
    let e9 = i32_le_bytes(m.offer_min_views);
    let e10 = i32_le_bytes(m.offer_cooldown_minutes);
    let e11 = i32_le_bytes(m.web_offer_number);
    let e12 = i32_le_bytes(m.web_offer_min_days);
    let e13 = i32_le_bytes(m.web_offer_min_views);
    let e14 = i32_le_bytes(m.web_offer_cooldown_minutes);
    let t15 = Seq::<u8>::empty();
    let t14 = e14;
    let t13 = e13 + t14;
    let t12 = e12 + t13;
    let t11 = e11 + t12;
    let t10 = e10 + t11;
    let t9 = e9 + t10;
    let t8 = e8 + t9;
    let t7 = e7 + t8;
    let t6 = e6 + t7;
    let t5 = e5 + t6;
    let t4 = e4 + t5;
    let t3 = e3 + t4;
    let t2 = e2 + t3;
    let t1 = e1 + t2;
    let t0 = e0 + t1;
    let s = pre + m.spec_bytes() + rest;
    let i = pre.len() as int;
    lemma_concat_assoc(pre, t0, rest);
    let p0 = pre;
    let r0 = t1 + rest;
    lemma_concat_assoc(e0, t1, rest);
    lemma_concat_assoc(p0, e0, r0);
    login_base_reply_message_len(m.base_reply);
    let p1 = p0 + e0;
    let r1 = t2 + rest;
    lemma_concat_assoc(e1, t2, rest);
    lemma_concat_assoc(p1, e1, r1);
    let p2 = p1 + e1;
    let r2 = t3 + rest;
    lemma_concat_assoc(e2, t3, rest);
    lemma_concat_assoc(p2, e2, r2);
    let p3 = p2 + e2;
    let r3 = t4 + rest;
    lemma_concat_assoc(e3, t4, rest);
    lemma_concat_assoc(p3, e3, r3);
    lemma_u32_le_len(i32_to_u32(m.lsid));
    let p4 = p3 + e3;
    let r4 = t5 + rest;
    lemma_concat_assoc(e4, t5, rest);
    lemma_concat_assoc(p4, e4, r4);
    let p5 = p4 + e4;
    let r5 = t6 + rest;
    lemma_concat_assoc(e5, t6, rest);
    lemma_concat_assoc(p5, e5, r5);
    let p6 = p5 + e5;
    let r6 = t7 + rest;
    lemma_concat_assoc(e6, t7, rest);
    lemma_concat_assoc(p6, e6, r6);
    lemma_u32_le_roundtrip(i32_to_u32(m.failed_attempts), r6, p6);
    lemma_i32_roundtrip(m.failed_attempts);
    assert(p6.len() == i + 24);
    assert(m.failed_attempts == le_i32(s, i + 24));
    let p7 = p6 + e6;
    let r7 = t8 + rest;
    lemma_concat_assoc(e7, t8, rest);
    lemma_concat_assoc(p7, e7, r7);
    lemma_u32_le_roundtrip(m.show_player_count, r7, p7);
    assert(p7.len() == i + 28);
    assert(m.show_player_count == le_u32(s, i + 28));
    let p8 = p7 + e7;
    let r8 = t9 + rest;
    lemma_concat_assoc(e8, t9, rest);
    lemma_concat_assoc(p8, e8, r8);
    lemma_u32_le_roundtrip(i32_to_u32(m.offer_min_days), r8, p8);
    lemma_i32_roundtrip(m.offer_min_days);
    assert(p8.len() == i + 32);
    assert(m.offer_min_days == le_i32(s, i + 32));
    let p9 = p8 + e8;
    let r9 = t10 + rest;
    lemma_concat_assoc(e9, t10, rest);
    lemma_concat_assoc(p9, e9, r9);
    lemma_u32_le_roundtrip(i32_to_u32(m.offer_min_views), r9, p9);
    lemma_i32_roundtrip(m.offer_min_views);
    assert(p9.len() == i + 36);
    assert(m.offer_min_views == le_i32(s, i + 36));
    let p10 = p9 + e9;
    let r10 = t11 + rest;
    lemma_concat_assoc(e10, t11, rest);
    lemma_concat_assoc(p10, e10, r10);
    lemma_u32_le_roundtrip(i32_to_u32(m.offer_cooldown_minutes), r10, p10);
    lemma_i32_roundtrip(m.offer_cooldown_minutes);
    assert(p10.len() == i + 40);
    assert(m.offer_cooldown_minutes == le_i32(s, i + 40));
    let p11 = p10 + e10;
    let r11 = t12 + rest;
    lemma_concat_assoc(e11, t12, rest);
    lemma_concat_assoc(p11, e11, r11);
    lemma_u32_le_roundtrip(i32_to_u32(m.web_offer_number), r11, p11);
    lemma_i32_roundtrip(m.web_offer_number);
    assert(p11.len() == i + 44);
    assert(m.web_offer_number == le_i32(s, i + 44));
    let p12 = p11 + e11;
}

proof fn player_login_reply_roundtrip_part2(m: PlayerLoginReply, pre: Seq<u8>, rest: Seq<u8>)
    ensures
        ({
            let s = pre + m.spec_bytes() + rest;
            let i = pre.len() as int;
            &&& m.web_offer_min_days == le_i32(s, i + 48)
            &&& m.web_offer_min_views == le_i32(s, i + 52)
            &&& m.web_offer_cooldown_minutes == le_i32(s, i + 56)
        }),
{
    let e0 = m.base_reply.spec_bytes();
    let e1 = seq![m.unk1];
    let e2 = seq![m.unk2];
    let e3 = i32_le_bytes(m.lsid);
    let e4 = m.key@;
    let e5 = seq![m.unknown_pad];
    let e6 = i32_le_bytes(m.failed_attempts);
    let e7 = u32_le_bytes(m.show_player_count);
    let e8 = i32_le_bytes(m.offer_min_days);
    let e9 = i32_le_bytes(m.offer_min_views);
    let e10 = i32_le_bytes(m.offer_cooldown_minutes);
    let e11 = i32_le_bytes(m.web_offer_number);
    let e12 = i32_le_bytes(m.web_offer_min_days);
    let e13 = i32_le_bytes(m.web_offer_min_views);
    let e14 = i32_le_bytes(m.web_offer_cooldown_minutes);
    let t15 = Seq::<u8>::empty();
    let t14 = e14;
    let t13 = e13 + t14;
    let t12 = e12 + t13;
    let t11 = e11 + t12;
    let t10 = e10 + t11;
    let t9 = e9 + t10;
    let t8 = e8 + t9;
    let t7 = e7 + t8;
    let t6 = e6 + t7;
    let t5 = e5 + t6;
    let t4 = e4 + t5;
    let t3 = e3 + t4;
    let t2 = e2 + t3;
    let t1 = e1 + t2;
    let t0 = e0 + t1;
    let s = pre + m.spec_bytes() + rest;
    let i = pre.len() as int;
    lemma_concat_assoc(pre, t0, rest);
    let p0 = pre;
    let r0 = t1 + rest;
    lemma_concat_assoc(e0, t1, rest);
    lemma_concat_assoc(p0, e0, r0);
    login_base_reply_message_len(m.base_reply);
    let p1 = p0 + e0;
    let r1 = t2 + rest;
    lemma_concat_assoc(e1, t2, rest);
    lemma_concat_assoc(p1, e1, r1);
    let p2 = p1 + e1;
    let r2 = t3 + rest;
    lemma_concat_assoc(e2, t3, rest);
    lemma_concat_assoc(p2, e2, r2);
    let p3 = p2 + e2;
    let r3 = t4 + rest;
    lemma_concat_assoc(e3, t4, rest);
    lemma_concat_assoc(p3, e3, r3);
    lemma_u32_le_len(i32_to_u32(m.lsid));
    let p4 = p3 + e3;
    let r4 = t5 + rest;
    lemma_concat_assoc(e4, t5, rest);
    lemma_concat_assoc(p4, e4, r4);
    let p5 = p4 + e4;
    let r5 = t6 + rest;
    lemma_concat_assoc(e5, t6, rest);
    lemma_concat_assoc(p5, e5, r5);
    let p6 = p5 + e5;
    let r6 = t7 + rest;
    lemma_concat_assoc(e6, t7, rest);
    lemma_concat_assoc(p6, e6, r6);
    lemma_u32_le_len(i32_to_u32(m.failed_attempts));
    let p7 = p6 + e6;
    let r7 = t8 + rest;
    lemma_concat_assoc(e7, t8, rest);
    lemma_concat_assoc(p7, e7, r7);
    lemma_u32_le_len(m.show_player_count);
    let p8 = p7 + e7;
    let r8 = t9 + rest;
    lemma_concat_assoc(e8, t9, rest);
    lemma_concat_assoc(p8, e8, r8);
    lemma_u32_le_len(i32_to_u32(m.offer_min_days));
    let p9 = p8 + e8;
    let r9 = t10 + rest;
    lemma_concat_assoc(e9, t10, rest);
    lemma_concat_assoc(p9, e9, r9);
    lemma_u32_le_len(i32_to_u32(m.offer_min_views));
    let p10 = p9 + e9;
    let r10 = t11 + rest;
    lemma_concat_assoc(e10, t11, rest);
    lemma_concat_assoc(p10, e10, r10);
    lemma_u32_le_len(i32_to_u32(m.offer_cooldown_minutes));
    let p11 = p10 + e10;
    let r11 = t12 + rest;
    lemma_concat_assoc(e11, t12, rest);
    lemma_concat_assoc(p11, e11, r11);
    lemma_u32_le_len(i32_to_u32(m.web_offer_number));
    let p12 = p11 + e11;
    let r12 = t13 + rest;
    lemma_concat_assoc(e12, t13, rest);
    lemma_concat_assoc(p12, e12, r12);
    lemma_u32_le_roundtrip(i32_to_u32(m.web_offer_min_days), r12, p12);
    lemma_i32_roundtrip(m.web_offer_min_days);
    assert(p12.len() == i + 48);
    assert(m.web_offer_min_days == le_i32(s, i + 48));
    let p13 = p12 + e12;
    let r13 = t14 + rest;
    lemma_concat_assoc(e13, t14, rest);
    lemma_concat_assoc(p13, e13, r13);
    lemma_u32_le_roundtrip(i32_to_u32(m.web_offer_min_views), r13, p13);
    lemma_i32_roundtrip(m.web_offer_min_views);
    assert(p13.len() == i + 52);
    assert(m.web_offer_min_views == le_i32(s, i + 52));
    let p14 = p13 + e13;
    let r14 = t15 + rest;
    lemma_concat_assoc(e14, t15, rest);
    lemma_concat_assoc(p14, e14, r14);
    lemma_u32_le_roundtrip(i32_to_u32(m.web_offer_cooldown_minutes), r14, p14);
    lemma_i32_roundtrip(m.web_offer_cooldown_minutes);
    assert(p14.len() == i + 56);
    assert(m.web_offer_cooldown_minutes == le_i32(s, i + 56));
    let p15 = p14 + e14;
}

/// Reading back the bytes written for a `PlayerLoginReply` gives the same record.
pub proof fn player_login_reply_roundtrip(m: PlayerLoginReply, pre: Seq<u8>, rest: Seq<u8>)
    ensures
        m.decodes_from(pre + m.spec_bytes() + rest, pre.len() as int),
        m.spec_bytes().len() == 60,
{
    player_login_reply_len(m);
    player_login_reply_roundtrip_part0(m, pre, rest);
    player_login_reply_roundtrip_part1(m, pre, rest);
    player_login_reply_roundtrip_part2(m, pre, rest);
}

/// The fields of a `PlayerLoginReply` stand on the wire packed in their declared order:
/// reading the bytes of its fields laid out one after another, wherever they
/// stand, gives each field back from its own place.
pub proof fn player_login_reply_wire_layout(m: PlayerLoginReply, pre: Seq<u8>, rest: Seq<u8>)
    ensures
        m.decodes_from(
            pre + (
                m.base_reply.spec_bytes()
                    + (seq![m.unk1]
                    + (seq![m.unk2]
                    + (i32_le_bytes(m.lsid)
                    + (m.key@
                    + (seq![m.unknown_pad]
                    + (i32_le_bytes(m.failed_attempts)
                    + (u32_le_bytes(m.show_player_count)
                    + (i32_le_bytes(m.offer_min_days)
                    + (i32_le_bytes(m.offer_min_views)
                    + (i32_le_bytes(m.offer_cooldown_minutes)
                    + (i32_le_bytes(m.web_offer_number)
                    + (i32_le_bytes(m.web_offer_min_days)
                    + (i32_le_bytes(m.web_offer_min_views)
                    + (i32_le_bytes(m.web_offer_cooldown_minutes)))))))))))))))
            ) + rest,
            pre.len() as int,
        ),
{
    player_login_reply_roundtrip(m, pre, rest);
}

/// Request to enter a world server, client to server (opcode 0x000d).
#[derive(Debug, Clone, Copy)]
pub struct PlayEverquestRequest {
    pub base_header: LoginBaseMessage,
    pub server_number: u32,
}

impl PlayEverquestRequest {
    /// Bytes the record occupies on the wire.
    pub open spec fn spec_size() -> nat {
        14
    }

    /// The wire bytes of the record, fields in order.
    pub open spec fn spec_bytes(&self) -> Seq<u8> {
        self.base_header.spec_bytes() + (u32_le_bytes(self.server_number))
    }

    /// `self` is the record stored at `s[i..i + 14]`.
    pub open spec fn decodes_from(&self, s: Seq<u8>, i: int) -> bool {
        &&& self.base_header.decodes_from(s, i + 0)
        &&& self.server_number == le_u32(s, i + 10)
    }

    /// Decodes the record stored at `b[i..i + 14]`.
    pub fn read_at(b: &[u8], i: usize) -> (r: PlayEverquestRequest)
        requires
            i + 14 <= b@.len(),
        ensures
            r.decodes_from(b@, i as int),
    {
        let _len = b.len();
        let base_header = LoginBaseMessage::read_at(b, i + 0);
        let server_number = read_u32_le(b, i + 10);
        PlayEverquestRequest { base_header, server_number }
    }

    /// Decodes the record at the front of `b`; `None` when `b` is shorter than 14 bytes.
    pub fn read(b: &[u8]) -> (r: Option<PlayEverquestRequest>)
        ensures
            r is Some <==> b@.len() >= 14,
            r matches Some(m) ==> m.decodes_from(b@, 0),
    {
        if b.len() < 14 {
            return None;
        }
        Some(Self::read_at(b, 0))
    }

    /// Appends the wire bytes of the record.
    pub fn write_to(&self, v: &mut Vec<u8>)
        ensures
            final(v)@ == old(v)@ + self.spec_bytes(),
    {
        let ghost t1 = u32_le_bytes(self.server_number);
        let ghost w0 = v@;
        self.base_header.write_to(v);
        proof {
            lemma_concat_assoc(w0, self.base_header.spec_bytes(), t1);
        }
        let ghost w1 = v@;
        push_u32_le(v, self.server_number);
        proof {
            lemma_concat_empty(v@);
        }
    }

    /// The wire bytes of the record.
    pub fn write(&self) -> (r: Vec<u8>)
        ensures
            r@ == self.spec_bytes(),
    {
        let mut v: Vec<u8> = Vec::new();
        self.write_to(&mut v);
        assert(v@ =~= self.spec_bytes());
        v
    }
}

proof fn play_everquest_request_len(m: PlayEverquestRequest)
    ensures
        m.spec_bytes().len() == 14,
{
    login_base_message_len(m.base_header);
    lemma_u32_le_len(m.server_number);
}

/// Reading back the bytes written for a `PlayEverquestRequest` gives the same record.
pub proof fn play_everquest_request_roundtrip(m: PlayEverquestRequest, pre: Seq<u8>, rest: Seq<u8>)
    ensures
        m.decodes_from(pre + m.spec_bytes() + rest, pre.len() as int),
        m.spec_bytes().len() == 14,
{
    play_everquest_request_len(m);
    let e0 = m.base_header.spec_bytes();
    let e1 = u32_le_bytes(m.server_number);
    let t2 = Seq::<u8>::empty();
    let t1 = e1;
    let t0 = e0 + t1;
    let s = pre + m.spec_bytes() + rest;
    let i = pre.len() as int;
    lemma_concat_assoc(pre, t0, rest);
    let p0 = pre;
    let r0 = t1 + rest;
    lemma_concat_assoc(e0, t1, rest);
    lemma_concat_assoc(p0, e0, r0);
    login_base_message_roundtrip(m.base_header, p0, r0);
    assert(p0.len() == i + 0);
    assert(m.base_header.decodes_from(s, i + 0));
    let p1 = p0 + e0;
    let r1 = t2 + rest;
    lemma_concat_assoc(e1, t2, rest);
    lemma_concat_assoc(p1, e1, r1);
    lemma_u32_le_roundtrip(m.server_number, r1, p1);
    assert(p1.len() == i + 10);
    assert(m.server_number == le_u32(s, i + 10));
    let p2 = p1 + e1;
}

/// The fields of a `PlayEverquestRequest` stand on the wire packed in their declared order:
/// reading the bytes of its fields laid out one after another, wherever they
/// stand, gives each field back from its own place.
pub proof fn play_everquest_request_wire_layout(m: PlayEverquestRequest, pre: Seq<u8>, rest: Seq<u8>)
    ensures
        m.decodes_from(
            pre + (
                m.base_header.spec_bytes() + (u32_le_bytes(m.server_number))
            ) + rest,
            pre.len() as int,
        ),
{
    play_everquest_request_roundtrip(m, pre, rest);
}

/// Answer to a world server request, server to client (opcode 0x0021).
#[derive(Debug, Clone, Copy)]
pub struct PlayEverquestResponse {
    pub base_header: LoginBaseMessage,
    pub base_reply: LoginBaseReplyMessage,
    pub server_number: u32,
}

impl PlayEverquestResponse {
    /// Bytes the record occupies on the wire.
    pub open spec fn spec_size() -> nat {
        20
    }

    /// The wire bytes of the record, fields in order.
    pub open spec fn spec_bytes(&self) -> Seq<u8> {
        self.base_header.spec_bytes() + (self.base_reply.spec_bytes() + (u32_le_bytes(self.server_number)))
    }

    /// `self` is the record stored at `s[i..i + 20]`.
    pub open spec fn decodes_from(&self, s: Seq<u8>, i: int) -> bool {
        &&& self.base_header.decodes_from(s, i + 0)
        &&& self.base_reply.decodes_from(s, i + 10)
        &&& self.server_number == le_u32(s, i + 16)
    }

    /// Decodes the record stored at `b[i..i + 20]`.
    pub fn read_at(b: &[u8], i: usize) -> (r: PlayEverquestResponse)
        requires
            i + 20 <= b@.len(),
        ensures
            r.decodes_from(b@, i as int),
    {
        let _len = b.len();
        let base_header = LoginBaseMessage::read_at(b, i + 0);
        let base_reply = LoginBaseReplyMessage::read_at(b, i + 10);
        let server_number = read_u32_le(b, i + 16);
        PlayEverquestResponse { base_header, base_reply, server_number }
    }

    /// Decodes the record at the front of `b`; `None` when `b` is shorter than 20 bytes.
    pub fn read(b: &[u8]) -> (r: Option<PlayEverquestResponse>)
        ensures
            r is Some <==> b@.len() >= 20,
            r matches Some(m) ==> m.decodes_from(b@, 0),
    {
        if b.len() < 20 {
            return None;
        }
        Some(Self::read_at(b, 0))
    }

    /// Appends the wire bytes of the record.
    pub fn write_to(&self, v: &mut Vec<u8>)
        ensures
            final(v)@ == old(v)@ + self.spec_bytes(),
    {
        let ghost t2 = u32_le_bytes(self.server_number);
        let ghost t1 = self.base_reply.spec_bytes() + t2;
        let ghost w0 = v@;
        self.base_header.write_to(v);
        proof {
            lemma_concat_assoc(w0, self.base_header.spec_bytes(), t1);
        }
        let ghost w1 = v@;
        self.base_reply.write_to(v);
        proof {
            lemma_concat_assoc(w1, self.base_reply.spec_bytes(), t2);
        }
        let ghost w2 = v@;
        push_u32_le(v, self.server_number);
        proof {
            lemma_concat_empty(v@);
        }
    }

    /// The wire bytes of the record.
    pub fn write(&self) -> (r: Vec<u8>)
        ensures
            r@ == self.spec_bytes(),
    {
        let mut v: Vec<u8> = Vec::new();
        self.write_to(&mut v);
        assert(v@ =~= self.spec_bytes());
        v
    }
}

proof fn play_everquest_response_len(m: PlayEverquestResponse)
    ensures
        m.spec_bytes().len() == 20,
{
    login_base_message_len(m.base_header);
    login_base_reply_message_len(m.base_reply);
    lemma_u32_le_len(m.server_number);
}

/// Reading back the bytes written for a `PlayEverquestResponse` gives the same record.
pub proof fn play_everquest_response_roundtrip(m: PlayEverquestResponse, pre: Seq<u8>, rest: Seq<u8>)
    ensures
        m.decodes_from(pre + m.spec_bytes() + rest, pre.len() as int),
        m.spec_bytes().len() == 20,
{
    play_everquest_response_len(m);
    let e0 = m.base_header.spec_bytes();
    let e1 = m.base_reply.spec_bytes();
    let e2 = u32_le_bytes(m.server_number);
    let t3 = Seq::<u8>::empty();
    let t2 = e2;
    let t1 = e1 + t2;
    let t0 = e0 + t1;
    let s = pre + m.spec_bytes() + rest;
    let i = pre.len() as int;
    lemma_concat_assoc(pre, t0, rest);
    let p0 = pre;
    let r0 = t1 + rest;
    lemma_concat_assoc(e0, t1, rest);
    lemma_concat_assoc(p0, e0, r0);
    login_base_message_roundtrip(m.base_header, p0, r0);
    assert(p0.len() == i + 0);
    assert(m.base_header.decodes_from(s, i + 0));
    let p1 = p0 + e0;
    let r1 = t2 + rest;
    lemma_concat_assoc(e1, t2, rest);
    lemma_concat_assoc(p1, e1, r1);
    login_base_reply_message_roundtrip(m.base_reply, p1, r1);
    assert(p1.len() == i + 10);
    assert(m.base_reply.decodes_from(s, i + 10));
    let p2 = p1 + e1;
    let r2 = t3 + rest;
    lemma_concat_assoc(e2, t3, rest);
    lemma_concat_assoc(p2, e2, r2);
    lemma_u32_le_roundtrip(m.server_number, r2, p2);
    assert(p2.len() == i + 16);
    assert(m.server_number == le_u32(s, i + 16));
    let p3 = p2 + e2;
}

/// The fields of a `PlayEverquestResponse` stand on the wire packed in their declared order:
/// reading the bytes of its fields laid out one after another, wherever they
/// stand, gives each field back from its own place.
pub proof fn play_everquest_response_wire_layout(m: PlayEverquestResponse, pre: Seq<u8>, rest: Seq<u8>)
    ensures
        m.decodes_from(
            pre + (
                m.base_header.spec_bytes() + (m.base_reply.spec_bytes() + (u32_le_bytes(m.server_number)))
            ) + rest,
            pre.len() as int,
        ),
{
    play_everquest_response_roundtrip(m, pre, rest);
}

/// Server list request, client to server.
#[derive(Debug, Clone, Copy)]
pub struct ServerListRequest {
    pub unknown: u32,
}

impl ServerListRequest {
    /// Bytes the record occupies on the wire.
    pub open spec fn spec_size() -> nat {
        4
    }

    /// The wire bytes of the record, fields in order.
    pub open spec fn spec_bytes(&self) -> Seq<u8> {
        u32_le_bytes(self.unknown)
    }

    /// `self` is the record stored at `s[i..i + 4]`.
    pub open spec fn decodes_from(&self, s: Seq<u8>, i: int) -> bool {
        &&& self.unknown == le_u32(s, i + 0)
    }

    /// Decodes the record stored at `b[i..i + 4]`.
    pub fn read_at(b: &[u8], i: usize) -> (r: ServerListRequest)
        requires
            i + 4 <= b@.len(),
        ensures
            r.decodes_from(b@, i as int),
    {
        let _len = b.len();
        let unknown = read_u32_le(b, i + 0);
        ServerListRequest { unknown }
    }

    /// Decodes the record at the front of `b`; `None` when `b` is shorter than 4 bytes.
    pub fn read(b: &[u8]) -> (r: Option<ServerListRequest>)
        ensures
            r is Some <==> b@.len() >= 4,
            r matches Some(m) ==> m.decodes_from(b@, 0),
    {
        if b.len() < 4 {
            return None;
        }
        Some(Self::read_at(b, 0))
    }

    /// Appends the wire bytes of the record.
    pub fn write_to(&self, v: &mut Vec<u8>)
        ensures
            final(v)@ == old(v)@ + self.spec_bytes(),
    {
        let ghost w0 = v@;
        push_u32_le(v, self.unknown);
        proof {
            lemma_concat_empty(v@);
        }
    }

    /// The wire bytes of the record.
    pub fn write(&self) -> (r: Vec<u8>)
        ensures
            r@ == self.spec_bytes(),
    {
        let mut v: Vec<u8> = Vec::new();
        self.write_to(&mut v);
        assert(v@ =~= self.spec_bytes());
        v
    }
}

proof fn server_list_request_len(m: ServerListRequest)
    ensures
        m.spec_bytes().len() == 4,
{
    lemma_u32_le_len(m.unknown);
}

/// Reading back the bytes written for a `ServerListRequest` gives the same record.
pub proof fn server_list_request_roundtrip(m: ServerListRequest, pre: Seq<u8>, rest: Seq<u8>)
    ensures
        m.decodes_from(pre + m.spec_bytes() + rest, pre.len() as int),
        m.spec_bytes().len() == 4,
{
    server_list_request_len(m);
    let e0 = u32_le_bytes(m.unknown);
    let t1 = Seq::<u8>::empty();
    let t0 = e0;
    let s = pre + m.spec_bytes() + rest;
    let i = pre.len() as int;
    lemma_concat_assoc(pre, t0, rest);
    let p0 = pre;
    let r0 = t1 + rest;
    lemma_concat_assoc(e0, t1, rest);
    lemma_concat_assoc(p0, e0, r0);
    lemma_u32_le_roundtrip(m.unknown, r0, p0);
    assert(p0.len() == i + 0);
    assert(m.unknown == le_u32(s, i + 0));
    let p1 = p0 + e0;
}

/// The fields of a `ServerListRequest` stand on the wire packed in their declared order:
/// reading the bytes of its fields laid out one after another, wherever they
/// stand, gives each field back from its own place.
pub proof fn server_list_request_wire_layout(m: ServerListRequest, pre: Seq<u8>, rest: Seq<u8>)
    ensures
        m.decodes_from(
            pre + (
                u32_le_bytes(m.unknown)
            ) + rest,
            pre.len() as int,
        ),
{
    server_list_request_roundtrip(m, pre, rest);
}
} // verus!

