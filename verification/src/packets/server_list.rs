//! The login server's list of world servers: entries with NUL-terminated
//! strings, and the reply that carries a counted list of them.
use vstd::prelude::*;
use vstd::utf8::{encode_utf8, encode_utf8_valid_utf8, encode_utf8_decode_utf8};
use crate::bytes::{
    le_i32, i32_le_bytes, i32_to_u32, read_i32_le, push_i32_le, push_slice, copy_range,
    lemma_u32_le_roundtrip, lemma_i32_roundtrip, lemma_concat_assoc,
};
use crate::text::{lossy_text, string_from_utf8_lossy};
use crate::packets::login::{
    LoginBaseMessage, LoginBaseReplyMessage, login_base_message_roundtrip,
    login_base_reply_message_roundtrip,
};

verus! {

/// The bytes from `pos` up to the first NUL, and the position after that
/// NUL; `None` when no NUL follows `pos`.
#[verifier::opaque]
pub open spec fn nul_terminated_at(s: Seq<u8>, pos: int) -> Option<(Seq<u8>, int)>
    decreases s.len() - pos,
{
    if pos < 0 || pos >= s.len() {
        None
    } else if s[pos] == 0 {
        Some((Seq::empty(), pos + 1))
    } else {
        match nul_terminated_at(s, pos + 1) {
            Some((b, e)) => Some((seq![s[pos]] + b, e)),
            None => None,
        }
    }
}

/// The little-endian `i32` at `pos` and the position after it.
pub open spec fn i32_at(s: Seq<u8>, pos: int) -> Option<(i32, int)> {
    if 0 <= pos && pos + 4 <= s.len() {
        Some((le_i32(s, pos), pos + 4))
    } else {
        None
    }
}

/// A server entry as it stands on the wire, strings as their raw bytes.
pub ghost struct ServerEntryWire {
    pub ip: Seq<u8>,
    pub server_type: i32,
    pub server_id: i32,
    pub server_name: Seq<u8>,
    pub country_code: Seq<u8>,
    pub language_code: Seq<u8>,
    pub server_status: i32,
    pub player_count: i32,
}

/// The server entry stored from `pos` on, and the position after it.
#[verifier::opaque]
pub open spec fn server_entry_at(s: Seq<u8>, pos: int) -> Option<(ServerEntryWire, int)> {
    match nul_terminated_at(s, pos) {
        None => None,
        Some((ip, p1)) => match i32_at(s, p1) {
            None => None,
            Some((server_type, p2)) => match i32_at(s, p2) {
                None => None,
                Some((server_id, p3)) => match nul_terminated_at(s, p3) {
                    None => None,
                    Some((server_name, p4)) => match nul_terminated_at(s, p4) {
                        None => None,
                        Some((country_code, p5)) => match nul_terminated_at(s, p5) {
                            None => None,
                            Some((language_code, p6)) => match i32_at(s, p6) {
                                None => None,
                                Some((server_status, p7)) => match i32_at(s, p7) {
                                    None => None,
                                    Some((player_count, p8)) => Some(
                                        (
                                            ServerEntryWire {
                                                ip,
                                                server_type,
                                                server_id,
                                                server_name,
                                                country_code,
                                                language_code,
                                                server_status,
                                                player_count,
                                            },
                                            p8,
                                        ),
                                    ),
                                },
                            },
                        },
                    },
                },
            },
        },
    }
}

/// `n` server entries stored one after another from `pos` on, and the
/// position after the last.
pub open spec fn server_entries_at(s: Seq<u8>, pos: int, n: nat) -> Option<(Seq<ServerEntryWire>, int)>
    decreases n,
{
    if n == 0 {
        Some((Seq::empty(), pos))
    } else {
        match server_entry_at(s, pos) {
            None => None,
            Some((e, p)) => match server_entries_at(s, p, (n - 1) as nat) {
                None => None,
                Some((es, q)) => Some((seq![e] + es, q)),
            },
        }
    }
}

/// One world server of the list.
pub struct LoginClientServerData {
    /// Dotted IP address text.
    pub ip: String,
    pub server_type: i32,
    pub server_id: i32,
    pub server_name: String,
    pub country_code: String,
    pub language_code: String,
    pub server_status: i32,
    pub player_count: i32,
}

impl LoginClientServerData {
    /// `self` holds the entry `w`, its strings decoded leniently.
    pub open spec fn shows(&self, w: ServerEntryWire) -> bool {
        &&& self.ip@ == lossy_text(w.ip)
        &&& self.server_type == w.server_type
        &&& self.server_id == w.server_id
        &&& self.server_name@ == lossy_text(w.server_name)
        &&& self.country_code@ == lossy_text(w.country_code)
        &&& self.language_code@ == lossy_text(w.language_code)
        &&& self.server_status == w.server_status
        &&& self.player_count == w.player_count
    }

    /// The wire bytes: each string in UTF-8 followed by a NUL, integers
    /// little-endian.
    pub open spec fn spec_bytes(&self) -> Seq<u8> {
        encode_utf8(self.ip@) + (seq![0u8] + (i32_le_bytes(self.server_type) + (i32_le_bytes(
            self.server_id,
        ) + (encode_utf8(self.server_name@) + (seq![0u8] + (encode_utf8(self.country_code@) + (
        seq![0u8] + (encode_utf8(self.language_code@) + (seq![0u8] + (i32_le_bytes(
            self.server_status,
        ) + i32_le_bytes(self.player_count)))))))))))
    }

    /// None of the strings holds a NUL character, so each ends where its
    /// terminator stands.
    pub open spec fn nul_free(&self) -> bool {
        &&& !encode_utf8(self.ip@).contains(0u8)
        &&& !encode_utf8(self.server_name@).contains(0u8)
        &&& !encode_utf8(self.country_code@).contains(0u8)
        &&& !encode_utf8(self.language_code@).contains(0u8)
    }

    /// Decodes the entry stored at `b[pos..]`, returning it and the position
    /// after it; `None` when a string has no terminator or an integer is cut
    /// short.
    pub fn read_at(b: &[u8], pos: usize) -> (r: Option<(LoginClientServerData, usize)>)
        ensures
            match (r, server_entry_at(b@, pos as int)) {
                (Some((m, e)), Some((w, q))) => m.shows(w) && e == q,
                (None, None) => true,
                _ => false,
            },
    {
        reveal(server_entry_at);
        let (ip, p1) = match read_nul_terminated(b, pos) {
            Some(x) => x,
            None => return None,
        };
        let (server_type, p2) = match read_i32_at(b, p1) {
            Some(x) => x,
            None => return None,
        };
        let (server_id, p3) = match read_i32_at(b, p2) {
            Some(x) => x,
            None => return None,
        };
        let (server_name, p4) = match read_nul_terminated(b, p3) {
            Some(x) => x,
            None => return None,
        };
        let (country_code, p5) = match read_nul_terminated(b, p4) {
            Some(x) => x,
            None => return None,
        };
        let (language_code, p6) = match read_nul_terminated(b, p5) {
            Some(x) => x,
            None => return None,
        };
        let (server_status, p7) = match read_i32_at(b, p6) {
            Some(x) => x,
            None => return None,
        };
        let (player_count, p8) = match read_i32_at(b, p7) {
            Some(x) => x,
            None => return None,
        };
        Some(
            (
                LoginClientServerData {
                    ip: string_from_utf8_lossy(ip.as_slice()),
                    server_type,
                    server_id,
                    server_name: string_from_utf8_lossy(server_name.as_slice()),
                    country_code: string_from_utf8_lossy(country_code.as_slice()),
                    language_code: string_from_utf8_lossy(language_code.as_slice()),
                    server_status,
                    player_count,
                },
                p8,
            ),
        )
    }

    /// Appends the wire bytes of the entry.
    pub fn write_to(&self, v: &mut Vec<u8>)
        ensures
            final(v)@ == old(v)@ + self.spec_bytes(),
    {
        let ghost v0 = v@;
        push_slice(v, self.ip.as_str().as_bytes());
        v.push(0u8);
        push_i32_le(v, self.server_type);
        push_i32_le(v, self.server_id);
        push_slice(v, self.server_name.as_str().as_bytes());
        v.push(0u8);
        push_slice(v, self.country_code.as_str().as_bytes());
        v.push(0u8);
        push_slice(v, self.language_code.as_str().as_bytes());
        v.push(0u8);
        push_i32_le(v, self.server_status);
        push_i32_le(v, self.player_count);
        assert(v@ =~= v0 + self.spec_bytes());
    }
}

fn read_i32_at(b: &[u8], pos: usize) -> (r: Option<(i32, usize)>)
    ensures
        match (r, i32_at(b@, pos as int)) {
            (Some((x, e)), Some((y, q))) => x == y && e == q,
            (None, None) => true,
            _ => false,
        },
{
    if pos <= b.len() && b.len() - pos >= 4 {
        Some((read_i32_le(b, pos), pos + 4))
    } else {
        None
    }
}

/// The bytes from `pos` up to the first NUL and the position after it.
pub fn read_nul_terminated(b: &[u8], pos: usize) -> (r: Option<(Vec<u8>, usize)>)
    ensures
        match (r, nul_terminated_at(b@, pos as int)) {
            (Some((v, e)), Some((w, q))) => v@ == w && e == q,
            (None, None) => true,
            _ => false,
        },
{
    let n = b.len();
    let mut j = pos;
    while j < n && b[j] != 0
        invariant
            n == b@.len(),
            pos <= j,
            forall|k: int| pos <= k < j ==> b@[k] != 0,
        decreases n - j,
    {
        j = j + 1;
    }
    proof {
        lemma_nul_terminated_scan(b@, pos as int, j as int);
    }
    if j >= n {
        None
    } else {
        Some((copy_range(b, pos, j), j + 1))
    }
}

proof fn lemma_nul_terminated_scan(s: Seq<u8>, pos: int, j: int)
    requires
        0 <= pos <= j,
        forall|k: int| pos <= k < j ==> s[k] != 0,
        j >= s.len() || s[j] == 0,
    ensures
        j >= s.len() ==> nul_terminated_at(s, pos) is None,
        j < s.len() ==> nul_terminated_at(s, pos) == Some((s.subrange(pos, j), j + 1)),
    decreases j - pos,
{
    reveal(nul_terminated_at);
    if pos < j && pos < s.len() {
        lemma_nul_terminated_scan(s, pos + 1, j);
        if j < s.len() {
            assert(seq![s[pos]] + s.subrange(pos + 1, j) =~= s.subrange(pos, j));
        }
    } else if pos == j && j < s.len() {
        assert(s.subrange(pos, j) =~= Seq::<u8>::empty());
    }
}

impl LoginClientServerData {
    /// The wire form of the entry.
    pub open spec fn wire(&self) -> ServerEntryWire {
        ServerEntryWire {
            ip: encode_utf8(self.ip@),
            server_type: self.server_type,
            server_id: self.server_id,
            server_name: encode_utf8(self.server_name@),
            country_code: encode_utf8(self.country_code@),
            language_code: encode_utf8(self.language_code@),
            server_status: self.server_status,
            player_count: self.player_count,
        }
    }
}

/// A NUL-free byte string written with its terminating NUL, wherever it
/// stands in a buffer and whatever follows it, reads back whole, and reading
/// goes on right after the NUL.
pub proof fn nul_terminated_string_reads_back(pre: Seq<u8>, b: Seq<u8>, rest: Seq<u8>)
    requires
        !b.contains(0u8),
    ensures
        nul_terminated_at(pre + b + seq![0u8] + rest, pre.len() as int) == Some(
            (b, pre.len() + b.len() + 1int),
        ),
{
    let s = pre + b + seq![0u8] + rest;
    let pos = pre.len() as int;
    let j = pos + b.len();
    assert forall|k: int| pos <= k < j implies s[k] != 0 by {
        assert(s[k] == b[k - pos]);
        if s[k] == 0 {
            assert(b.contains(0u8));
        }
    }
    lemma_nul_terminated_scan(s, pos, j);
    assert(s.subrange(pos, j) =~= b);
}

proof fn lemma_i32_at(pre: Seq<u8>, v: i32, rest: Seq<u8>)
    ensures
        i32_at(pre + i32_le_bytes(v) + rest, pre.len() as int) == Some((v, pre.len() + 4int)),
        (pre + i32_le_bytes(v) + rest).len() == pre.len() + 4 + rest.len(),
{
    lemma_u32_le_roundtrip(i32_to_u32(v), rest, pre);
    lemma_i32_roundtrip(v);
}

proof fn lemma_text_roundtrip(c: Seq<char>)
    ensures
        lossy_text(encode_utf8(c)) == c,
{
    encode_utf8_valid_utf8(c);
    encode_utf8_decode_utf8(c);
}

proof fn lemma_entry_shows_wire(x: LoginClientServerData)
    ensures
        x.shows(x.wire()),
{
    lemma_text_roundtrip(x.ip@);
    lemma_text_roundtrip(x.server_name@);
    lemma_text_roundtrip(x.country_code@);
    lemma_text_roundtrip(x.language_code@);
}

/// Reading back the bytes written for a server entry whose strings hold no
/// NUL gives the same entry.
pub proof fn login_client_server_data_roundtrip(x: LoginClientServerData, pre: Seq<u8>, rest: Seq<u8>)
    requires
        x.nul_free(),
    ensures
        server_entry_at(pre + x.spec_bytes() + rest, pre.len() as int) == Some(
            (x.wire(), pre.len() as int + x.spec_bytes().len()),
        ),
        x.shows(x.wire()),
{
    lemma_entry_bytes(x, pre, rest);
    lemma_entry_shows_wire(x);
}

proof fn lemma_entry_from_fields(
    s: Seq<u8>,
    w: ServerEntryWire,
    q0: int,
    q1: int,
    q2: int,
    q3: int,
    q4: int,
    q5: int,
    q6: int,
    q7: int,
    q8: int,
)
    requires
        nul_terminated_at(s, q0) == Some((w.ip, q1)),
        i32_at(s, q1) == Some((w.server_type, q2)),
        i32_at(s, q2) == Some((w.server_id, q3)),
        nul_terminated_at(s, q3) == Some((w.server_name, q4)),
        nul_terminated_at(s, q4) == Some((w.country_code, q5)),
        nul_terminated_at(s, q5) == Some((w.language_code, q6)),
        i32_at(s, q6) == Some((w.server_status, q7)),
        i32_at(s, q7) == Some((w.player_count, q8)),
    ensures
        server_entry_at(s, q0) == Some((w, q8)),
{
    reveal(server_entry_at);
}

proof fn lemma_entry_bytes(x: LoginClientServerData, pre: Seq<u8>, rest: Seq<u8>)
    requires
        x.nul_free(),
    ensures
        server_entry_at(pre + x.spec_bytes() + rest, pre.len() as int) == Some(
            (x.wire(), pre.len() as int + x.spec_bytes().len()),
        ),
{
    let e0 = encode_utf8(x.ip@);
    let e1 = seq![0u8];
    let e2 = i32_le_bytes(x.server_type);
    let e3 = i32_le_bytes(x.server_id);
    let e4 = encode_utf8(x.server_name@);
    let e5 = seq![0u8];
    let e6 = encode_utf8(x.country_code@);
    let e7 = seq![0u8];
    let e8 = encode_utf8(x.language_code@);
    let e9 = seq![0u8];
    let e10 = i32_le_bytes(x.server_status);
    let e11 = i32_le_bytes(x.player_count);
    let t11 = e11;
    let t10 = e10 + t11;
    let t9 = e9 + t10;
    let t8 = e8 + t9;
    let t7 = e7 + t8;
    let t6 = e6 + t7;
    let t5 = e5 + t6;
    let t4 = e4 + t5;
    let t3 = e3 + t4;
    let t2 = e2 + t3;
    let t1 = e1 + t2;
    let t0 = e0 + t1;
    let s = pre + x.spec_bytes() + rest;
    lemma_concat_assoc(pre, t0, rest);
    let p0 = pre;
    let r0 = t1 + rest;
    lemma_concat_assoc(e0, t1, rest);
    lemma_concat_assoc(p0, e0, r0);
    let p1 = p0 + e0;
    let r1 = t2 + rest;
    lemma_concat_assoc(e1, t2, rest);
    lemma_concat_assoc(p1, e1, r1);
    nul_terminated_string_reads_back(p0, e0, r1);
    let p2 = p1 + e1;
    assert(nul_terminated_at(s, pre.len() as int) == Some((e0, p2.len() as int)));
    let r2 = t3 + rest;
    lemma_concat_assoc(e2, t3, rest);
    lemma_concat_assoc(p2, e2, r2);
    lemma_i32_at(p2, x.server_type, r2);
    let p3 = p2 + e2;
    assert(i32_at(s, p2.len() as int) == Some((x.server_type, p3.len() as int)));
    let r3 = t4 + rest;
    lemma_concat_assoc(e3, t4, rest);
    lemma_concat_assoc(p3, e3, r3);
    lemma_i32_at(p3, x.server_id, r3);
    let p4 = p3 + e3;
    assert(i32_at(s, p3.len() as int) == Some((x.server_id, p4.len() as int)));
    let r4 = t5 + rest;
    lemma_concat_assoc(e4, t5, rest);
    lemma_concat_assoc(p4, e4, r4);
    let p5 = p4 + e4;
    let r5 = t6 + rest;
    lemma_concat_assoc(e5, t6, rest);
    lemma_concat_assoc(p5, e5, r5);
    nul_terminated_string_reads_back(p4, e4, r5);
    let p6 = p5 + e5;
    assert(nul_terminated_at(s, p4.len() as int) == Some((e4, p6.len() as int)));
    let r6 = t7 + rest;
    lemma_concat_assoc(e6, t7, rest);
    lemma_concat_assoc(p6, e6, r6);
    let p7 = p6 + e6;
    let r7 = t8 + rest;
    lemma_concat_assoc(e7, t8, rest);
    lemma_concat_assoc(p7, e7, r7);
    nul_terminated_string_reads_back(p6, e6, r7);
    let p8 = p7 + e7;
    assert(nul_terminated_at(s, p6.len() as int) == Some((e6, p8.len() as int)));
    let r8 = t9 + rest;
    lemma_concat_assoc(e8, t9, rest);
    lemma_concat_assoc(p8, e8, r8);
    let p9 = p8 + e8;
    let r9 = t10 + rest;
    lemma_concat_assoc(e9, t10, rest);
    lemma_concat_assoc(p9, e9, r9);
    nul_terminated_string_reads_back(p8, e8, r9);
    let p10 = p9 + e9;
    assert(nul_terminated_at(s, p8.len() as int) == Some((e8, p10.len() as int)));
    let r10 = t11 + rest;
    lemma_concat_assoc(e10, t11, rest);
    lemma_concat_assoc(p10, e10, r10);
    lemma_i32_at(p10, x.server_status, r10);
    let p11 = p10 + e10;
    assert(i32_at(s, p10.len() as int) == Some((x.server_status, p11.len() as int)));
    let r11 = rest;
    lemma_concat_assoc(p11, e11, r11);
    lemma_i32_at(p11, x.player_count, r11);
    assert(i32_at(s, p11.len() as int) == Some((x.player_count, p11.len() + 4int)));
    assert(x.spec_bytes() == t0);
    assert(p11.len() + 4 == pre.len() + x.spec_bytes().len());
    lemma_entry_from_fields(
        s,
        x.wire(),
        pre.len() as int,
        p2.len() as int,
        p3.len() as int,
        p4.len() as int,
        p6.len() as int,
        p8.len() as int,
        p10.len() as int,
        p11.len() as int,
        p11.len() + 4int,
    );
}

/// The bytes of a server entry as the login server sends it: the IP text and
/// its NUL, the server type and the server id (little-endian `i32`), the
/// server name, the country code and the language code each with its NUL,
/// then the status and the player count (little-endian `i32`).
pub open spec fn entry_wire_bytes(
    ip: Seq<u8>,
    server_type: i32,
    server_id: i32,
    server_name: Seq<u8>,
    country_code: Seq<u8>,
    language_code: Seq<u8>,
    server_status: i32,
    player_count: i32,
) -> Seq<u8> {
    ip + (seq![0u8] + (i32_le_bytes(server_type) + (i32_le_bytes(server_id) + (server_name + (seq![
        0u8,
    ] + (country_code + (seq![0u8] + (language_code + (seq![0u8] + (i32_le_bytes(server_status)
        + i32_le_bytes(player_count)))))))))))
}

/// Reading a server entry laid out as the login server sends it (see
/// `entry_wire_bytes`), wherever it stands, gives an entry whose every field
/// comes from its own place: the type from the first integer, the id from
/// the second, the status and the player count from the last two, and the
/// texts from their strings.
#[verifier::spinoff_prover]
#[verifier::rlimit(80)]
pub proof fn server_entry_wire_layout(
    pre: Seq<u8>,
    ip: Seq<u8>,
    server_type: i32,
    server_id: i32,
    server_name: Seq<u8>,
    country_code: Seq<u8>,
    language_code: Seq<u8>,
    server_status: i32,
    player_count: i32,
    rest: Seq<u8>,
)
    requires
        !ip.contains(0u8),
        !server_name.contains(0u8),
        !country_code.contains(0u8),
        !language_code.contains(0u8),
    ensures
        ({
            let e = entry_wire_bytes(
                ip,
                server_type,
                server_id,
                server_name,
                country_code,
                language_code,
                server_status,
                player_count,
            );
            let r = server_entry_at(pre + e + rest, pre.len() as int);
            &&& r matches Some((w, q))
            &&& q == pre.len() + e.len()
            &&& forall|x: LoginClientServerData| #[trigger] x.shows(w) ==> {
                &&& x.server_type == server_type
                &&& x.server_id == server_id
                &&& x.server_status == server_status
                &&& x.player_count == player_count
                &&& x.ip@ == lossy_text(ip)
                &&& x.server_name@ == lossy_text(server_name)
                &&& x.country_code@ == lossy_text(country_code)
                &&& x.language_code@ == lossy_text(language_code)
            }
        }),
{
    let e = entry_wire_bytes(
        ip,
        server_type,
        server_id,
        server_name,
        country_code,
        language_code,
        server_status,
        player_count,
    );
    let e0 = ip;
    let e1 = seq![0u8];
    let e2 = i32_le_bytes(server_type);
    let e3 = i32_le_bytes(server_id);
    let e4 = server_name;
    let e5 = seq![0u8];
    let e6 = country_code;
    let e7 = seq![0u8];
    let e8 = language_code;
    let e9 = seq![0u8];
    let e10 = i32_le_bytes(server_status);
    let e11 = i32_le_bytes(player_count);
    let t11 = e11;
    let t10 = e10 + t11;
    let t9 = e9 + t10;
    let t8 = e8 + t9;
    let t7 = e7 + t8;
    let t6 = e6 + t7;
    let t5 = e5 + t6;
    let t4 = e4 + t5;
    let t3 = e3 + t4;
    let t2 = e2 + t3;
    let t1 = e1 + t2;
    let t0 = e0 + t1;
    let s = pre + e + rest;
    lemma_concat_assoc(pre, t0, rest);
    let p0 = pre;
    let r0 = t1 + rest;
    lemma_concat_assoc(e0, t1, rest);
    lemma_concat_assoc(p0, e0, r0);
    let p1 = p0 + e0;
    let r1 = t2 + rest;
    lemma_concat_assoc(e1, t2, rest);
    lemma_concat_assoc(p1, e1, r1);
    nul_terminated_string_reads_back(p0, e0, r1);
    let p2 = p1 + e1;
    assert(nul_terminated_at(s, pre.len() as int) == Some((e0, p2.len() as int)));
    let r2 = t3 + rest;
    lemma_concat_assoc(e2, t3, rest);
    lemma_concat_assoc(p2, e2, r2);
    lemma_i32_at(p2, server_type, r2);
    let p3 = p2 + e2;
    assert(i32_at(s, p2.len() as int) == Some((server_type, p3.len() as int)));
    let r3 = t4 + rest;
    lemma_concat_assoc(e3, t4, rest);
    lemma_concat_assoc(p3, e3, r3);
    lemma_i32_at(p3, server_id, r3);
    let p4 = p3 + e3;
    assert(i32_at(s, p3.len() as int) == Some((server_id, p4.len() as int)));
    let r4 = t5 + rest;
    lemma_concat_assoc(e4, t5, rest);
    lemma_concat_assoc(p4, e4, r4);
    let p5 = p4 + e4;
    let r5 = t6 + rest;
    lemma_concat_assoc(e5, t6, rest);
    lemma_concat_assoc(p5, e5, r5);
    nul_terminated_string_reads_back(p4, e4, r5);
    let p6 = p5 + e5;
    assert(nul_terminated_at(s, p4.len() as int) == Some((e4, p6.len() as int)));
    let r6 = t7 + rest;
    lemma_concat_assoc(e6, t7, rest);
    lemma_concat_assoc(p6, e6, r6);
    let p7 = p6 + e6;
    let r7 = t8 + rest;
    lemma_concat_assoc(e7, t8, rest);
    lemma_concat_assoc(p7, e7, r7);
    nul_terminated_string_reads_back(p6, e6, r7);
    let p8 = p7 + e7;
    assert(nul_terminated_at(s, p6.len() as int) == Some((e6, p8.len() as int)));
    let r8 = t9 + rest;
    lemma_concat_assoc(e8, t9, rest);
    lemma_concat_assoc(p8, e8, r8);
    let p9 = p8 + e8;
    let r9 = t10 + rest;
    lemma_concat_assoc(e9, t10, rest);
    lemma_concat_assoc(p9, e9, r9);
    nul_terminated_string_reads_back(p8, e8, r9);
    let p10 = p9 + e9;
    assert(nul_terminated_at(s, p8.len() as int) == Some((e8, p10.len() as int)));
    let r10 = t11 + rest;
    lemma_concat_assoc(e10, t11, rest);
    lemma_concat_assoc(p10, e10, r10);
    lemma_i32_at(p10, server_status, r10);
    let p11 = p10 + e10;
    assert(i32_at(s, p10.len() as int) == Some((server_status, p11.len() as int)));
    let r11 = rest;
    lemma_concat_assoc(p11, e11, r11);
    lemma_i32_at(p11, player_count, r11);
    assert(i32_at(s, p11.len() as int) == Some((player_count, p11.len() + 4int)));
    assert(e == t0);
    let w = ServerEntryWire {
        ip,
        server_type,
        server_id,
        server_name,
        country_code,
        language_code,
        server_status,
        player_count,
    };
    assert(p11.len() + 4 == pre.len() + e.len());
    lemma_entry_from_fields(
        s,
        w,
        pre.len() as int,
        p2.len() as int,
        p3.len() as int,
        p4.len() as int,
        p6.len() as int,
        p8.len() as int,
        p10.len() as int,
        p11.len() as int,
        p11.len() + 4int,
    );
}

/// Writing a server entry lays it out as the login server sends one (see
/// `entry_wire_bytes`): its texts in UTF-8, the type before the id, the
/// status before the player count.
pub proof fn server_entry_write_layout(x: LoginClientServerData)
    ensures
        x.spec_bytes() == entry_wire_bytes(
            encode_utf8(x.ip@),
            x.server_type,
            x.server_id,
            encode_utf8(x.server_name@),
            encode_utf8(x.country_code@),
            encode_utf8(x.language_code@),
            x.server_status,
            x.player_count,
        ),
{
}

/// The wire bytes of each entry, in order.
pub open spec fn servers_bytes(v: Seq<LoginClientServerData>) -> Seq<u8>
    decreases v.len(),
{
    if v.len() == 0 {
        Seq::empty()
    } else {
        v[0].spec_bytes() + servers_bytes(v.drop_first())
    }
}

/// The wire forms of each entry, in order.
pub open spec fn wires(v: Seq<LoginClientServerData>) -> Seq<ServerEntryWire> {
    v.map_values(|x: LoginClientServerData| x.wire())
}

proof fn lemma_servers_roundtrip(v: Seq<LoginClientServerData>, pre: Seq<u8>, rest: Seq<u8>)
    requires
        forall|k: int| 0 <= k < v.len() ==> (#[trigger] v[k]).nul_free(),
    ensures
        server_entries_at(pre + servers_bytes(v) + rest, pre.len() as int, v.len()) == Some(
            (wires(v), pre.len() as int + servers_bytes(v).len()),
        ),
    decreases v.len(),
{
    if v.len() == 0 {
        assert(wires(v) =~= Seq::<ServerEntryWire>::empty());
        lemma_concat_assoc(pre, Seq::empty(), rest);
        assert(pre + Seq::<u8>::empty() =~= pre);
    } else {
        let head = v[0].spec_bytes();
        let tail = servers_bytes(v.drop_first());
        assert(v[0].nul_free());
        lemma_concat_assoc(pre, head, tail + rest);
        lemma_concat_assoc(head, tail, rest);
        lemma_concat_assoc(pre, head + tail, rest);
        login_client_server_data_roundtrip(v[0], pre, tail + rest);
        assert forall|k: int| 0 <= k < v.drop_first().len() implies (
        #[trigger] v.drop_first()[k]).nul_free() by {
            assert(v.drop_first()[k] == v[k + 1]);
        }
        lemma_servers_roundtrip(v.drop_first(), pre + head, rest);
        let whole = pre + servers_bytes(v) + rest;
        assert(whole == (pre + head) + tail + rest);
        assert(server_entry_at(whole, pre.len() as int) == Some((v[0].wire(), (pre + head).len() as int)));
        assert(server_entries_at(whole, (pre + head).len() as int, v.drop_first().len()) == Some(
            (wires(v.drop_first()), (pre + head).len() as int + tail.len()),
        ));
        assert(wires(v) =~= seq![v[0].wire()] + wires(v.drop_first()));
    }
}

/// The server list carried at the front of `s`: the entries that follow the
/// 20-byte header, as many as its count says; `None` when the count is
/// negative or the entries are cut short.
pub open spec fn server_list_at(s: Seq<u8>) -> Option<(Seq<ServerEntryWire>, int)> {
    if s.len() < 20 {
        None
    } else if le_i32(s, 16) < 0 {
        None
    } else {
        server_entries_at(s, 20, le_i32(s, 16) as nat)
    }
}

/// The login server's answer to a server list request.
pub struct ServerListReply {
    pub base_header: LoginBaseMessage,
    pub base_reply: LoginBaseReplyMessage,
    pub server_count: i32,
    pub servers: Vec<LoginClientServerData>,
}

impl ServerListReply {
    /// The wire bytes: header, outcome, count, then each entry.
    pub open spec fn spec_bytes(&self) -> Seq<u8> {
        self.base_header.spec_bytes() + (self.base_reply.spec_bytes() + (i32_le_bytes(
            self.server_count,
        ) + servers_bytes(self.servers@)))
    }

    /// `self` is the reply stored at the front of `s`, whose entries are `ws`.
    pub open spec fn decodes_from(&self, s: Seq<u8>, ws: Seq<ServerEntryWire>) -> bool {
        &&& self.base_header.decodes_from(s, 0)
        &&& self.base_reply.decodes_from(s, 10)
        &&& self.server_count == le_i32(s, 16)
        &&& self.servers@.len() == ws.len()
        &&& forall|k: int| 0 <= k < ws.len() ==> (#[trigger] self.servers@[k]).shows(ws[k])
    }

    /// Decodes the reply at the front of `b`: `None` when the header is cut
    /// short, the count is negative, or an entry cannot be read.
    pub fn read(b: &[u8]) -> (r: Option<ServerListReply>)
        ensures
            match (r, server_list_at(b@)) {
                (Some(m), Some((ws, _))) => m.decodes_from(b@, ws),
                (None, None) => true,
                _ => false,
            },
    {
        if b.len() < 20 {
            return None;
        }
        let base_header = LoginBaseMessage::read_at(b, 0);
        let base_reply = LoginBaseReplyMessage::read_at(b, 10);
        let server_count = read_i32_le(b, 16);
        if server_count < 0 {
            return None;
        }
        let count = server_count as u32;
        let mut servers: Vec<LoginClientServerData> = Vec::new();
        let mut pos: usize = 20;
        let mut k: u32 = 0;
        let ghost mut acc: Seq<ServerEntryWire> = Seq::empty();
        while k < count
            invariant
                k <= count,
                count == server_count,
                server_count == le_i32(b@, 16),
                b@.len() >= 20,
                servers@.len() == acc.len(),
                forall|j: int| 0 <= j < acc.len() ==> (#[trigger] servers@[j]).shows(acc[j]),
                server_entries_at(b@, 20, count as nat) == match server_entries_at(
                    b@,
                    pos as int,
                    (count - k) as nat,
                ) {
                    Some((es, q)) => Some((acc + es, q)),
                    None => None,
                },
            decreases count - k,
        {
            match LoginClientServerData::read_at(b, pos) {
                Some((entry, next)) => {
                    let ghost w = (server_entry_at(b@, pos as int)->0).0;
                    proof {
                        let rest = server_entries_at(b@, next as int, (count - k - 1) as nat);
                        if let Some((es, q)) = rest {
                            assert(acc + (seq![w] + es) =~= (acc + seq![w]) + es);
                        }
                    }
                    servers.push(entry);
                    proof {
                        acc = acc + seq![w];
                    }
                    pos = next;
                    k = k + 1;
                },
                None => {
                    return None;
                },
            }
        }
        proof {
            assert(acc + Seq::<ServerEntryWire>::empty() =~= acc);
        }
        Some(ServerListReply { base_header, base_reply, server_count, servers })
    }

    /// The wire bytes of the reply.
    pub fn write(&self) -> (r: Vec<u8>)
        ensures
            r@ == self.spec_bytes(),
    {
        let mut v: Vec<u8> = Vec::new();
        self.base_header.write_to(&mut v);
        self.base_reply.write_to(&mut v);
        push_i32_le(&mut v, self.server_count);
        let ghost head = v@;
        let mut k: usize = 0;
        assert(self.servers@.skip(0) =~= self.servers@);
        while k < self.servers.len()
            invariant
                k <= self.servers@.len(),
                v@ + servers_bytes(self.servers@.skip(k as int)) == head + servers_bytes(self.servers@),
            decreases self.servers@.len() - k,
        {
            let ghost before = v@;
            self.servers[k].write_to(&mut v);
            proof {
                let rest_k = self.servers@.skip(k as int);
                assert(rest_k.drop_first() =~= self.servers@.skip(k + 1));
                assert(rest_k[0] == self.servers@[k as int]);
                lemma_concat_assoc(before, self.servers@[k as int].spec_bytes(), servers_bytes(self.servers@.skip(k + 1)));
            }
            k = k + 1;
        }
        proof {
            assert(self.servers@.skip(k as int) =~= Seq::<LoginClientServerData>::empty());
            assert(v@ + Seq::<u8>::empty() =~= v@);
            assert(self.servers@.skip(0) =~= self.servers@);
        }
        assert(v@ =~= self.spec_bytes());
        v
    }
}

/// Reading back the bytes written for a server list reply whose count is the
/// number of its entries, and whose strings hold no NUL, gives the same
/// reply.
pub proof fn server_list_reply_roundtrip(x: ServerListReply, rest: Seq<u8>)
    requires
        x.server_count == x.servers@.len(),
        forall|k: int| 0 <= k < x.servers@.len() ==> (#[trigger] x.servers@[k]).nul_free(),
    ensures
        server_list_at(x.spec_bytes() + rest) == Some(
            (wires(x.servers@), x.spec_bytes().len() as int),
        ),
        x.decodes_from(x.spec_bytes() + rest, wires(x.servers@)),
{
    let e0 = x.base_header.spec_bytes();
    let e1 = x.base_reply.spec_bytes();
    let e2 = i32_le_bytes(x.server_count);
    let e3 = servers_bytes(x.servers@);
    let s = x.spec_bytes() + rest;
    let em = Seq::<u8>::empty();
    assert(s =~= em + e0 + (e1 + e2 + e3 + rest));
    login_base_message_roundtrip(x.base_header, em, e1 + e2 + e3 + rest);
    assert(s =~= (em + e0) + e1 + (e2 + e3 + rest));
    login_base_reply_message_roundtrip(x.base_reply, em + e0, e2 + e3 + rest);
    assert(s =~= (em + e0 + e1) + e2 + (e3 + rest));
    lemma_i32_at(em + e0 + e1, x.server_count, e3 + rest);
    assert(s =~= (em + e0 + e1 + e2) + e3 + rest);
    lemma_servers_roundtrip(x.servers@, em + e0 + e1 + e2, rest);
    assert forall|k: int| 0 <= k < x.servers@.len() implies (#[trigger] x.servers@[k]).shows(
        wires(x.servers@)[k],
    ) by {
        login_client_server_data_roundtrip(x.servers@[k], em, em);
    }
}

/// A server list reply on the wire: the 10-byte message header, the 6-byte
/// outcome, the entry count (little-endian `i32`) and the entries one after
/// another. Reading such bytes gives the header, outcome and count from
/// their places and the entries in their order.
pub proof fn server_list_reply_wire_layout(x: ServerListReply, rest: Seq<u8>)
    requires
        x.server_count == x.servers@.len(),
        forall|k: int| 0 <= k < x.servers@.len() ==> (#[trigger] x.servers@[k]).nul_free(),
    ensures
        ({
            let s = x.base_header.spec_bytes() + x.base_reply.spec_bytes() + i32_le_bytes(x.server_count)
                + servers_bytes(x.servers@) + rest;
            &&& x.decodes_from(s, wires(x.servers@))
            &&& server_list_at(s) matches Some((ws, _))
            &&& ws == wires(x.servers@)
        }),
{
    server_list_reply_roundtrip(x, rest);
    let s = x.base_header.spec_bytes() + x.base_reply.spec_bytes() + i32_le_bytes(x.server_count)
        + servers_bytes(x.servers@) + rest;
    assert(s =~= x.spec_bytes() + rest);
}

} // verus!
