//! Records of the zone server: targeting, position updates, spawns and the
//! player profile.
use vstd::prelude::*;
use crate::bytes::{
    le_u16, le_u32, u16_le_bytes, u32_le_bytes, read_u16_le, read_u32_le, push_u16_le,
    push_u32_le, copy_range, lemma_u32_le_roundtrip, lemma_u16_le_roundtrip,
};
use crate::text::{
    lossy_text, trim_nul, underscores_to_spaces, trim_nul_bytes, spaces_for_underscores,
    string_from_utf8_lossy,
};

verus! {

/// The low-`bits` mask.
pub open spec fn bit_mask(bits: u32) -> u64 {
    ((1u64 << bits) - 1u64) as u64
}

/// `r` is the two's-complement value of the low `bits` bits of `value`: it
/// agrees with `value` on those bits and lies in the signed range of a
/// `bits`-bit number.
pub open spec fn is_sign_extension(r: i32, value: u32, bits: u32) -> bool {
    &&& ((r as u32) as u64) & bit_mask(bits) == (value as u64) & bit_mask(bits)
    &&& -((1i64 << ((bits - 1) as u32)) as i64) <= (r as i64)
    &&& (r as i64) < (1i64 << ((bits - 1) as u32))
}

/// The two's-complement value of the low `bits` bits of `value`: those bits
/// as an unsigned number, less 2^`bits` when the top one of them is set.
pub open spec fn sign_extended(value: u32, bits: u32) -> i32 {
    let m = (value as u64) & bit_mask(bits);
    if m >= (1u64 << ((bits - 1) as u32)) {
        (m as i64 - (1i64 << bits)) as i32
    } else {
        m as i32
    }
}

/// Interprets the low `bits` bits of `value` as a two's-complement number.
pub fn sign_extend(value: u32, bits: u32) -> (r: i32)
    requires
        1 <= bits <= 32,
    ensures
        r == sign_extended(value, bits),
        is_sign_extension(r, value, bits),
{
    let shift = 32 - bits;
    let r = ((value << shift) as i32) >> shift;
    assert(is_sign_extension(r, value, bits) && r == sign_extended(value, bits)) by (bit_vector)
        requires
            1 <= bits <= 32,
            shift == 32 - bits,
            r == ((value << shift) as i32) >> shift,
    ;
    r
}

/// Target selection (OP_TargetCommand): the target's spawn id.
#[derive(Debug, Default, PartialEq, Eq, Structural, Clone, Copy)]
pub struct ClientTarget {
    pub target_id: u32,
}

impl ClientTarget {
    /// The wire bytes: the little-endian target id.
    pub fn to_bytes(&self) -> (r: Vec<u8>)
        ensures
            r@ == u32_le_bytes(self.target_id),
    {
        let mut v: Vec<u8> = Vec::new();
        push_u32_le(&mut v, self.target_id);
        v
    }
}

/// The signed 19-bit coordinate (in eighths of a unit) held in bits
/// `shift..shift + 19` of `packed`.
pub open spec fn coord19(packed: u32, shift: u32) -> i32 {
    sign_extended((packed >> shift) & 0x7FFFF, 19)
}

/// The 12-bit heading held in bits 13..25 of `packed`.
pub open spec fn heading12(packed: u32) -> u32 {
    (packed >> 13u32) & 0xFFF
}

fn read_coord19(packed: u32, shift: u32) -> (r: i32)
    requires
        shift <= 13,
    ensures
        r == coord19(packed, shift),
{
    sign_extend((packed >> shift) & 0x7FFFF, 19)
}

/// Position update of a spawn, server to client (Titanium
/// `PlayerPositionUpdateServer`): coordinates are signed 19-bit fields in
/// eighths of a unit, the heading a raw 12-bit field.
#[derive(Debug, PartialEq, Eq, Structural, Clone, Copy)]
pub struct ClientUpdate {
    pub spawn_id: u16,
    /// X coordinate times 8.
    pub x8: i32,
    /// Y coordinate times 8.
    pub y8: i32,
    /// Z coordinate times 8.
    pub z8: i32,
    /// Heading, raw 12-bit value.
    pub heading_raw: u32,
}

impl ClientUpdate {
    /// Bytes consumed by one update.
    pub open spec fn spec_size() -> nat {
        22
    }

    pub open spec fn spec_read(s: Seq<u8>) -> Option<ClientUpdate> {
        if s.len() >= 22 {
            Some(
                ClientUpdate {
                    spawn_id: le_u16(s, 0),
                    x8: coord19(le_u32(s, 2), 10),
                    y8: coord19(le_u32(s, 6), 0),
                    z8: coord19(le_u32(s, 10), 0),
                    heading_raw: heading12(le_u32(s, 14)),
                },
            )
        } else {
            None
        }
    }

    /// Where reading an update at `pos` of a `len`-byte buffer stops when
    /// the update does not fit: its fields (a `u16`, then five `u32`) are
    /// read one after another, and a field that runs past the end leaves the
    /// position at its own start.
    pub open spec fn spec_fail_pos(pos: int, len: int) -> int {
        if len < pos + 2 {
            pos
        } else if len < pos + 6 {
            pos + 2
        } else if len < pos + 10 {
            pos + 6
        } else if len < pos + 14 {
            pos + 10
        } else if len < pos + 18 {
            pos + 14
        } else {
            pos + 18
        }
    }

    /// Decodes the update at position `*pos` of `b` and moves `*pos` past
    /// its 22 bytes; `None` when fewer than 22 bytes remain there, with
    /// `*pos` at the start of the first field that does not fit (see
    /// `spec_fail_pos`).
    pub fn read(b: &[u8], pos: &mut usize) -> (r: Option<ClientUpdate>)
        ensures
            *old(pos) + Self::spec_size() <= b@.len() ==> r == Self::spec_read(
                b@.subrange(*old(pos) as int, b@.len() as int),
            ) && *final(pos) == *old(pos) + Self::spec_size(),
            *old(pos) + Self::spec_size() > b@.len() ==> r is None && *final(pos)
                == Self::spec_fail_pos(*old(pos) as int, b@.len() as int),
    {
        let start = *pos;
        if start > b.len() || b.len() - start < 22 {
            if start <= b.len() {
                let rem = b.len() - start;
                *pos = if rem < 2 {
                    start
                } else if rem < 6 {
                    start + 2
                } else if rem < 10 {
                    start + 6
                } else if rem < 14 {
                    start + 10
                } else if rem < 18 {
                    start + 14
                } else {
                    start + 18
                };
            }
            return None;
        }
        let rec = &b[start..b.len()];
        let spawn_id = read_u16_le(rec, 0);
        let packed_1 = read_u32_le(rec, 2);
        let packed_2 = read_u32_le(rec, 6);
        let packed_3 = read_u32_le(rec, 10);
        let packed_4 = read_u32_le(rec, 14);
        *pos = start + 22;
        Some(
            ClientUpdate {
                spawn_id,
                x8: read_coord19(packed_1, 10),
                y8: read_coord19(packed_2, 0),
                z8: read_coord19(packed_3, 0),
                heading_raw: (packed_4 >> 13u32) & 0xFFF,
            },
        )
    }
}

/// Position update of the player, client to server (Titanium
/// `PlayerPositionUpdateClient`), with coordinates and deltas already scaled
/// by 8 and truncated to integers.
#[derive(Debug, Default, PartialEq, Eq, Structural, Clone, Copy)]
pub struct ClientUpdateClient {
    pub spawn_id: u16,
    pub sequence: u16,
    /// Y coordinate times 8.
    pub y8: i32,
    /// Z delta times 8.
    pub delta_z8: i32,
    /// X delta times 8.
    pub delta_x8: i32,
    /// Y delta times 8.
    pub delta_y8: i32,
    /// Animation, 10 bits.
    pub animation: u16,
    /// Heading delta, 10 bits.
    pub delta_heading: u16,
    /// X coordinate times 8.
    pub x8: i32,
    /// Z coordinate times 8.
    pub z8: i32,
    /// Heading, 12 bits.
    pub heading: u16,
}

/// The two's-complement bits of `v` kept below `mask`.
pub open spec fn field_bits(v: i32, mask: u32) -> u32 {
    (v as u32) & mask
}

impl ClientUpdateClient {
    /// Bits 0..10 heading delta, 10..29 X.
    pub open spec fn packed_x(self) -> u32 {
        ((self.delta_heading as u32) & 0x3FF) | (field_bits(self.x8, 0x7FFFF) << 10u32)
    }

    /// Bits 0..19 Y, 19..29 animation.
    pub open spec fn packed_y(self) -> u32 {
        field_bits(self.y8, 0x7FFFF) | (((self.animation as u32) & 0x3FF) << 19u32)
    }

    /// Bits 0..19 Z, 19..32 Y delta.
    pub open spec fn packed_z(self) -> u32 {
        field_bits(self.z8, 0x7FFFF) | (field_bits(self.delta_y8, 0x1FFF) << 19u32)
    }

    /// Bits 0..13 X delta, 13..25 heading.
    pub open spec fn packed_heading(self) -> u32 {
        field_bits(self.delta_x8, 0x1FFF) | (((self.heading as u32) & 0xFFF) << 13u32)
    }

    /// Bits 0..13 Z delta.
    pub open spec fn packed_delta_z(self) -> u32 {
        field_bits(self.delta_z8, 0x1FFF)
    }

    pub open spec fn spec_bytes(self) -> Seq<u8> {
        u16_le_bytes(self.spawn_id) + u16_le_bytes(self.sequence) + u32_le_bytes(self.packed_x())
            + u32_le_bytes(self.packed_y()) + u32_le_bytes(self.packed_z()) + u32_le_bytes(
            self.packed_heading(),
        ) + u32_le_bytes(self.packed_delta_z())
    }

    /// The 24 wire bytes of the update.
    pub fn to_bytes(&self) -> (r: Vec<u8>)
        ensures
            r@ == self.spec_bytes(),
    {
        let mut buf: Vec<u8> = Vec::new();
        push_u16_le(&mut buf, self.spawn_id);
        push_u16_le(&mut buf, self.sequence);
        let x_packed = (self.x8 as u32) & 0x7FFFF;
        let dh_packed = (self.delta_heading as u32) & 0x3FF;
        push_u32_le(&mut buf, dh_packed | (x_packed << 10u32));
        let y_packed = (self.y8 as u32) & 0x7FFFF;
        let anim_packed = (self.animation as u32) & 0x3FF;
        push_u32_le(&mut buf, y_packed | (anim_packed << 19u32));
        let z_packed = (self.z8 as u32) & 0x7FFFF;
        let dy_packed = (self.delta_y8 as u32) & 0x1FFF;
        push_u32_le(&mut buf, z_packed | (dy_packed << 19u32));
        let dx_packed = (self.delta_x8 as u32) & 0x1FFF;
        let h_packed = (self.heading as u32) & 0xFFF;
        push_u32_le(&mut buf, dx_packed | (h_packed << 13u32));
        let dz_packed = (self.delta_z8 as u32) & 0x1FFF;
        push_u32_le(&mut buf, dz_packed);
        buf
    }
}

/// A coordinate that fits the signed 19-bit field.
pub open spec fn fits19(v: i32) -> bool {
    -0x40000 <= v < 0x40000
}

proof fn lemma_coord_roundtrip(v: i32, low: u32, shift: u32)
    requires
        fits19(v),
        shift == 0 || shift == 10,
        shift == 10 ==> low < 0x400,
        shift == 0 ==> low & 0x7FFFF == 0,
    ensures
        sign_extended(((low | (((v as u32) & 0x7FFFF) << shift)) >> shift) & 0x7FFFF, 19) == v,
{
    assert(sign_extended(((low | (((v as u32) & 0x7FFFF) << shift)) >> shift) & 0x7FFFF, 19) == v)
        by (bit_vector)
        requires
            -0x40000 <= v < 0x40000,
            shift == 0 || shift == 10,
            shift == 10 ==> low < 0x400,
            shift == 0 ==> low & 0x7FFFF == 0,
    ;
}

proof fn lemma_client_update_words(c: ClientUpdateClient)
    ensures
        ({
            let t = c.spec_bytes().skip(2);
            &&& t.len() == 22
            &&& le_u16(t, 0) == c.sequence
            &&& le_u32(t, 2) == c.packed_x()
            &&& le_u32(t, 6) == c.packed_y()
            &&& le_u32(t, 10) == c.packed_z()
            &&& le_u32(t, 14) == c.packed_heading()
        }),
{
    reveal(u16_le_bytes);
    reveal(u32_le_bytes);
    let t = c.spec_bytes().skip(2);
    let a = u16_le_bytes(c.sequence);
    let b1 = u32_le_bytes(c.packed_x());
    let b2 = u32_le_bytes(c.packed_y());
    let b3 = u32_le_bytes(c.packed_z());
    let b4 = u32_le_bytes(c.packed_heading());
    let b5 = u32_le_bytes(c.packed_delta_z());
    assert(t =~= a + b1 + b2 + b3 + b4 + b5);
    crate::bytes::lemma_u16_le_roundtrip(c.sequence, b1 + b2 + b3 + b4 + b5, Seq::empty());
    assert(t =~= Seq::<u8>::empty() + a + (b1 + b2 + b3 + b4 + b5));
    lemma_u32_le_roundtrip(c.packed_x(), b2 + b3 + b4 + b5, a);
    assert(t =~= a + b1 + (b2 + b3 + b4 + b5));
    lemma_u32_le_roundtrip(c.packed_y(), b3 + b4 + b5, a + b1);
    assert(t =~= (a + b1) + b2 + (b3 + b4 + b5));
    lemma_u32_le_roundtrip(c.packed_z(), b4 + b5, a + b1 + b2);
    assert(t =~= (a + b1 + b2) + b3 + (b4 + b5));
    lemma_u32_le_roundtrip(c.packed_heading(), b5, a + b1 + b2 + b3);
    assert(t =~= (a + b1 + b2 + b3) + b4 + b5);
}

proof fn lemma_client_update_fields(c: ClientUpdateClient)
    requires
        fits19(c.x8),
        fits19(c.y8),
        fits19(c.z8),
    ensures
        coord19(c.packed_x(), 10) == c.x8,
        coord19(c.packed_y(), 0) == c.y8,
        coord19(c.packed_z(), 0) == c.z8,
        heading12(c.packed_heading()) == (c.heading as u32) & 0xFFF,
{
    let an = c.animation as u32;
    let yv = c.y8;
    let zv = c.z8;
    let dy = c.delta_y8 as u32;
    let dx = c.delta_x8 as u32;
    let h = c.heading as u32;
    let dh = c.delta_heading as u32;
    assert(dh & 0x3FF < 0x400) by (bit_vector);
    lemma_coord_roundtrip(c.x8, dh & 0x3FF, 10);
    assert((((an & 0x3FF) << 19u32) & 0x7FFFF) == 0) by (bit_vector);
    lemma_coord_roundtrip(yv, (an & 0x3FF) << 19u32, 0);
    assert(((yv as u32) & 0x7FFFF) | ((an & 0x3FF) << 19u32) == ((an & 0x3FF) << 19u32) | (
    ((yv as u32) & 0x7FFFF) << 0u32)) by (bit_vector);
    assert((((dy & 0x1FFF) << 19u32) & 0x7FFFF) == 0) by (bit_vector);
    lemma_coord_roundtrip(zv, (dy & 0x1FFF) << 19u32, 0);
    assert(((zv as u32) & 0x7FFFF) | ((dy & 0x1FFF) << 19u32) == ((dy & 0x1FFF) << 19u32) | (
    ((zv as u32) & 0x7FFFF) << 0u32)) by (bit_vector);
    assert((((dx & 0x1FFF) | ((h & 0xFFF) << 13u32)) >> 13u32) & 0xFFF == h & 0xFFF) by (bit_vector);
}

/// The client update packs its coordinates and heading in the bit layout
/// that the server update is read with: reading its bytes after the spawn id
/// gives back the coordinates (when they fit 19 signed bits) and the 12-bit
/// heading.
pub proof fn client_update_fields_match_server_layout(c: ClientUpdateClient)
    requires
        fits19(c.x8),
        fits19(c.y8),
        fits19(c.z8),
    ensures
        ClientUpdate::spec_read(c.spec_bytes().skip(2)) == Some(
            ClientUpdate {
                spawn_id: c.sequence,
                x8: c.x8,
                y8: c.y8,
                z8: c.z8,
                heading_raw: (c.heading as u32) & 0xFFF,
            },
        ),
{
    lemma_client_update_words(c);
    lemma_client_update_fields(c);
}

/// The name in a fixed NUL-padded field `s[start..start + 64]`, padding
/// trimmed, decoded leniently.
pub open spec fn name_field(s: Seq<u8>, start: int) -> Seq<char> {
    lossy_text(trim_nul(s.subrange(start, start + 64)))
}

/// A spawn (player, NPC, corpse) as listed by the zone server (Titanium
/// `Spawn_Struct`, 388 bytes): coordinates in eighths of a unit, raw
/// heading, and the display name with underscores shown as spaces.
pub struct SpawnStruct {
    pub name: String,
    /// X coordinate times 8.
    pub x8: i32,
    /// Y coordinate times 8.
    pub y8: i32,
    /// Z coordinate times 8.
    pub z8: i32,
    /// Heading, raw 12-bit value.
    pub heading_raw: u32,
    pub race: u32,
    pub class: u8,
    pub level: u8,
    pub cur_hp: u8,
    pub max_hp: u8,
    pub is_npc: bool,
    pub spawn_id: u32,
}

impl SpawnStruct {
    /// Bytes one spawn record occupies.
    pub open spec fn spec_size() -> nat {
        388
    }

    /// `self` is the spawn recorded at the front of `s`.
    pub open spec fn decodes_from(&self, s: Seq<u8>) -> bool {
        &&& self.name@ == lossy_text(underscores_to_spaces(trim_nul(s.subrange(7, 71))))
        &&& self.x8 == coord19(le_u32(s, 94), 10)
        &&& self.y8 == coord19(le_u32(s, 98), 0)
        &&& self.z8 == coord19(le_u32(s, 102), 0)
        &&& self.heading_raw == heading12(le_u32(s, 106))
        &&& self.level == s[151]
        &&& self.race == le_u32(s, 284)
        &&& self.class == s[331]
        &&& self.spawn_id == le_u32(s, 340)
        &&& self.is_npc == (s[144] != 0)
        &&& self.cur_hp == s[86]
        &&& self.max_hp == s[87]
    }

    /// Where reading a spawn record at `pos` of a `len`-byte buffer stops
    /// when the record does not fit. The 64-byte name (from byte 7) is read
    /// first, as a whole: cut short, it leaves the position at the end of the
    /// buffer. Then come the fields at 94, 98, 102 and 106 (`u32`), 151
    /// (`u8`), 284 (`u32`), 331 (`u8`) and 340 (`u32`); the first that runs
    /// past the end leaves the position at its own start.
    pub open spec fn spec_fail_pos(pos: int, len: int) -> int {
        if len < pos + 71 {
            len
        } else if len < pos + 98 {
            pos + 94
        } else if len < pos + 102 {
            pos + 98
        } else if len < pos + 106 {
            pos + 102
        } else if len < pos + 110 {
            pos + 106
        } else if len < pos + 152 {
            pos + 151
        } else if len < pos + 288 {
            pos + 284
        } else if len < pos + 332 {
            pos + 331
        } else {
            pos + 340
        }
    }

    /// Decodes the spawn record at position `*pos` of `b` and moves `*pos`
    /// to the next record, 388 bytes on. The fields reach up to byte 344 of
    /// the record: `None` when fewer bytes remain, with `*pos` where the
    /// reading stopped (see `spec_fail_pos`).
    pub fn read(b: &[u8], pos: &mut usize) -> (r: Option<SpawnStruct>)
        requires
            *old(pos) + Self::spec_size() <= usize::MAX,
        ensures
            r is Some <==> *old(pos) + 344 <= b@.len(),
            r matches Some(sp) ==> sp.decodes_from(b@.subrange(*old(pos) as int, b@.len() as int)),
            r is Some ==> *final(pos) == *old(pos) + Self::spec_size(),
            r is None ==> *final(pos) == Self::spec_fail_pos(*old(pos) as int, b@.len() as int),
    {
        let start = *pos;
        let len = b.len();
        if start > len || len - start < 344 {
            *pos = if start > len || len - start < 71 {
                len
            } else if len - start < 98 {
                start + 94
            } else if len - start < 102 {
                start + 98
            } else if len - start < 106 {
                start + 102
            } else if len - start < 110 {
                start + 106
            } else if len - start < 152 {
                start + 151
            } else if len - start < 288 {
                start + 284
            } else if len - start < 332 {
                start + 331
            } else {
                start + 340
            };
            return None;
        }
        let b = &b[start..b.len()];
        *pos = start + 388;
        let trimmed = trim_nul_bytes(&b[7..71]);
        let shown = spaces_for_underscores(trimmed.as_slice());
        let name = string_from_utf8_lossy(shown.as_slice());
        let packed_x = read_u32_le(b, 94);
        let packed_y = read_u32_le(b, 98);
        let packed_z = read_u32_le(b, 102);
        let packed_h = read_u32_le(b, 106);
        Some(
            SpawnStruct {
                name,
                x8: read_coord19(packed_x, 10),
                y8: read_coord19(packed_y, 0),
                z8: read_coord19(packed_z, 0),
                heading_raw: (packed_h >> 13u32) & 0xFFF,
                level: b[151],
                race: read_u32_le(b, 284),
                class: b[331],
                spawn_id: read_u32_le(b, 340),
                is_npc: b[144] != 0,
                cur_hp: b[86],
                max_hp: b[87],
            },
        )
    }
}

/// The player's profile as sent by the zone server (read at fixed offsets of
/// the profile packet); the position is kept as the bit patterns of its
/// little-endian `f32` fields.
pub struct PlayerProfile {
    pub name: String,
    pub level: u8,
    pub race: u32,
    pub class: u32,
    pub gender: u32,
    pub cur_hp: u32,
    pub mana: u32,
    pub strength: u32,
    pub sta: u32,
    pub dex: u32,
    pub agi: u32,
    pub intelligence: u32,
    pub wis: u32,
    pub cha: u32,
    pub exp: u32,
    /// The 5120-byte inventory block, kept raw.
    pub inventory_blob: Vec<u8>,
    pub x_bits: u32,
    pub y_bits: u32,
    pub z_bits: u32,
    pub heading_bits: u32,
}

impl PlayerProfile {
    /// `self` is the profile held in the packet `s`.
    pub open spec fn decodes_from(&self, s: Seq<u8>) -> bool {
        &&& self.gender == le_u32(s, 4)
        &&& self.race == le_u32(s, 8)
        &&& self.class == le_u32(s, 12)
        &&& self.level == s[20]
        &&& self.mana == le_u32(s, 2228)
        &&& self.cur_hp == le_u32(s, 2232)
        &&& self.strength == le_u32(s, 2236)
        &&& self.sta == le_u32(s, 2240)
        &&& self.cha == le_u32(s, 2244)
        &&& self.dex == le_u32(s, 2248)
        &&& self.intelligence == le_u32(s, 2252)
        &&& self.agi == le_u32(s, 2256)
        &&& self.wis == le_u32(s, 2260)
        &&& self.inventory_blob@ == s.subrange(7444, 12564)
        &&& self.name@ == name_field(s, 12940)
        &&& self.exp == le_u32(s, 13068)
        &&& self.x_bits == le_u32(s, 13116)
        &&& self.y_bits == le_u32(s, 13120)
        &&& self.z_bits == le_u32(s, 13124)
        &&& self.heading_bits == le_u32(s, 13128)
    }

    /// Bytes of the profile packet that the fields reach.
    pub open spec fn spec_size() -> nat {
        13132
    }

    /// Where reading the profile stops in a packet of `len` bytes too short
    /// for it. The fields are read in order: `u32` at 4, 8 and 12, the level
    /// at 20, nine `u32` from 2228, the 5120-byte inventory at 7444 and the
    /// 64-byte name at 12940, the experience at 13068 and the four position
    /// fields from 13116. A field read by value that runs past the end leaves
    /// the position at its own start; the inventory and the name, read as
    /// whole blocks, leave it at the end of the packet.
    pub open spec fn spec_fail_pos(len: int) -> int {
        if len < 8 {
            4
        } else if len < 12 {
            8
        } else if len < 16 {
            12
        } else if len < 21 {
            20
        } else if len < 2232 {
            2228
        } else if len < 2264 {
            2228 + (len - 2228) / 4 * 4
        } else if len < 13004 {
            len
        } else if len < 13072 {
            13068
        } else if len < 13120 {
            13116
        } else if len < 13124 {
            13120
        } else if len < 13128 {
            13124
        } else {
            13128
        }
    }

    /// Decodes the profile from the packet `b`, its offsets counted from the
    /// start of `b` whatever `*pos` holds, and moves `*pos` to the end of the
    /// last field, byte 13132; `None` when `b` is shorter than that, with
    /// `*pos` where the reading stopped (see `spec_fail_pos`).
    pub fn read(b: &[u8], pos: &mut usize) -> (r: Option<PlayerProfile>)
        ensures
            r is Some <==> b@.len() >= Self::spec_size(),
            r matches Some(p) ==> p.decodes_from(b@),
            r is Some ==> *final(pos) == Self::spec_size(),
            r is None ==> *final(pos) == Self::spec_fail_pos(b@.len() as int),
    {
        let len = b.len();
        if len < 13132 {
            *pos = if len < 8 {
                4
            } else if len < 12 {
                8
            } else if len < 16 {
                12
            } else if len < 21 {
                20
            } else if len < 2232 {
                2228
            } else if len < 2264 {
                2228 + (len - 2228) / 4 * 4
            } else if len < 13004 {
                len
            } else if len < 13072 {
                13068
            } else if len < 13120 {
                13116
            } else if len < 13124 {
                13120
            } else if len < 13128 {
                13124
            } else {
                13128
            };
            return None;
        }
        *pos = 13132;
        let trimmed = trim_nul_bytes(&b[12940..13004]);
        let name = string_from_utf8_lossy(trimmed.as_slice());
        Some(
            PlayerProfile {
                name,
                level: b[20],
                race: read_u32_le(b, 8),
                class: read_u32_le(b, 12),
                gender: read_u32_le(b, 4),
                cur_hp: read_u32_le(b, 2232),
                mana: read_u32_le(b, 2228),
                strength: read_u32_le(b, 2236),
                sta: read_u32_le(b, 2240),
                dex: read_u32_le(b, 2248),
                agi: read_u32_le(b, 2256),
                intelligence: read_u32_le(b, 2252),
                wis: read_u32_le(b, 2260),
                cha: read_u32_le(b, 2244),
                exp: read_u32_le(b, 13068),
                inventory_blob: copy_range(b, 7444, 12564),
                x_bits: read_u32_le(b, 13116),
                y_bits: read_u32_le(b, 13120),
                z_bits: read_u32_le(b, 13124),
                heading_bits: read_u32_le(b, 13128),
            },
        )
    }
}

/// The little-endian `u32` whose four bytes stand at `off` is read back.
proof fn lemma_u32_le_at(s: Seq<u8>, off: int, v: u32)
    requires
        0 <= off,
        off + 4 <= s.len(),
        s.subrange(off, off + 4) == u32_le_bytes(v),
    ensures
        le_u32(s, off) == v,
{
    let pre = s.subrange(0, off);
    let rest = s.subrange(off + 4, s.len() as int);
    assert(s =~= pre + s.subrange(off, off + 4) + rest);
    lemma_u32_le_roundtrip(v, rest, pre);
}

/// Where each number of the player profile stands in its packet: the
/// little-endian `u32` whose bytes stand at `off` is the gender (4), race
/// (8), class (12), mana (2228), current HP (2232), STR (2236), STA (2240),
/// CHA (2244), DEX (2248), INT (2252), AGI (2256), WIS (2260), experience
/// (13068), or the bits of x, y, z and heading (13116, 13120, 13124, 13128).
/// The level is the byte at 20 and the inventory the 5120 bytes from 7444.
pub proof fn profile_fields_stand_at_fixed_offsets(p: PlayerProfile, s: Seq<u8>, off: int, v: u32)
    requires
        p.decodes_from(s),
        s.len() >= 13132,
        0 <= off,
        off + 4 <= s.len(),
        s.subrange(off, off + 4) == u32_le_bytes(v),
    ensures
        off == 4 ==> p.gender == v,
        off == 8 ==> p.race == v,
        off == 12 ==> p.class == v,
        off == 2228 ==> p.mana == v,
        off == 2232 ==> p.cur_hp == v,
        off == 2236 ==> p.strength == v,
        off == 2240 ==> p.sta == v,
        off == 2244 ==> p.cha == v,
        off == 2248 ==> p.dex == v,
        off == 2252 ==> p.intelligence == v,
        off == 2256 ==> p.agi == v,
        off == 2260 ==> p.wis == v,
        off == 13068 ==> p.exp == v,
        off == 13116 ==> p.x_bits == v,
        off == 13120 ==> p.y_bits == v,
        off == 13124 ==> p.z_bits == v,
        off == 13128 ==> p.heading_bits == v,
        p.level == s[20],
        p.inventory_blob@ == s.subrange(7444, 12564),
{
    lemma_u32_le_at(s, off, v);
}

/// Where each field of a spawn record stands: the little-endian `u32` whose
/// bytes stand at `off` holds the packed x (94, from bit 10), y (98) and z
/// (102) as signed 19-bit eighths of a unit, the packed heading (106, 12
/// bits from bit 13), the race (284) or the spawn id (340); the current and
/// maximum HP are the bytes at 86 and 87, the NPC flag the byte at 144, the
/// level the byte at 151 and the class the byte at 331.
pub proof fn spawn_fields_stand_at_fixed_offsets(sp: SpawnStruct, s: Seq<u8>, off: int, v: u32)
    requires
        sp.decodes_from(s),
        s.len() >= 344,
        0 <= off,
        off + 4 <= s.len(),
        s.subrange(off, off + 4) == u32_le_bytes(v),
    ensures
        off == 94 ==> sp.x8 == coord19(v, 10),
        off == 98 ==> sp.y8 == coord19(v, 0),
        off == 102 ==> sp.z8 == coord19(v, 0),
        off == 106 ==> sp.heading_raw == heading12(v),
        off == 284 ==> sp.race == v,
        off == 340 ==> sp.spawn_id == v,
        sp.cur_hp == s[86],
        sp.max_hp == s[87],
        sp.is_npc == (s[144] != 0),
        sp.level == s[151],
        sp.class == s[331],
{
    lemma_u32_le_at(s, off, v);
}

/// A position update on the wire: the spawn id (little-endian `u16`), then
/// four little-endian words holding x (from bit 10), y and z (from bit 0) as
/// signed 19-bit eighths of a unit and the 12-bit heading (from bit 13),
/// then a fifth word. Reading such bytes gives each field from its own word.
pub proof fn client_update_wire_layout(id: u16, w1: u32, w2: u32, w3: u32, w4: u32, w5: u32, rest: Seq<u8>)
    ensures
        ClientUpdate::spec_read(
            u16_le_bytes(id) + u32_le_bytes(w1) + u32_le_bytes(w2) + u32_le_bytes(w3) + u32_le_bytes(w4)
                + u32_le_bytes(w5) + rest,
        ) == Some(
            (ClientUpdate {
                spawn_id: id,
                x8: coord19(w1, 10),
                y8: coord19(w2, 0),
                z8: coord19(w3, 0),
                heading_raw: heading12(w4),
            }),
        ),
{
    let a = u16_le_bytes(id);
    let b = u32_le_bytes(w1);
    let c = u32_le_bytes(w2);
    let d = u32_le_bytes(w3);
    let e = u32_le_bytes(w4);
    let f = u32_le_bytes(w5);
    let s = a + b + c + d + e + f + rest;
    lemma_u16_le_roundtrip(id, b + c + d + e + f + rest, Seq::empty());
    lemma_u32_le_roundtrip(w1, c + d + e + f + rest, a);
    lemma_u32_le_roundtrip(w2, d + e + f + rest, a + b);
    lemma_u32_le_roundtrip(w3, e + f + rest, a + b + c);
    lemma_u32_le_roundtrip(w4, f + rest, a + b + c + d);
    lemma_u32_le_roundtrip(w5, rest, a + b + c + d + e);
    assert(s =~= Seq::<u8>::empty() + a + (b + c + d + e + f + rest));
    assert(s =~= a + b + (c + d + e + f + rest));
    assert(s =~= (a + b) + c + (d + e + f + rest));
    assert(s =~= (a + b + c) + d + (e + f + rest));
    assert(s =~= (a + b + c + d) + e + (f + rest));
}

proof fn lemma_client_update_client_words(c: ClientUpdateClient)
    ensures
        ({
            let b = c.spec_bytes();
            &&& b.len() == 24
            &&& le_u16(b, 0) == c.spawn_id
            &&& le_u16(b, 2) == c.sequence
            &&& le_u32(b, 4) == c.packed_x()
            &&& le_u32(b, 8) == c.packed_y()
            &&& le_u32(b, 12) == c.packed_z()
            &&& le_u32(b, 16) == c.packed_heading()
            &&& le_u32(b, 20) == c.packed_delta_z()
        }),
{
    reveal(u16_le_bytes);
    reveal(u32_le_bytes);
    let b = c.spec_bytes();
    let a0 = u16_le_bytes(c.spawn_id);
    let a = u16_le_bytes(c.sequence);
    let b1 = u32_le_bytes(c.packed_x());
    let b2 = u32_le_bytes(c.packed_y());
    let b3 = u32_le_bytes(c.packed_z());
    let b4 = u32_le_bytes(c.packed_heading());
    let b5 = u32_le_bytes(c.packed_delta_z());
    let e = Seq::<u8>::empty();
    assert(b =~= e + a0 + (a + b1 + b2 + b3 + b4 + b5));
    lemma_u16_le_roundtrip(c.spawn_id, a + b1 + b2 + b3 + b4 + b5, e);
    assert(b =~= a0 + a + (b1 + b2 + b3 + b4 + b5));
    lemma_u16_le_roundtrip(c.sequence, b1 + b2 + b3 + b4 + b5, a0);
    assert(b =~= (a0 + a) + b1 + (b2 + b3 + b4 + b5));
    lemma_u32_le_roundtrip(c.packed_x(), b2 + b3 + b4 + b5, a0 + a);
    assert(b =~= (a0 + a + b1) + b2 + (b3 + b4 + b5));
    lemma_u32_le_roundtrip(c.packed_y(), b3 + b4 + b5, a0 + a + b1);
    assert(b =~= (a0 + a + b1 + b2) + b3 + (b4 + b5));
    lemma_u32_le_roundtrip(c.packed_z(), b4 + b5, a0 + a + b1 + b2);
    assert(b =~= (a0 + a + b1 + b2 + b3) + b4 + b5);
    lemma_u32_le_roundtrip(c.packed_heading(), b5, a0 + a + b1 + b2 + b3);
    assert(b =~= (a0 + a + b1 + b2 + b3 + b4) + b5 + e);
    lemma_u32_le_roundtrip(c.packed_delta_z(), e, a0 + a + b1 + b2 + b3 + b4);
}

/// Where each field of a client position update stands in its 24 bytes:
/// the spawn id and the sequence as little-endian `u16` at 0 and 2; then
/// little-endian words holding, at 4, the heading delta in bits 0..10 and x
/// in bits 10..29; at 8, y in bits 0..19 and the animation in bits 19..29;
/// at 12, z in bits 0..19 and the y delta in bits 19..32; at 16, the x delta
/// in bits 0..13 and the heading in bits 13..25; at 20, the z delta in bits
/// 0..13. Signed values are kept as the low bits of their two's complement.
pub proof fn client_update_client_bit_layout(c: ClientUpdateClient)
    ensures
        ({
            let b = c.spec_bytes();
            &&& b.len() == 24
            &&& le_u16(b, 0) == c.spawn_id
            &&& le_u16(b, 2) == c.sequence
            &&& le_u32(b, 4) & 0x3FF == (c.delta_heading as u32) & 0x3FF
            &&& (le_u32(b, 4) >> 10u32) & 0x7FFFF == (c.x8 as u32) & 0x7FFFF
            &&& le_u32(b, 4) >> 29u32 == 0
            &&& le_u32(b, 8) & 0x7FFFF == (c.y8 as u32) & 0x7FFFF
            &&& (le_u32(b, 8) >> 19u32) & 0x3FF == (c.animation as u32) & 0x3FF
            &&& le_u32(b, 8) >> 29u32 == 0
            &&& le_u32(b, 12) & 0x7FFFF == (c.z8 as u32) & 0x7FFFF
            &&& le_u32(b, 12) >> 19u32 == (c.delta_y8 as u32) & 0x1FFF
            &&& le_u32(b, 16) & 0x1FFF == (c.delta_x8 as u32) & 0x1FFF
            &&& le_u32(b, 16) >> 13u32 == (c.heading as u32) & 0xFFF
            &&& le_u32(b, 20) == (c.delta_z8 as u32) & 0x1FFF
        }),
{
    lemma_client_update_client_words(c);
    let dh = c.delta_heading as u32;
    let x = c.x8 as u32;
    let y = c.y8 as u32;
    let an = c.animation as u32;
    let z = c.z8 as u32;
    let dy = c.delta_y8 as u32;
    let dx = c.delta_x8 as u32;
    let h = c.heading as u32;
    assert(((dh & 0x3FF) | ((x & 0x7FFFF) << 10u32)) & 0x3FF == dh & 0x3FF) by (bit_vector);
    assert((((dh & 0x3FF) | ((x & 0x7FFFF) << 10u32)) >> 10u32) & 0x7FFFF == x & 0x7FFFF) by (bit_vector);
    assert(((dh & 0x3FF) | ((x & 0x7FFFF) << 10u32)) >> 29u32 == 0) by (bit_vector);
    assert(((y & 0x7FFFF) | ((an & 0x3FF) << 19u32)) & 0x7FFFF == y & 0x7FFFF) by (bit_vector);
    assert((((y & 0x7FFFF) | ((an & 0x3FF) << 19u32)) >> 19u32) & 0x3FF == an & 0x3FF) by (bit_vector);
    assert(((y & 0x7FFFF) | ((an & 0x3FF) << 19u32)) >> 29u32 == 0) by (bit_vector);
    assert(((z & 0x7FFFF) | ((dy & 0x1FFF) << 19u32)) & 0x7FFFF == z & 0x7FFFF) by (bit_vector);
    assert(((z & 0x7FFFF) | ((dy & 0x1FFF) << 19u32)) >> 19u32 == dy & 0x1FFF) by (bit_vector);
    assert(((dx & 0x1FFF) | ((h & 0xFFF) << 13u32)) & 0x1FFF == dx & 0x1FFF) by (bit_vector);
    assert(((dx & 0x1FFF) | ((h & 0xFFF) << 13u32)) >> 13u32 == h & 0xFFF) by (bit_vector);
}

} // verus!
