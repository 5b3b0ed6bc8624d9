//! Combat records of the zone server. Their `f32` fields are kept as the
//! bit patterns they have on the wire.
use vstd::prelude::*;
use crate::bytes::{
    le_u16, le_u32, u16_le_bytes, u32_le_bytes, read_u16_le, read_u32_le, push_u16_le,
    push_u32_le, lemma_u8_at, lemma_u16_le_roundtrip, lemma_u32_le_roundtrip,
    lemma_concat_assoc, lemma_concat_empty, lemma_u16_le_len, lemma_u32_le_len,
};

verus! {

/// Melee or spell damage dealt (opcode `Damage`).
#[derive(Debug, Clone, Copy)]
pub struct CombatDamage {
    pub target: u16,
    pub source: u16,
    pub _type: u8,
    pub spell_id: u16,
    pub damage: u32,
    /// Bit pattern of the `f32` force.
    pub force_bits: u32,
    /// Bit pattern of the `f32` hit heading.
    pub hit_heading_bits: u32,
    /// Bit pattern of the `f32` hit pitch.
    pub hit_pitch_bits: u32,
}

impl CombatDamage {
    /// Bytes the record occupies on the wire.
    pub open spec fn spec_size() -> nat {
        23
    }

    /// The wire bytes of the record, fields in order.
    pub open spec fn spec_bytes(&self) -> Seq<u8> {
        u16_le_bytes(self.target)
            + (u16_le_bytes(self.source)
            + (seq![self._type]
            + (u16_le_bytes(self.spell_id)
            + (u32_le_bytes(self.damage)
            + (u32_le_bytes(self.force_bits)
            + (u32_le_bytes(self.hit_heading_bits)
            + (u32_le_bytes(self.hit_pitch_bits))))))))
    }

    /// `self` is the record stored at `s[i..i + 23]`.
    pub open spec fn decodes_from(&self, s: Seq<u8>, i: int) -> bool {
        &&& self.target == le_u16(s, i + 0)
        &&& self.source == le_u16(s, i + 2)
        &&& self._type == s[i + 4]
        &&& self.spell_id == le_u16(s, i + 5)
        &&& self.damage == le_u32(s, i + 7)
        &&& self.force_bits == le_u32(s, i + 11)
        &&& self.hit_heading_bits == le_u32(s, i + 15)
        &&& self.hit_pitch_bits == le_u32(s, i + 19)
    }

    /// Decodes the record stored at `b[i..i + 23]`.
    pub fn read_at(b: &[u8], i: usize) -> (r: CombatDamage)
        requires
            i + 23 <= b@.len(),
        ensures
            r.decodes_from(b@, i as int),
    {
        let _len = b.len();
        let target = read_u16_le(b, i + 0);
        let source = read_u16_le(b, i + 2);
        let _type = b[i + 4];
        let spell_id = read_u16_le(b, i + 5);
        let damage = read_u32_le(b, i + 7);
        let force_bits = read_u32_le(b, i + 11);
        let hit_heading_bits = read_u32_le(b, i + 15);
        let hit_pitch_bits = read_u32_le(b, i + 19);
        CombatDamage { target, source, _type, spell_id, damage, force_bits, hit_heading_bits, hit_pitch_bits }
    }

    /// Decodes the record at the front of `b`; `None` when `b` is shorter than 23 bytes.
    pub fn read(b: &[u8]) -> (r: Option<CombatDamage>)
        ensures
            r is Some <==> b@.len() >= 23,
            r matches Some(m) ==> m.decodes_from(b@, 0),
    {
        if b.len() < 23 {
            return None;
        }
        Some(Self::read_at(b, 0))
    }

    /// Appends the wire bytes of the record.
    pub fn write_to(&self, v: &mut Vec<u8>)
        ensures
            final(v)@ == old(v)@ + self.spec_bytes(),
    {
        let ghost t7 = u32_le_bytes(self.hit_pitch_bits);
        let ghost t6 = u32_le_bytes(self.hit_heading_bits) + t7;
        let ghost t5 = u32_le_bytes(self.force_bits) + t6;
        let ghost t4 = u32_le_bytes(self.damage) + t5;
        let ghost t3 = u16_le_bytes(self.spell_id) + t4;
        let ghost t2 = seq![self._type] + t3;
        let ghost t1 = u16_le_bytes(self.source) + t2;
        let ghost w0 = v@;
        push_u16_le(v, self.target);
        proof {
            lemma_concat_assoc(w0, u16_le_bytes(self.target), t1);
        }
        let ghost w1 = v@;
        push_u16_le(v, self.source);
        proof {
            lemma_concat_assoc(w1, u16_le_bytes(self.source), t2);
        }
        let ghost w2 = v@;
        v.push(self._type);
        proof {
            lemma_concat_assoc(w2, seq![self._type], t3);
        }
        let ghost w3 = v@;
        push_u16_le(v, self.spell_id);
        proof {
            lemma_concat_assoc(w3, u16_le_bytes(self.spell_id), t4);
        }
        let ghost w4 = v@;
        push_u32_le(v, self.damage);
        proof {
            lemma_concat_assoc(w4, u32_le_bytes(self.damage), t5);
        }
        let ghost w5 = v@;
        push_u32_le(v, self.force_bits);
        proof {
            lemma_concat_assoc(w5, u32_le_bytes(self.force_bits), t6);
        }
        let ghost w6 = v@;
        push_u32_le(v, self.hit_heading_bits);
        proof {
            lemma_concat_assoc(w6, u32_le_bytes(self.hit_heading_bits), t7);
        }
        let ghost w7 = v@;
        push_u32_le(v, self.hit_pitch_bits);
        proof {
            lemma_concat_empty(v@);
        }
    }

    /// The wire bytes of the record.
    pub fn write(&self) -> (r: Vec<u8>)
        ensures
            r@ == self.spec_bytes(),
    {
        let mut v: Vec<u8> = Vec::new();
        self.write_to(&mut v);
        assert(v@ =~= self.spec_bytes());
        v
    }
}

proof fn combat_damage_len(m: CombatDamage)
    ensures
        m.spec_bytes().len() == 23,
{
    lemma_u16_le_len(m.target);
    lemma_u16_le_len(m.source);
    lemma_u16_le_len(m.spell_id);
    lemma_u32_le_len(m.damage);
    lemma_u32_le_len(m.force_bits);
    lemma_u32_le_len(m.hit_heading_bits);
    lemma_u32_le_len(m.hit_pitch_bits);
}

/// Reading back the bytes written for a `CombatDamage` gives the same record.
pub proof fn combat_damage_roundtrip(m: CombatDamage, pre: Seq<u8>, rest: Seq<u8>)
    ensures
        m.decodes_from(pre + m.spec_bytes() + rest, pre.len() as int),
        m.spec_bytes().len() == 23,
{
    combat_damage_len(m);
    let e0 = u16_le_bytes(m.target);
    let e1 = u16_le_bytes(m.source);
    let e2 = seq![m._type];
    let e3 = u16_le_bytes(m.spell_id);
    let e4 = u32_le_bytes(m.damage);
    let e5 = u32_le_bytes(m.force_bits);
    let e6 = u32_le_bytes(m.hit_heading_bits);
    let e7 = u32_le_bytes(m.hit_pitch_bits);
    let t8 = Seq::<u8>::empty();
    let t7 = e7;
    let t6 = e6 + t7;
    let t5 = e5 + t6;
    let t4 = e4 + t5;
    let t3 = e3 + t4;
    let t2 = e2 + t3;
    let t1 = e1 + t2;
    let t0 = e0 + t1;
    let s = pre + m.spec_bytes() + rest;
    let i = pre.len() as int;
    lemma_concat_assoc(pre, t0, rest);
    let p0 = pre;
    let r0 = t1 + rest;
    lemma_concat_assoc(e0, t1, rest);
    lemma_concat_assoc(p0, e0, r0);
    lemma_u16_le_roundtrip(m.target, r0, p0);
    assert(p0.len() == i + 0);
    assert(m.target == le_u16(s, i + 0));
    let p1 = p0 + e0;
    let r1 = t2 + rest;
    lemma_concat_assoc(e1, t2, rest);
    lemma_concat_assoc(p1, e1, r1);
    lemma_u16_le_roundtrip(m.source, r1, p1);
    assert(p1.len() == i + 2);
    assert(m.source == le_u16(s, i + 2));
    let p2 = p1 + e1;
    let r2 = t3 + rest;
    lemma_concat_assoc(e2, t3, rest);
    lemma_concat_assoc(p2, e2, r2);
    lemma_u8_at(m._type, p2, r2);
    assert(p2.len() == i + 4);
    assert(m._type == s[i + 4]);
    let p3 = p2 + e2;
    let r3 = t4 + rest;
    lemma_concat_assoc(e3, t4, rest);
    lemma_concat_assoc(p3, e3, r3);
    lemma_u16_le_roundtrip(m.spell_id, r3, p3);
    assert(p3.len() == i + 5);
    assert(m.spell_id == le_u16(s, i + 5));
    let p4 = p3 + e3;
    let r4 = t5 + rest;
    lemma_concat_assoc(e4, t5, rest);
    lemma_concat_assoc(p4, e4, r4);
    lemma_u32_le_roundtrip(m.damage, r4, p4);
    assert(p4.len() == i + 7);
    assert(m.damage == le_u32(s, i + 7));
    let p5 = p4 + e4;
    let r5 = t6 + rest;
    lemma_concat_assoc(e5, t6, rest);
    lemma_concat_assoc(p5, e5, r5);
    lemma_u32_le_roundtrip(m.force_bits, r5, p5);
    assert(p5.len() == i + 11);
    assert(m.force_bits == le_u32(s, i + 11));
    let p6 = p5 + e5;
    let r6 = t7 + rest;
    lemma_concat_assoc(e6, t7, rest);
    lemma_concat_assoc(p6, e6, r6);
    lemma_u32_le_roundtrip(m.hit_heading_bits, r6, p6);
    assert(p6.len() == i + 15);
    assert(m.hit_heading_bits == le_u32(s, i + 15));
    let p7 = p6 + e6;
    let r7 = t8 + rest;
    lemma_concat_assoc(e7, t8, rest);
    lemma_concat_assoc(p7, e7, r7);
    lemma_u32_le_roundtrip(m.hit_pitch_bits, r7, p7);
    assert(p7.len() == i + 19);
    assert(m.hit_pitch_bits == le_u32(s, i + 19));
    let p8 = p7 + e7;
}

/// The fields of a `CombatDamage` stand on the wire packed in their declared order:
/// reading the bytes of its fields laid out one after another, wherever they
/// stand, gives each field back from its own place.
pub proof fn combat_damage_wire_layout(m: CombatDamage, pre: Seq<u8>, rest: Seq<u8>)
    ensures
        m.decodes_from(
            pre + (
                u16_le_bytes(m.target)
                    + (u16_le_bytes(m.source)
                    + (seq![m._type]
                    + (u16_le_bytes(m.spell_id)
                    + (u32_le_bytes(m.damage)
                    + (u32_le_bytes(m.force_bits)
                    + (u32_le_bytes(m.hit_heading_bits)
                    + (u32_le_bytes(m.hit_pitch_bits))))))))
            ) + rest,
            pre.len() as int,
        ),
{
    combat_damage_roundtrip(m, pre, rest);
}

/// An animation or spell cast (opcode `Action`).
#[derive(Debug, Clone, Copy)]
pub struct Action {
    pub target: u16,
    pub source: u16,
    pub level: u16,
    pub instrument_mod: u32,
    /// Bit pattern of the `f32` force.
    pub force_bits: u32,
    /// Bit pattern of the `f32` hit heading.
    pub hit_heading_bits: u32,
    /// Bit pattern of the `f32` hit pitch.
    pub hit_pitch_bits: u32,
    pub _type: u8,
    pub unknown23: u16,
    pub unknown25: u16,
    pub spell: u16,
    pub spell_level: u8,
    pub effect_flag: u8,
}

impl Action {
    /// Bytes the record occupies on the wire.
    pub open spec fn spec_size() -> nat {
        31
    }

    /// The wire bytes of the record, fields in order.
    pub open spec fn spec_bytes(&self) -> Seq<u8> {
        u16_le_bytes(self.target)
            + (u16_le_bytes(self.source)
            + (u16_le_bytes(self.level)
            + (u32_le_bytes(self.instrument_mod)
            + (u32_le_bytes(self.force_bits)
            + (u32_le_bytes(self.hit_heading_bits)
            + (u32_le_bytes(self.hit_pitch_bits)
            + (seq![self._type]
            + (u16_le_bytes(self.unknown23)
            + (u16_le_bytes(self.unknown25)
            + (u16_le_bytes(self.spell)
            + (seq![self.spell_level]
            + (seq![self.effect_flag]))))))))))))
    }

    /// `self` is the record stored at `s[i..i + 31]`.
    pub open spec fn decodes_from(&self, s: Seq<u8>, i: int) -> bool {
        &&& self.target == le_u16(s, i + 0)
        &&& self.source == le_u16(s, i + 2)
        &&& self.level == le_u16(s, i + 4)
        &&& self.instrument_mod == le_u32(s, i + 6)
        &&& self.force_bits == le_u32(s, i + 10)
        &&& self.hit_heading_bits == le_u32(s, i + 14)
        &&& self.hit_pitch_bits == le_u32(s, i + 18)
        &&& self._type == s[i + 22]
        &&& self.unknown23 == le_u16(s, i + 23)
        &&& self.unknown25 == le_u16(s, i + 25)
        &&& self.spell == le_u16(s, i + 27)
        &&& self.spell_level == s[i + 29]
        &&& self.effect_flag == s[i + 30]
    }

    /// Decodes the record stored at `b[i..i + 31]`.
    pub fn read_at(b: &[u8], i: usize) -> (r: Action)
        requires
            i + 31 <= b@.len(),
        ensures
            r.decodes_from(b@, i as int),
    {
        let _len = b.len();
        let target = read_u16_le(b, i + 0);
        let source = read_u16_le(b, i + 2);
        let level = read_u16_le(b, i + 4);
        let instrument_mod = read_u32_le(b, i + 6);
        let force_bits = read_u32_le(b, i + 10);
        let hit_heading_bits = read_u32_le(b, i + 14);
        let hit_pitch_bits = read_u32_le(b, i + 18);
        let _type = b[i + 22];
        let unknown23 = read_u16_le(b, i + 23);
        let unknown25 = read_u16_le(b, i + 25);
        let spell = read_u16_le(b, i + 27);
        let spell_level = b[i + 29];
        let effect_flag = b[i + 30];
        Action { target, source, level, instrument_mod, force_bits, hit_heading_bits, hit_pitch_bits, _type, unknown23, unknown25, spell, spell_level, effect_flag }
    }

    /// Decodes the record at the front of `b`; `None` when `b` is shorter than 31 bytes.
    pub fn read(b: &[u8]) -> (r: Option<Action>)
        ensures
            r is Some <==> b@.len() >= 31,
            r matches Some(m) ==> m.decodes_from(b@, 0),
    {
        if b.len() < 31 {
            return None;
        }
        Some(Self::read_at(b, 0))
    }

    /// Appends the wire bytes of the record.
    pub fn write_to(&self, v: &mut Vec<u8>)
        ensures
            final(v)@ == old(v)@ + self.spec_bytes(),
    {
        let ghost t12 = seq![self.effect_flag];
        let ghost t11 = seq![self.spell_level] + t12;
        let ghost t10 = u16_le_bytes(self.spell) + t11;
        let ghost t9 = u16_le_bytes(self.unknown25) + t10;
        let ghost t8 = u16_le_bytes(self.unknown23) + t9;
        let ghost t7 = seq![self._type] + t8;
        let ghost t6 = u32_le_bytes(self.hit_pitch_bits) + t7;
        let ghost t5 = u32_le_bytes(self.hit_heading_bits) + t6;
        let ghost t4 = u32_le_bytes(self.force_bits) + t5;
        let ghost t3 = u32_le_bytes(self.instrument_mod) + t4;
        let ghost t2 = u16_le_bytes(self.level) + t3;
        let ghost t1 = u16_le_bytes(self.source) + t2;
        let ghost w0 = v@;
        push_u16_le(v, self.target);
        proof {
            lemma_concat_assoc(w0, u16_le_bytes(self.target), t1);
        }
        let ghost w1 = v@;
        push_u16_le(v, self.source);
        proof {
            lemma_concat_assoc(w1, u16_le_bytes(self.source), t2);
        }
        let ghost w2 = v@;
        push_u16_le(v, self.level);
        proof {
            lemma_concat_assoc(w2, u16_le_bytes(self.level), t3);
        }
        let ghost w3 = v@;
        push_u32_le(v, self.instrument_mod);
        proof {
            lemma_concat_assoc(w3, u32_le_bytes(self.instrument_mod), t4);
        }
        let ghost w4 = v@;
        push_u32_le(v, self.force_bits);
        proof {
            lemma_concat_assoc(w4, u32_le_bytes(self.force_bits), t5);
        }
        let ghost w5 = v@;
        push_u32_le(v, self.hit_heading_bits);
        proof {
            lemma_concat_assoc(w5, u32_le_bytes(self.hit_heading_bits), t6);
        }
        let ghost w6 = v@;
        push_u32_le(v, self.hit_pitch_bits);
        proof {
            lemma_concat_assoc(w6, u32_le_bytes(self.hit_pitch_bits), t7);
        }
        let ghost w7 = v@;
        v.push(self._type);
        proof {
            lemma_concat_assoc(w7, seq![self._type], t8);
        }
        let ghost w8 = v@;
        push_u16_le(v, self.unknown23);
        proof {
            lemma_concat_assoc(w8, u16_le_bytes(self.unknown23), t9);
        }
        let ghost w9 = v@;
        push_u16_le(v, self.unknown25);
        proof {
            lemma_concat_assoc(w9, u16_le_bytes(self.unknown25), t10);
        }
        let ghost w10 = v@;
        push_u16_le(v, self.spell);
        proof {
            lemma_concat_assoc(w10, u16_le_bytes(self.spell), t11);
        }
        let ghost w11 = v@;
        v.push(self.spell_level);
        proof {
            lemma_concat_assoc(w11, seq![self.spell_level], t12);
        }
        let ghost w12 = v@;
        v.push(self.effect_flag);
        proof {
            lemma_concat_empty(v@);
        }
    }

    /// The wire bytes of the record.
    pub fn write(&self) -> (r: Vec<u8>)
        ensures
            r@ == self.spec_bytes(),
    {
        let mut v: Vec<u8> = Vec::new();
        self.write_to(&mut v);
        assert(v@ =~= self.spec_bytes());
        v
    }
}

proof fn action_len(m: Action)
    ensures
        m.spec_bytes().len() == 31,
{
    lemma_u16_le_len(m.target);
    lemma_u16_le_len(m.source);
    lemma_u16_le_len(m.level);
    lemma_u32_le_len(m.instrument_mod);
    lemma_u32_le_len(m.force_bits);
    lemma_u32_le_len(m.hit_heading_bits);
    lemma_u32_le_len(m.hit_pitch_bits);
    lemma_u16_le_len(m.unknown23);
    lemma_u16_le_len(m.unknown25);
    lemma_u16_le_len(m.spell);
}

proof fn action_roundtrip_part0(m: Action, pre: Seq<u8>, rest: Seq<u8>)
    ensures
        ({
            let s = pre + m.spec_bytes() + rest;
            let i = pre.len() as int;
            &&& m.target == le_u16(s, i + 0)
            &&& m.source == le_u16(s, i + 2)
            &&& m.level == le_u16(s, i + 4)
            &&& m.instrument_mod == le_u32(s, i + 6)
            &&& m.force_bits == le_u32(s, i + 10)
            &&& m.hit_heading_bits == le_u32(s, i + 14)
        }),
{
    let e0 = u16_le_bytes(m.target);
    let e1 = u16_le_bytes(m.source);
    let e2 = u16_le_bytes(m.level);
    let e3 = u32_le_bytes(m.instrument_mod);
    let e4 = u32_le_bytes(m.force_bits);
    let e5 = u32_le_bytes(m.hit_heading_bits);
    let e6 = u32_le_bytes(m.hit_pitch_bits);
    let e7 = seq![m._type];
    let e8 = u16_le_bytes(m.unknown23);
    let e9 = u16_le_bytes(m.unknown25);
    let e10 = u16_le_bytes(m.spell);
    let e11 = seq![m.spell_level];
    let e12 = seq![m.effect_flag];
    let t13 = Seq::<u8>::empty();
    let t12 = e12;
    let t11 = e11 + t12;
    let t10 = e10 + t11;
    let t9 = e9 + t10;
    let t8 = e8 + t9;
    let t7 = e7 + t8;
    let t6 = e6 + t7;
    let t5 = e5 + t6;
    let t4 = e4 + t5;
    let t3 = e3 + t4;
    let t2 = e2 + t3;
    let t1 = e1 + t2;
    let t0 = e0 + t1;
    let s = pre + m.spec_bytes() + rest;
    let i = pre.len() as int;
    lemma_concat_assoc(pre, t0, rest);
    let p0 = pre;
    let r0 = t1 + rest;
    lemma_concat_assoc(e0, t1, rest);
    lemma_concat_assoc(p0, e0, r0);
    lemma_u16_le_roundtrip(m.target, r0, p0);
    assert(p0.len() == i + 0);
    assert(m.target == le_u16(s, i + 0));
    let p1 = p0 + e0;
    let r1 = t2 + rest;
    lemma_concat_assoc(e1, t2, rest);
    lemma_concat_assoc(p1, e1, r1);
    lemma_u16_le_roundtrip(m.source, r1, p1);
    assert(p1.len() == i + 2);
    assert(m.source == le_u16(s, i + 2));
    let p2 = p1 + e1;
    let r2 = t3 + rest;
    lemma_concat_assoc(e2, t3, rest);
    lemma_concat_assoc(p2, e2, r2);
    lemma_u16_le_roundtrip(m.level, r2, p2);
    assert(p2.len() == i + 4);
    assert(m.level == le_u16(s, i + 4));
    let p3 = p2 + e2;
    let r3 = t4 + rest;
    lemma_concat_assoc(e3, t4, rest);
    lemma_concat_assoc(p3, e3, r3);
    lemma_u32_le_roundtrip(m.instrument_mod, r3, p3);
    assert(p3.len() == i + 6);
    assert(m.instrument_mod == le_u32(s, i + 6));
    let p4 = p3 + e3;
    let r4 = t5 + rest;
    lemma_concat_assoc(e4, t5, rest);
    lemma_concat_assoc(p4, e4, r4);
    lemma_u32_le_roundtrip(m.force_bits, r4, p4);
    assert(p4.len() == i + 10);
    assert(m.force_bits == le_u32(s, i + 10));
    let p5 = p4 + e4;
    let r5 = t6 + rest;
    lemma_concat_assoc(e5, t6, rest);
    lemma_concat_assoc(p5, e5, r5);
    lemma_u32_le_roundtrip(m.hit_heading_bits, r5, p5);
    assert(p5.len() == i + 14);
    assert(m.hit_heading_bits == le_u32(s, i + 14));
    let p6 = p5 + e5;
}

proof fn action_roundtrip_part1(m: Action, pre: Seq<u8>, rest: Seq<u8>)
    ensures
        ({
            let s = pre + m.spec_bytes() + rest;
            let i = pre.len() as int;
            &&& m.hit_pitch_bits == le_u32(s, i + 18)
            &&& m._type == s[i + 22]
            &&& m.unknown23 == le_u16(s, i + 23)
            &&& m.unknown25 == le_u16(s, i + 25)
            &&& m.spell == le_u16(s, i + 27)
            &&& m.spell_level == s[i + 29]
        }),
{
    let e0 = u16_le_bytes(m.target);
    let e1 = u16_le_bytes(m.source);
    let e2 = u16_le_bytes(m.level);
    let e3 = u32_le_bytes(m.instrument_mod);
    let e4 = u32_le_bytes(m.force_bits);
    let e5 = u32_le_bytes(m.hit_heading_bits);
    let e6 = u32_le_bytes(m.hit_pitch_bits);
    let e7 = seq![m._type];
    let e8 = u16_le_bytes(m.unknown23);
    let e9 = u16_le_bytes(m.unknown25);
    let e10 = u16_le_bytes(m.spell);
    let e11 = seq![m.spell_level];
    let e12 = seq![m.effect_flag];
    let t13 = Seq::<u8>::empty();
    let t12 = e12;
    let t11 = e11 + t12;
    let t10 = e10 + t11;
    let t9 = e9 + t10;
    let t8 = e8 + t9;
    let t7 = e7 + t8;
    let t6 = e6 + t7;
    let t5 = e5 + t6;
    let t4 = e4 + t5;
    let t3 = e3 + t4;
    let t2 = e2 + t3;
    let t1 = e1 + t2;
    let t0 = e0 + t1;
    let s = pre + m.spec_bytes() + rest;
    let i = pre.len() as int;
    lemma_concat_assoc(pre, t0, rest);
    let p0 = pre;
    let r0 = t1 + rest;
    lemma_concat_assoc(e0, t1, rest);
    lemma_concat_assoc(p0, e0, r0);
    lemma_u16_le_len(m.target);
    let p1 = p0 + e0;
    let r1 = t2 + rest;
    lemma_concat_assoc(e1, t2, rest);
    lemma_concat_assoc(p1, e1, r1);
    lemma_u16_le_len(m.source);
    let p2 = p1 + e1;
    let r2 = t3 + rest;
    lemma_concat_assoc(e2, t3, rest);
    lemma_concat_assoc(p2, e2, r2);
    lemma_u16_le_len(m.level);
    let p3 = p2 + e2;
    let r3 = t4 + rest;
    lemma_concat_assoc(e3, t4, rest);
    lemma_concat_assoc(p3, e3, r3);
    lemma_u32_le_len(m.instrument_mod);
    let p4 = p3 + e3;
    let r4 = t5 + rest;
    lemma_concat_assoc(e4, t5, rest);
    lemma_concat_assoc(p4, e4, r4);
    lemma_u32_le_len(m.force_bits);
    let p5 = p4 + e4;
    let r5 = t6 + rest;
    lemma_concat_assoc(e5, t6, rest);
    lemma_concat_assoc(p5, e5, r5);
    lemma_u32_le_len(m.hit_heading_bits);
    let p6 = p5 + e5;
    let r6 = t7 + rest;
    lemma_concat_assoc(e6, t7, rest);
    lemma_concat_assoc(p6, e6, r6);
    lemma_u32_le_roundtrip(m.hit_pitch_bits, r6, p6);
    assert(p6.len() == i + 18);
    assert(m.hit_pitch_bits == le_u32(s, i + 18));
    let p7 = p6 + e6;
    let r7 = t8 + rest;
    lemma_concat_assoc(e7, t8, rest);
    lemma_concat_assoc(p7, e7, r7);
    lemma_u8_at(m._type, p7, r7);
    assert(p7.len() == i + 22);
    assert(m._type == s[i + 22]);
    let p8 = p7 + e7;
    let r8 = t9 + rest;
    lemma_concat_assoc(e8, t9, rest);
    lemma_concat_assoc(p8, e8, r8);
    lemma_u16_le_roundtrip(m.unknown23, r8, p8);
    assert(p8.len() == i + 23);
    assert(m.unknown23 == le_u16(s, i + 23));
    let p9 = p8 + e8;
    let r9 = t10 + rest;
    lemma_concat_assoc(e9, t10, rest);
    lemma_concat_assoc(p9, e9, r9);
    lemma_u16_le_roundtrip(m.unknown25, r9, p9);
    assert(p9.len() == i + 25);
    assert(m.unknown25 == le_u16(s, i + 25));
    let p10 = p9 + e9;
    let r10 = t11 + rest;
    lemma_concat_assoc(e10, t11, rest);
    lemma_concat_assoc(p10, e10, r10);
    lemma_u16_le_roundtrip(m.spell, r10, p10);
    assert(p10.len() == i + 27);
    assert(m.spell == le_u16(s, i + 27));
    let p11 = p10 + e10;
    let r11 = t12 + rest;
    lemma_concat_assoc(e11, t12, rest);
    lemma_concat_assoc(p11, e11, r11);
    lemma_u8_at(m.spell_level, p11, r11);
    assert(p11.len() == i + 29);
    assert(m.spell_level == s[i + 29]);
    let p12 = p11 + e11;
}

proof fn action_roundtrip_part2(m: Action, pre: Seq<u8>, rest: Seq<u8>)
    ensures
        ({
            let s = pre + m.spec_bytes() + rest;
            let i = pre.len() as int;
            &&& m.effect_flag == s[i + 30]
        }),
{
    let e0 = u16_le_bytes(m.target);
    let e1 = u16_le_bytes(m.source);
    let e2 = u16_le_bytes(m.level);
    let e3 = u32_le_bytes(m.instrument_mod);
    let e4 = u32_le_bytes(m.force_bits);
    let e5 = u32_le_bytes(m.hit_heading_bits);
    let e6 = u32_le_bytes(m.hit_pitch_bits);
    let e7 = seq![m._type];
    let e8 = u16_le_bytes(m.unknown23);
    let e9 = u16_le_bytes(m.unknown25);
    let e10 = u16_le_bytes(m.spell);
    let e11 = seq![m.spell_level];
    let e12 = seq![m.effect_flag];
    let t13 = Seq::<u8>::empty();
    let t12 = e12;
    let t11 = e11 + t12;
    let t10 = e10 + t11;
    let t9 = e9 + t10;
    let t8 = e8 + t9;
    let t7 = e7 + t8;
    let t6 = e6 + t7;
    let t5 = e5 + t6;
    let t4 = e4 + t5;
    let t3 = e3 + t4;
    let t2 = e2 + t3;
    let t1 = e1 + t2;
    let t0 = e0 + t1;
    let s = pre + m.spec_bytes() + rest;
    let i = pre.len() as int;
    lemma_concat_assoc(pre, t0, rest);
    let p0 = pre;
    let r0 = t1 + rest;
    lemma_concat_assoc(e0, t1, rest);
    lemma_concat_assoc(p0, e0, r0);
    lemma_u16_le_len(m.target);
    let p1 = p0 + e0;
    let r1 = t2 + rest;
    lemma_concat_assoc(e1, t2, rest);
    lemma_concat_assoc(p1, e1, r1);
    lemma_u16_le_len(m.source);
    let p2 = p1 + e1;
    let r2 = t3 + rest;
    lemma_concat_assoc(e2, t3, rest);
    lemma_concat_assoc(p2, e2, r2);
    lemma_u16_le_len(m.level);
    let p3 = p2 + e2;
    let r3 = t4 + rest;
    lemma_concat_assoc(e3, t4, rest);
    lemma_concat_assoc(p3, e3, r3);
    lemma_u32_le_len(m.instrument_mod);
    let p4 = p3 + e3;
    let r4 = t5 + rest;
    lemma_concat_assoc(e4, t5, rest);
    lemma_concat_assoc(p4, e4, r4);
    lemma_u32_le_len(m.force_bits);
    let p5 = p4 + e4;
    let r5 = t6 + rest;
    lemma_concat_assoc(e5, t6, rest);
    lemma_concat_assoc(p5, e5, r5);
    lemma_u32_le_len(m.hit_heading_bits);
    let p6 = p5 + e5;
    let r6 = t7 + rest;
    lemma_concat_assoc(e6, t7, rest);
    lemma_concat_assoc(p6, e6, r6);
    lemma_u32_le_len(m.hit_pitch_bits);
    let p7 = p6 + e6;
    let r7 = t8 + rest;
    lemma_concat_assoc(e7, t8, rest);
    lemma_concat_assoc(p7, e7, r7);
    let p8 = p7 + e7;
    let r8 = t9 + rest;
    lemma_concat_assoc(e8, t9, rest);
    lemma_concat_assoc(p8, e8, r8);
    lemma_u16_le_len(m.unknown23);
    let p9 = p8 + e8;
    let r9 = t10 + rest;
    lemma_concat_assoc(e9, t10, rest);
    lemma_concat_assoc(p9, e9, r9);
    lemma_u16_le_len(m.unknown25);
    let p10 = p9 + e9;
    let r10 = t11 + rest;
    lemma_concat_assoc(e10, t11, rest);
    lemma_concat_assoc(p10, e10, r10);
    lemma_u16_le_len(m.spell);
    let p11 = p10 + e10;
    let r11 = t12 + rest;
    lemma_concat_assoc(e11, t12, rest);
    lemma_concat_assoc(p11, e11, r11);
    let p12 = p11 + e11;
    let r12 = t13 + rest;
    lemma_concat_assoc(e12, t13, rest);
    lemma_concat_assoc(p12, e12, r12);
    lemma_u8_at(m.effect_flag, p12, r12);
    assert(p12.len() == i + 30);
    assert(m.effect_flag == s[i + 30]);
    let p13 = p12 + e12;
}

/// Reading back the bytes written for a `Action` gives the same record.
pub proof fn action_roundtrip(m: Action, pre: Seq<u8>, rest: Seq<u8>)
    ensures
        m.decodes_from(pre + m.spec_bytes() + rest, pre.len() as int),
        m.spec_bytes().len() == 31,
{
    action_len(m);
    action_roundtrip_part0(m, pre, rest);
    action_roundtrip_part1(m, pre, rest);
    action_roundtrip_part2(m, pre, rest);
}

/// The fields of a `Action` stand on the wire packed in their declared order:
/// reading the bytes of its fields laid out one after another, wherever they
/// stand, gives each field back from its own place.
pub proof fn action_wire_layout(m: Action, pre: Seq<u8>, rest: Seq<u8>)
    ensures
        m.decodes_from(
            pre + (
                u16_le_bytes(m.target)
                    + (u16_le_bytes(m.source)
                    + (u16_le_bytes(m.level)
                    + (u32_le_bytes(m.instrument_mod)
                    + (u32_le_bytes(m.force_bits)
                    + (u32_le_bytes(m.hit_heading_bits)
                    + (u32_le_bytes(m.hit_pitch_bits)
                    + (seq![m._type]
                    + (u16_le_bytes(m.unknown23)
                    + (u16_le_bytes(m.unknown25)
                    + (u16_le_bytes(m.spell)
                    + (seq![m.spell_level]
                    + (seq![m.effect_flag]))))))))))))
            ) + rest,
            pre.len() as int,
        ),
{
    action_roundtrip(m, pre, rest);
}
} // verus!

