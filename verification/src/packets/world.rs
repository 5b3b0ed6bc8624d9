//! Records of the world server (Titanium): character selection, entering
//! the world, and the hand-over to a zone server. All little-endian, packed.
use vstd::prelude::*;
use crate::bytes::{
    le_u32, u32_le_bytes, u32s_le_bytes, flat_bytes, read_u32_le, read_array, read_u32_array,
    read_arrays, copy_range, push_u32_le, push_u32s_le, push_arrays, push_slice, lemma_u8_at,
    lemma_slice_at, lemma_u32_le_roundtrip, lemma_u32s_le_roundtrip, lemma_flat_bytes_roundtrip,
    lemma_concat_assoc, lemma_concat_empty, lemma_u32_le_len, lemma_u32s_le_len,
    lemma_flat_bytes_len,
};

verus! {

/// Colour tint of one equipment slot.
#[derive(Debug, Clone, Copy)]
pub struct TintStruct {
    pub blue: u8,
    pub green: u8,
    pub red: u8,
    pub use_tint: u8,
}

impl TintStruct {
    /// Bytes the record occupies on the wire.
    pub open spec fn spec_size() -> nat {
        4
    }

    /// The wire bytes of the record, fields in order.
    pub open spec fn spec_bytes(&self) -> Seq<u8> {
        seq![self.blue]
            + (seq![self.green]
            + (seq![self.red]
            + (seq![self.use_tint])))
    }

    /// `self` is the record stored at `s[i..i + 4]`.
    pub open spec fn decodes_from(&self, s: Seq<u8>, i: int) -> bool {
        &&& self.blue == s[i + 0]
        &&& self.green == s[i + 1]
        &&& self.red == s[i + 2]
        &&& self.use_tint == s[i + 3]
    }

    /// Decodes the record stored at `b[i..i + 4]`.
    pub fn read_at(b: &[u8], i: usize) -> (r: TintStruct)
        requires
            i + 4 <= b@.len(),
        ensures
            r.decodes_from(b@, i as int),
    {
        let _len = b.len();
        let blue = b[i + 0];
        let green = b[i + 1];
        let red = b[i + 2];
        let use_tint = b[i + 3];
        TintStruct { blue, green, red, use_tint }
    }

    /// Decodes the record at the front of `b`; `None` when `b` is shorter than 4 bytes.
    pub fn read(b: &[u8]) -> (r: Option<TintStruct>)
        ensures
            r is Some <==> b@.len() >= 4,
            r matches Some(m) ==> m.decodes_from(b@, 0),
    {
        if b.len() < 4 {
            return None;
        }
        Some(Self::read_at(b, 0))
    }

    /// Appends the wire bytes of the record.
    pub fn write_to(&self, v: &mut Vec<u8>)
        ensures
            final(v)@ == old(v)@ + self.spec_bytes(),
    {
        let ghost t3 = seq![self.use_tint];
        let ghost t2 = seq![self.red] + t3;
        let ghost t1 = seq![self.green] + t2;
        let ghost w0 = v@;
        v.push(self.blue);
        proof {
            lemma_concat_assoc(w0, seq![self.blue], t1);
        }
        let ghost w1 = v@;
        v.push(self.green);
        proof {
            lemma_concat_assoc(w1, seq![self.green], t2);
        }
        let ghost w2 = v@;
        v.push(self.red);
        proof {
            lemma_concat_assoc(w2, seq![self.red], t3);
        }
        let ghost w3 = v@;
        v.push(self.use_tint);
        proof {
            lemma_concat_empty(v@);
        }
    }

    /// The wire bytes of the record.
    pub fn write(&self) -> (r: Vec<u8>)
        ensures
            r@ == self.spec_bytes(),
    {
        let mut v: Vec<u8> = Vec::new();
        self.write_to(&mut v);
        assert(v@ =~= self.spec_bytes());
        v
    }
}

proof fn tint_struct_len(m: TintStruct)
    ensures
        m.spec_bytes().len() == 4,
{
}

/// Reading back the bytes written for a `TintStruct` gives the same record.
pub proof fn tint_struct_roundtrip(m: TintStruct, pre: Seq<u8>, rest: Seq<u8>)
    ensures
        m.decodes_from(pre + m.spec_bytes() + rest, pre.len() as int),
        m.spec_bytes().len() == 4,
{
    tint_struct_len(m);
    let e0 = seq![m.blue];
    let e1 = seq![m.green];
    let e2 = seq![m.red];
    let e3 = seq![m.use_tint];
    let t4 = Seq::<u8>::empty();
    let t3 = e3;
    let t2 = e2 + t3;
    let t1 = e1 + t2;
    let t0 = e0 + t1;
    let s = pre + m.spec_bytes() + rest;
    let i = pre.len() as int;
    lemma_concat_assoc(pre, t0, rest);
    let p0 = pre;
    let r0 = t1 + rest;
    lemma_concat_assoc(e0, t1, rest);
    lemma_concat_assoc(p0, e0, r0);
    lemma_u8_at(m.blue, p0, r0);
    assert(p0.len() == i + 0);
    assert(m.blue == s[i + 0]);
    let p1 = p0 + e0;
    let r1 = t2 + rest;
    lemma_concat_assoc(e1, t2, rest);
    lemma_concat_assoc(p1, e1, r1);
    lemma_u8_at(m.green, p1, r1);
    assert(p1.len() == i + 1);
    assert(m.green == s[i + 1]);
    let p2 = p1 + e1;
    let r2 = t3 + rest;
    lemma_concat_assoc(e2, t3, rest);
    lemma_concat_assoc(p2, e2, r2);
    lemma_u8_at(m.red, p2, r2);
    assert(p2.len() == i + 2);
    assert(m.red == s[i + 2]);
    let p3 = p2 + e2;
    let r3 = t4 + rest;
    lemma_concat_assoc(e3, t4, rest);
    lemma_concat_assoc(p3, e3, r3);
    lemma_u8_at(m.use_tint, p3, r3);
    assert(p3.len() == i + 3);
    assert(m.use_tint == s[i + 3]);
    let p4 = p3 + e3;
}

/// The fields of a `TintStruct` stand on the wire packed in their declared order:
/// reading the bytes of its fields laid out one after another, wherever they
/// stand, gives each field back from its own place.
pub proof fn tint_struct_wire_layout(m: TintStruct, pre: Seq<u8>, rest: Seq<u8>)
    ensures
        m.decodes_from(
            pre + (
                seq![m.blue]
                    + (seq![m.green]
                    + (seq![m.red]
                    + (seq![m.use_tint])))
            ) + rest,
            pre.len() as int,
        ),
{
    tint_struct_roundtrip(m, pre, rest);
}

/// Tints of the nine visible equipment slots.
#[derive(Debug, Clone, Copy)]
pub struct TintProfile {
    pub head: TintStruct,
    pub chest: TintStruct,
    pub arms: TintStruct,
    pub wrist: TintStruct,
    pub hands: TintStruct,
    pub legs: TintStruct,
    pub feet: TintStruct,
    pub primary: TintStruct,
    pub secondary: TintStruct,
}

impl TintProfile {
    /// Bytes the record occupies on the wire.
    pub open spec fn spec_size() -> nat {
        36
    }

    /// The wire bytes of the record, fields in order.
    pub open spec fn spec_bytes(&self) -> Seq<u8> {
        self.head.spec_bytes()
            + (self.chest.spec_bytes()
            + (self.arms.spec_bytes()
            + (self.wrist.spec_bytes()
            + (self.hands.spec_bytes()
            + (self.legs.spec_bytes()
            + (self.feet.spec_bytes()
            + (self.primary.spec_bytes()
            + (self.secondary.spec_bytes()))))))))
    }

    /// `self` is the record stored at `s[i..i + 36]`.
    pub open spec fn decodes_from(&self, s: Seq<u8>, i: int) -> bool {
        &&& self.head.decodes_from(s, i + 0)
        &&& self.chest.decodes_from(s, i + 4)
        &&& self.arms.decodes_from(s, i + 8)
        &&& self.wrist.decodes_from(s, i + 12)
        &&& self.hands.decodes_from(s, i + 16)
        &&& self.legs.decodes_from(s, i + 20)
        &&& self.feet.decodes_from(s, i + 24)
        &&& self.primary.decodes_from(s, i + 28)
        &&& self.secondary.decodes_from(s, i + 32)
    }

    /// Decodes the record stored at `b[i..i + 36]`.
    pub fn read_at(b: &[u8], i: usize) -> (r: TintProfile)
        requires
            i + 36 <= b@.len(),
        ensures
            r.decodes_from(b@, i as int),
    {
        let _len = b.len();
        let head = TintStruct::read_at(b, i + 0);
        let chest = TintStruct::read_at(b, i + 4);
        let arms = TintStruct::read_at(b, i + 8);
        let wrist = TintStruct::read_at(b, i + 12);
        let hands = TintStruct::read_at(b, i + 16);
        let legs = TintStruct::read_at(b, i + 20);
        let feet = TintStruct::read_at(b, i + 24);
        let primary = TintStruct::read_at(b, i + 28);
        let secondary = TintStruct::read_at(b, i + 32);
        TintProfile { head, chest, arms, wrist, hands, legs, feet, primary, secondary }
    }

    /// Decodes the record at the front of `b`; `None` when `b` is shorter than 36 bytes.
    pub fn read(b: &[u8]) -> (r: Option<TintProfile>)
        ensures
            r is Some <==> b@.len() >= 36,
            r matches Some(m) ==> m.decodes_from(b@, 0),
    {
        if b.len() < 36 {
            return None;
        }
        Some(Self::read_at(b, 0))
    }

    /// Appends the wire bytes of the record.
    pub fn write_to(&self, v: &mut Vec<u8>)
        ensures
            final(v)@ == old(v)@ + self.spec_bytes(),
    {
        let ghost t8 = self.secondary.spec_bytes();
        let ghost t7 = self.primary.spec_bytes() + t8;
        let ghost t6 = self.feet.spec_bytes() + t7;
        let ghost t5 = self.legs.spec_bytes() + t6;
        let ghost t4 = self.hands.spec_bytes() + t5;
        let ghost t3 = self.wrist.spec_bytes() + t4;
        let ghost t2 = self.arms.spec_bytes() + t3;
        let ghost t1 = self.chest.spec_bytes() + t2;
        let ghost w0 = v@;
        self.head.write_to(v);
        proof {
            lemma_concat_assoc(w0, self.head.spec_bytes(), t1);
        }
        let ghost w1 = v@;
        self.chest.write_to(v);
        proof {
            lemma_concat_assoc(w1, self.chest.spec_bytes(), t2);
        }
        let ghost w2 = v@;
        self.arms.write_to(v);
        proof {
            lemma_concat_assoc(w2, self.arms.spec_bytes(), t3);
        }
        let ghost w3 = v@;
        self.wrist.write_to(v);
        proof {
            lemma_concat_assoc(w3, self.wrist.spec_bytes(), t4);
        }
        let ghost w4 = v@;
        self.hands.write_to(v);
        proof {
            lemma_concat_assoc(w4, self.hands.spec_bytes(), t5);
        }
        let ghost w5 = v@;
        self.legs.write_to(v);
        proof {
            lemma_concat_assoc(w5, self.legs.spec_bytes(), t6);
        }
        let ghost w6 = v@;
        self.feet.write_to(v);
        proof {
            lemma_concat_assoc(w6, self.feet.spec_bytes(), t7);
        }
        let ghost w7 = v@;
        self.primary.write_to(v);
        proof {
            lemma_concat_assoc(w7, self.primary.spec_bytes(), t8);
        }
        let ghost w8 = v@;
        self.secondary.write_to(v);
        proof {
            lemma_concat_empty(v@);
        }
    }

    /// The wire bytes of the record.
    pub fn write(&self) -> (r: Vec<u8>)
        ensures
            r@ == self.spec_bytes(),
    {
        let mut v: Vec<u8> = Vec::new();
        self.write_to(&mut v);
        assert(v@ =~= self.spec_bytes());
        v
    }
}

proof fn tint_profile_len(m: TintProfile)
    ensures
        m.spec_bytes().len() == 36,
{
    tint_struct_len(m.head);
    tint_struct_len(m.chest);
    tint_struct_len(m.arms);
    tint_struct_len(m.wrist);
    tint_struct_len(m.hands);
    tint_struct_len(m.legs);
    tint_struct_len(m.feet);
    tint_struct_len(m.primary);
    tint_struct_len(m.secondary);
}

proof fn tint_profile_roundtrip_part0(m: TintProfile, pre: Seq<u8>, rest: Seq<u8>)
    ensures
        ({
            let s = pre + m.spec_bytes() + rest;
            let i = pre.len() as int;
            &&& m.head.decodes_from(s, i + 0)
            &&& m.chest.decodes_from(s, i + 4)
            &&& m.arms.decodes_from(s, i + 8)
            &&& m.wrist.decodes_from(s, i + 12)
            &&& m.hands.decodes_from(s, i + 16)
            &&& m.legs.decodes_from(s, i + 20)
        }),
{
    let e0 = m.head.spec_bytes();
    let e1 = m.chest.spec_bytes();
    let e2 = m.arms.spec_bytes();
    let e3 = m.wrist.spec_bytes();
    let e4 = m.hands.spec_bytes();
    let e5 = m.legs.spec_bytes();
    let e6 = m.feet.spec_bytes();
    let e7 = m.primary.spec_bytes();
    let e8 = m.secondary.spec_bytes();
    let t9 = Seq::<u8>::empty();
    let t8 = e8;
    let t7 = e7 + t8;
    let t6 = e6 + t7;
    let t5 = e5 + t6;
    let t4 = e4 + t5;
    let t3 = e3 + t4;
    let t2 = e2 + t3;
    let t1 = e1 + t2;
    let t0 = e0 + t1;
    let s = pre + m.spec_bytes() + rest;
    let i = pre.len() as int;
    lemma_concat_assoc(pre, t0, rest);
    let p0 = pre;
    let r0 = t1 + rest;
    lemma_concat_assoc(e0, t1, rest);
    lemma_concat_assoc(p0, e0, r0);
    tint_struct_roundtrip(m.head, p0, r0);
    assert(p0.len() == i + 0);
    assert(m.head.decodes_from(s, i + 0));
    let p1 = p0 + e0;
    let r1 = t2 + rest;
    lemma_concat_assoc(e1, t2, rest);
    lemma_concat_assoc(p1, e1, r1);
    tint_struct_roundtrip(m.chest, p1, r1);
    assert(p1.len() == i + 4);
    assert(m.chest.decodes_from(s, i + 4));
    let p2 = p1 + e1;
    let r2 = t3 + rest;
    lemma_concat_assoc(e2, t3, rest);
    lemma_concat_assoc(p2, e2, r2);
    tint_struct_roundtrip(m.arms, p2, r2);
    assert(p2.len() == i + 8);
    assert(m.arms.decodes_from(s, i + 8));
    let p3 = p2 + e2;
    let r3 = t4 + rest;
    lemma_concat_assoc(e3, t4, rest);
    lemma_concat_assoc(p3, e3, r3);
    tint_struct_roundtrip(m.wrist, p3, r3);
    assert(p3.len() == i + 12);
    assert(m.wrist.decodes_from(s, i + 12));
    let p4 = p3 + e3;
    let r4 = t5 + rest;
    lemma_concat_assoc(e4, t5, rest);
    lemma_concat_assoc(p4, e4, r4);
    tint_struct_roundtrip(m.hands, p4, r4);
    assert(p4.len() == i + 16);
    assert(m.hands.decodes_from(s, i + 16));
    let p5 = p4 + e4;
    let r5 = t6 + rest;
    lemma_concat_assoc(e5, t6, rest);
    lemma_concat_assoc(p5, e5, r5);
    tint_struct_roundtrip(m.legs, p5, r5);
    assert(p5.len() == i + 20);
    assert(m.legs.decodes_from(s, i + 20));
    let p6 = p5 + e5;
}

proof fn tint_profile_roundtrip_part1(m: TintProfile, pre: Seq<u8>, rest: Seq<u8>)
    ensures
        ({
            let s = pre + m.spec_bytes() + rest;
            let i = pre.len() as int;
            &&& m.feet.decodes_from(s, i + 24)
            &&& m.primary.decodes_from(s, i + 28)
            &&& m.secondary.decodes_from(s, i + 32)
        }),
{
    let e0 = m.head.spec_bytes();
    let e1 = m.chest.spec_bytes();
    let e2 = m.arms.spec_bytes();
    let e3 = m.wrist.spec_bytes();
    let e4 = m.hands.spec_bytes();
    let e5 = m.legs.spec_bytes();
    let e6 = m.feet.spec_bytes();
    let e7 = m.primary.spec_bytes();
    let e8 = m.secondary.spec_bytes();
    let t9 = Seq::<u8>::empty();
    let t8 = e8;
    let t7 = e7 + t8;
    let t6 = e6 + t7;
    let t5 = e5 + t6;
    let t4 = e4 + t5;
    let t3 = e3 + t4;
    let t2 = e2 + t3;
    let t1 = e1 + t2;
    let t0 = e0 + t1;
    let s = pre + m.spec_bytes() + rest;
    let i = pre.len() as int;
    lemma_concat_assoc(pre, t0, rest);
    let p0 = pre;
    let r0 = t1 + rest;
    lemma_concat_assoc(e0, t1, rest);
    lemma_concat_assoc(p0, e0, r0);
    tint_struct_len(m.head);
    let p1 = p0 + e0;
    let r1 = t2 + rest;
    lemma_concat_assoc(e1, t2, rest);
    lemma_concat_assoc(p1, e1, r1);
    tint_struct_len(m.chest);
    let p2 = p1 + e1;
    let r2 = t3 + rest;
    lemma_concat_assoc(e2, t3, rest);
    lemma_concat_assoc(p2, e2, r2);
    tint_struct_len(m.arms);
    let p3 = p2 + e2;
    let r3 = t4 + rest;
    lemma_concat_assoc(e3, t4, rest);
    lemma_concat_assoc(p3, e3, r3);
    tint_struct_len(m.wrist);
    let p4 = p3 + e3;
    let r4 = t5 + rest;
    lemma_concat_assoc(e4, t5, rest);
    lemma_concat_assoc(p4, e4, r4);
    tint_struct_len(m.hands);
    let p5 = p4 + e4;
    let r5 = t6 + rest;
    lemma_concat_assoc(e5, t6, rest);
    lemma_concat_assoc(p5, e5, r5);
    tint_struct_len(m.legs);
    let p6 = p5 + e5;
    let r6 = t7 + rest;
    lemma_concat_assoc(e6, t7, rest);
    lemma_concat_assoc(p6, e6, r6);
    tint_struct_roundtrip(m.feet, p6, r6);
    assert(p6.len() == i + 24);
    assert(m.feet.decodes_from(s, i + 24));
    let p7 = p6 + e6;
    let r7 = t8 + rest;
    lemma_concat_assoc(e7, t8, rest);
    lemma_concat_assoc(p7, e7, r7);
    tint_struct_roundtrip(m.primary, p7, r7);
    assert(p7.len() == i + 28);
    assert(m.primary.decodes_from(s, i + 28));
    let p8 = p7 + e7;
    let r8 = t9 + rest;
    lemma_concat_assoc(e8, t9, rest);
    lemma_concat_assoc(p8, e8, r8);
    tint_struct_roundtrip(m.secondary, p8, r8);
    assert(p8.len() == i + 32);
    assert(m.secondary.decodes_from(s, i + 32));
    let p9 = p8 + e8;
}

/// Reading back the bytes written for a `TintProfile` gives the same record.
pub proof fn tint_profile_roundtrip(m: TintProfile, pre: Seq<u8>, rest: Seq<u8>)
    ensures
        m.decodes_from(pre + m.spec_bytes() + rest, pre.len() as int),
        m.spec_bytes().len() == 36,
{
    tint_profile_len(m);
    tint_profile_roundtrip_part0(m, pre, rest);
    tint_profile_roundtrip_part1(m, pre, rest);
}

/// The fields of a `TintProfile` stand on the wire packed in their declared order:
/// reading the bytes of its fields laid out one after another, wherever they
/// stand, gives each field back from its own place.
pub proof fn tint_profile_wire_layout(m: TintProfile, pre: Seq<u8>, rest: Seq<u8>)
    ensures
        m.decodes_from(
            pre + (
                m.head.spec_bytes()
                    + (m.chest.spec_bytes()
                    + (m.arms.spec_bytes()
                    + (m.wrist.spec_bytes()
                    + (m.hands.spec_bytes()
                    + (m.legs.spec_bytes()
                    + (m.feet.spec_bytes()
                    + (m.primary.spec_bytes()
                    + (m.secondary.spec_bytes()))))))))
            ) + rest,
            pre.len() as int,
        ),
{
    tint_profile_roundtrip(m, pre, rest);
}

/// Material of one equipment slot.
#[derive(Debug, Clone, Copy)]
pub struct TextureStruct {
    pub material: u32,
}

impl TextureStruct {
    /// Bytes the record occupies on the wire.
    pub open spec fn spec_size() -> nat {
        4
    }

    /// The wire bytes of the record, fields in order.
    pub open spec fn spec_bytes(&self) -> Seq<u8> {
        u32_le_bytes(self.material)
    }

    /// `self` is the record stored at `s[i..i + 4]`.
    pub open spec fn decodes_from(&self, s: Seq<u8>, i: int) -> bool {
        &&& self.material == le_u32(s, i + 0)
    }

    /// Decodes the record stored at `b[i..i + 4]`.
    pub fn read_at(b: &[u8], i: usize) -> (r: TextureStruct)
        requires
            i + 4 <= b@.len(),
        ensures
            r.decodes_from(b@, i as int),
    {
        let _len = b.len();
        let material = read_u32_le(b, i + 0);
        TextureStruct { material }
    }

    /// Decodes the record at the front of `b`; `None` when `b` is shorter than 4 bytes.
    pub fn read(b: &[u8]) -> (r: Option<TextureStruct>)
        ensures
            r is Some <==> b@.len() >= 4,
            r matches Some(m) ==> m.decodes_from(b@, 0),
    {
        if b.len() < 4 {
            return None;
        }
        Some(Self::read_at(b, 0))
    }

    /// Appends the wire bytes of the record.
    pub fn write_to(&self, v: &mut Vec<u8>)
        ensures
            final(v)@ == old(v)@ + self.spec_bytes(),
    {
        let ghost w0 = v@;
        push_u32_le(v, self.material);
        proof {
            lemma_concat_empty(v@);
        }
    }

    /// The wire bytes of the record.
    pub fn write(&self) -> (r: Vec<u8>)
        ensures
            r@ == self.spec_bytes(),
    {
        let mut v: Vec<u8> = Vec::new();
        self.write_to(&mut v);
        assert(v@ =~= self.spec_bytes());
        v
    }
}

proof fn texture_struct_len(m: TextureStruct)
    ensures
        m.spec_bytes().len() == 4,
{
    lemma_u32_le_len(m.material);
}

/// Reading back the bytes written for a `TextureStruct` gives the same record.
pub proof fn texture_struct_roundtrip(m: TextureStruct, pre: Seq<u8>, rest: Seq<u8>)
    ensures
        m.decodes_from(pre + m.spec_bytes() + rest, pre.len() as int),
        m.spec_bytes().len() == 4,
{
    texture_struct_len(m);
    let e0 = u32_le_bytes(m.material);
    let t1 = Seq::<u8>::empty();
    let t0 = e0;
    let s = pre + m.spec_bytes() + rest;
    let i = pre.len() as int;
    lemma_concat_assoc(pre, t0, rest);
    let p0 = pre;
    let r0 = t1 + rest;
    lemma_concat_assoc(e0, t1, rest);
    lemma_concat_assoc(p0, e0, r0);
    lemma_u32_le_roundtrip(m.material, r0, p0);
    assert(p0.len() == i + 0);
    assert(m.material == le_u32(s, i + 0));
    let p1 = p0 + e0;
}

/// The fields of a `TextureStruct` stand on the wire packed in their declared order:
/// reading the bytes of its fields laid out one after another, wherever they
/// stand, gives each field back from its own place.
pub proof fn texture_struct_wire_layout(m: TextureStruct, pre: Seq<u8>, rest: Seq<u8>)
    ensures
        m.decodes_from(
            pre + (
                u32_le_bytes(m.material)
            ) + rest,
            pre.len() as int,
        ),
{
    texture_struct_roundtrip(m, pre, rest);
}

/// Materials of the nine visible equipment slots.
#[derive(Debug, Clone, Copy)]
pub struct TextureProfile {
    pub head: TextureStruct,
    pub chest: TextureStruct,
    pub arms: TextureStruct,
    pub wrist: TextureStruct,
    pub hands: TextureStruct,
    pub legs: TextureStruct,
    pub feet: TextureStruct,
    pub primary: TextureStruct,
    pub secondary: TextureStruct,
}

impl TextureProfile {
    /// Bytes the record occupies on the wire.
    pub open spec fn spec_size() -> nat {
        36
    }

    /// The wire bytes of the record, fields in order.
    pub open spec fn spec_bytes(&self) -> Seq<u8> {
        self.head.spec_bytes()
            + (self.chest.spec_bytes()
            + (self.arms.spec_bytes()
            + (self.wrist.spec_bytes()
            + (self.hands.spec_bytes()
            + (self.legs.spec_bytes()
            + (self.feet.spec_bytes()
            + (self.primary.spec_bytes()
            + (self.secondary.spec_bytes()))))))))
    }

    /// `self` is the record stored at `s[i..i + 36]`.
    pub open spec fn decodes_from(&self, s: Seq<u8>, i: int) -> bool {
        &&& self.head.decodes_from(s, i + 0)
        &&& self.chest.decodes_from(s, i + 4)
        &&& self.arms.decodes_from(s, i + 8)
        &&& self.wrist.decodes_from(s, i + 12)
        &&& self.hands.decodes_from(s, i + 16)
        &&& self.legs.decodes_from(s, i + 20)
        &&& self.feet.decodes_from(s, i + 24)
        &&& self.primary.decodes_from(s, i + 28)
        &&& self.secondary.decodes_from(s, i + 32)
    }

    /// Decodes the record stored at `b[i..i + 36]`.
    pub fn read_at(b: &[u8], i: usize) -> (r: TextureProfile)
        requires
            i + 36 <= b@.len(),
        ensures
            r.decodes_from(b@, i as int),
    {
        let _len = b.len();
        let head = TextureStruct::read_at(b, i + 0);
        let chest = TextureStruct::read_at(b, i + 4);
        let arms = TextureStruct::read_at(b, i + 8);
        let wrist = TextureStruct::read_at(b, i + 12);
        let hands = TextureStruct::read_at(b, i + 16);
        let legs = TextureStruct::read_at(b, i + 20);
        let feet = TextureStruct::read_at(b, i + 24);
        let primary = TextureStruct::read_at(b, i + 28);
        let secondary = TextureStruct::read_at(b, i + 32);
        TextureProfile { head, chest, arms, wrist, hands, legs, feet, primary, secondary }
    }

    /// Decodes the record at the front of `b`; `None` when `b` is shorter than 36 bytes.
    pub fn read(b: &[u8]) -> (r: Option<TextureProfile>)
        ensures
            r is Some <==> b@.len() >= 36,
            r matches Some(m) ==> m.decodes_from(b@, 0),
    {
        if b.len() < 36 {
            return None;
        }
        Some(Self::read_at(b, 0))
    }

    /// Appends the wire bytes of the record.
    pub fn write_to(&self, v: &mut Vec<u8>)
        ensures
            final(v)@ == old(v)@ + self.spec_bytes(),
    {
        let ghost t8 = self.secondary.spec_bytes();
        let ghost t7 = self.primary.spec_bytes() + t8;
        let ghost t6 = self.feet.spec_bytes() + t7;
        let ghost t5 = self.legs.spec_bytes() + t6;
        let ghost t4 = self.hands.spec_bytes() + t5;
        let ghost t3 = self.wrist.spec_bytes() + t4;
        let ghost t2 = self.arms.spec_bytes() + t3;
        let ghost t1 = self.chest.spec_bytes() + t2;
        let ghost w0 = v@;
        self.head.write_to(v);
        proof {
            lemma_concat_assoc(w0, self.head.spec_bytes(), t1);
        }
        let ghost w1 = v@;
        self.chest.write_to(v);
        proof {
            lemma_concat_assoc(w1, self.chest.spec_bytes(), t2);
        }
        let ghost w2 = v@;
        self.arms.write_to(v);
        proof {
            lemma_concat_assoc(w2, self.arms.spec_bytes(), t3);
        }
        let ghost w3 = v@;
        self.wrist.write_to(v);
        proof {
            lemma_concat_assoc(w3, self.wrist.spec_bytes(), t4);
        }
        let ghost w4 = v@;
        self.hands.write_to(v);
        proof {
            lemma_concat_assoc(w4, self.hands.spec_bytes(), t5);
        }
        let ghost w5 = v@;
        self.legs.write_to(v);
        proof {
            lemma_concat_assoc(w5, self.legs.spec_bytes(), t6);
        }
        let ghost w6 = v@;
        self.feet.write_to(v);
        proof {
            lemma_concat_assoc(w6, self.feet.spec_bytes(), t7);
        }
        let ghost w7 = v@;
        self.primary.write_to(v);
        proof {
            lemma_concat_assoc(w7, self.primary.spec_bytes(), t8);
        }
        let ghost w8 = v@;
        self.secondary.write_to(v);
        proof {
            lemma_concat_empty(v@);
        }
    }

    /// The wire bytes of the record.
    pub fn write(&self) -> (r: Vec<u8>)
        ensures
            r@ == self.spec_bytes(),
    {
        let mut v: Vec<u8> = Vec::new();
        self.write_to(&mut v);
        assert(v@ =~= self.spec_bytes());
        v
    }
}

proof fn texture_profile_len(m: TextureProfile)
    ensures
        m.spec_bytes().len() == 36,
{
    texture_struct_len(m.head);
    texture_struct_len(m.chest);
    texture_struct_len(m.arms);
    texture_struct_len(m.wrist);
    texture_struct_len(m.hands);
    texture_struct_len(m.legs);
    texture_struct_len(m.feet);
    texture_struct_len(m.primary);
    texture_struct_len(m.secondary);
}

proof fn texture_profile_roundtrip_part0(m: TextureProfile, pre: Seq<u8>, rest: Seq<u8>)
    ensures
        ({
            let s = pre + m.spec_bytes() + rest;
            let i = pre.len() as int;
            &&& m.head.decodes_from(s, i + 0)
            &&& m.chest.decodes_from(s, i + 4)
            &&& m.arms.decodes_from(s, i + 8)
            &&& m.wrist.decodes_from(s, i + 12)
            &&& m.hands.decodes_from(s, i + 16)
            &&& m.legs.decodes_from(s, i + 20)
        }),
{
    let e0 = m.head.spec_bytes();
    let e1 = m.chest.spec_bytes();
    let e2 = m.arms.spec_bytes();
    let e3 = m.wrist.spec_bytes();
    let e4 = m.hands.spec_bytes();
    let e5 = m.legs.spec_bytes();
    let e6 = m.feet.spec_bytes();
    let e7 = m.primary.spec_bytes();
    let e8 = m.secondary.spec_bytes();
    let t9 = Seq::<u8>::empty();
    let t8 = e8;
    let t7 = e7 + t8;
    let t6 = e6 + t7;
    let t5 = e5 + t6;
    let t4 = e4 + t5;
    let t3 = e3 + t4;
    let t2 = e2 + t3;
    let t1 = e1 + t2;
    let t0 = e0 + t1;
    let s = pre + m.spec_bytes() + rest;
    let i = pre.len() as int;
    lemma_concat_assoc(pre, t0, rest);
    let p0 = pre;
    let r0 = t1 + rest;
    lemma_concat_assoc(e0, t1, rest);
    lemma_concat_assoc(p0, e0, r0);
    texture_struct_roundtrip(m.head, p0, r0);
    assert(p0.len() == i + 0);
    assert(m.head.decodes_from(s, i + 0));
    let p1 = p0 + e0;
    let r1 = t2 + rest;
    lemma_concat_assoc(e1, t2, rest);
    lemma_concat_assoc(p1, e1, r1);
    texture_struct_roundtrip(m.chest, p1, r1);
    assert(p1.len() == i + 4);
    assert(m.chest.decodes_from(s, i + 4));
    let p2 = p1 + e1;
    let r2 = t3 + rest;
    lemma_concat_assoc(e2, t3, rest);
    lemma_concat_assoc(p2, e2, r2);
    texture_struct_roundtrip(m.arms, p2, r2);
    assert(p2.len() == i + 8);
    assert(m.arms.decodes_from(s, i + 8));
    let p3 = p2 + e2;
    let r3 = t4 + rest;
    lemma_concat_assoc(e3, t4, rest);
    lemma_concat_assoc(p3, e3, r3);
    texture_struct_roundtrip(m.wrist, p3, r3);
    assert(p3.len() == i + 12);
    assert(m.wrist.decodes_from(s, i + 12));
    let p4 = p3 + e3;
    let r4 = t5 + rest;
    lemma_concat_assoc(e4, t5, rest);
    lemma_concat_assoc(p4, e4, r4);
    texture_struct_roundtrip(m.hands, p4, r4);
    assert(p4.len() == i + 16);
    assert(m.hands.decodes_from(s, i + 16));
    let p5 = p4 + e4;
    let r5 = t6 + rest;
    lemma_concat_assoc(e5, t6, rest);
    lemma_concat_assoc(p5, e5, r5);
    texture_struct_roundtrip(m.legs, p5, r5);
    assert(p5.len() == i + 20);
    assert(m.legs.decodes_from(s, i + 20));
    let p6 = p5 + e5;
}

proof fn texture_profile_roundtrip_part1(m: TextureProfile, pre: Seq<u8>, rest: Seq<u8>)
    ensures
        ({
            let s = pre + m.spec_bytes() + rest;
            let i = pre.len() as int;
            &&& m.feet.decodes_from(s, i + 24)
            &&& m.primary.decodes_from(s, i + 28)
            &&& m.secondary.decodes_from(s, i + 32)
        }),
{
    let e0 = m.head.spec_bytes();
    let e1 = m.chest.spec_bytes();
    let e2 = m.arms.spec_bytes();
    let e3 = m.wrist.spec_bytes();
    let e4 = m.hands.spec_bytes();
    let e5 = m.legs.spec_bytes();
    let e6 = m.feet.spec_bytes();
    let e7 = m.primary.spec_bytes();
    let e8 = m.secondary.spec_bytes();
    let t9 = Seq::<u8>::empty();
    let t8 = e8;
    let t7 = e7 + t8;
    let t6 = e6 + t7;
    let t5 = e5 + t6;
    let t4 = e4 + t5;
    let t3 = e3 + t4;
    let t2 = e2 + t3;
    let t1 = e1 + t2;
    let t0 = e0 + t1;
    let s = pre + m.spec_bytes() + rest;
    let i = pre.len() as int;
    lemma_concat_assoc(pre, t0, rest);
    let p0 = pre;
    let r0 = t1 + rest;
    lemma_concat_assoc(e0, t1, rest);
    lemma_concat_assoc(p0, e0, r0);
    texture_struct_len(m.head);
    let p1 = p0 + e0;
    let r1 = t2 + rest;
    lemma_concat_assoc(e1, t2, rest);
    lemma_concat_assoc(p1, e1, r1);
    texture_struct_len(m.chest);
    let p2 = p1 + e1;
    let r2 = t3 + rest;
    lemma_concat_assoc(e2, t3, rest);
    lemma_concat_assoc(p2, e2, r2);
    texture_struct_len(m.arms);
    let p3 = p2 + e2;
    let r3 = t4 + rest;
    lemma_concat_assoc(e3, t4, rest);
    lemma_concat_assoc(p3, e3, r3);
    texture_struct_len(m.wrist);
    let p4 = p3 + e3;
    let r4 = t5 + rest;
    lemma_concat_assoc(e4, t5, rest);
    lemma_concat_assoc(p4, e4, r4);
    texture_struct_len(m.hands);
    let p5 = p4 + e4;
    let r5 = t6 + rest;
    lemma_concat_assoc(e5, t6, rest);
    lemma_concat_assoc(p5, e5, r5);
    texture_struct_len(m.legs);
    let p6 = p5 + e5;
    let r6 = t7 + rest;
    lemma_concat_assoc(e6, t7, rest);
    lemma_concat_assoc(p6, e6, r6);
    texture_struct_roundtrip(m.feet, p6, r6);
    assert(p6.len() == i + 24);
    assert(m.feet.decodes_from(s, i + 24));
    let p7 = p6 + e6;
    let r7 = t8 + rest;
    lemma_concat_assoc(e7, t8, rest);
    lemma_concat_assoc(p7, e7, r7);
    texture_struct_roundtrip(m.primary, p7, r7);
    assert(p7.len() == i + 28);
    assert(m.primary.decodes_from(s, i + 28));
    let p8 = p7 + e7;
    let r8 = t9 + rest;
    lemma_concat_assoc(e8, t9, rest);
    lemma_concat_assoc(p8, e8, r8);
    texture_struct_roundtrip(m.secondary, p8, r8);
    assert(p8.len() == i + 32);
    assert(m.secondary.decodes_from(s, i + 32));
    let p9 = p8 + e8;
}

/// Reading back the bytes written for a `TextureProfile` gives the same record.
pub proof fn texture_profile_roundtrip(m: TextureProfile, pre: Seq<u8>, rest: Seq<u8>)
    ensures
        m.decodes_from(pre + m.spec_bytes() + rest, pre.len() as int),
        m.spec_bytes().len() == 36,
{
    texture_profile_len(m);
    texture_profile_roundtrip_part0(m, pre, rest);
    texture_profile_roundtrip_part1(m, pre, rest);
}

/// The fields of a `TextureProfile` stand on the wire packed in their declared order:
/// reading the bytes of its fields laid out one after another, wherever they
/// stand, gives each field back from its own place.
pub proof fn texture_profile_wire_layout(m: TextureProfile, pre: Seq<u8>, rest: Seq<u8>)
    ensures
        m.decodes_from(
            pre + (
                m.head.spec_bytes()
                    + (m.chest.spec_bytes()
                    + (m.arms.spec_bytes()
                    + (m.wrist.spec_bytes()
                    + (m.hands.spec_bytes()
                    + (m.legs.spec_bytes()
                    + (m.feet.spec_bytes()
                    + (m.primary.spec_bytes()
                    + (m.secondary.spec_bytes()))))))))
            ) + rest,
            pre.len() as int,
        ),
{
    texture_profile_roundtrip(m, pre, rest);
}

/// Character selection list (Titanium `CharacterSelect_Struct`, 1704 bytes): ten character slots, each field an array over the slots.
#[derive(Debug, Clone, Copy)]
pub struct TitaniumCharInfo {
    pub race: [u32; 10],
    /// Tint profile of each slot (nine tints of four bytes).
    pub cs_colors: [[u8; 36]; 10],
    pub beard_color: [u8; 10],
    pub hair_style: [u8; 10],
    /// Texture profile of each slot (nine materials of four bytes).
    pub equip: [[u8; 36]; 10],
    pub secondary_id_file: [u32; 10],
    pub unknown820: [u8; 10],
    pub unknown830: [u8; 2],
    pub deity: [u32; 10],
    /// 1 where going home is offered.
    pub go_home: [u8; 10],
    /// 1 where the tutorial is offered.
    pub tutorial: [u8; 10],
    pub beard: [u8; 10],
    pub unknown902: [u8; 10],
    pub primary_id_file: [u32; 10],
    pub hair_color: [u8; 10],
    pub unknown0962: [u8; 2],
    pub zone: [u32; 10],
    pub class: [u8; 10],
    pub face: [u8; 10],
    /// NUL-padded character names.
    pub names: [[u8; 64]; 10],
    pub gender: [u8; 10],
    pub eye_color1: [u8; 10],
    pub eye_color2: [u8; 10],
    pub level: [u8; 10],
}

impl TitaniumCharInfo {
    /// Bytes the record occupies on the wire.
    pub open spec fn spec_size() -> nat {
        1704
    }

    /// The wire bytes of the record, fields in order.
    pub open spec fn spec_bytes(&self) -> Seq<u8> {
        u32s_le_bytes(self.race@)
            + (flat_bytes(self.cs_colors@)
            + (self.beard_color@
            + (self.hair_style@
            + (flat_bytes(self.equip@)
            + (u32s_le_bytes(self.secondary_id_file@)
            + (self.unknown820@
            + (self.unknown830@
            + (u32s_le_bytes(self.deity@)
            + (self.go_home@
            + (self.tutorial@
            + (self.beard@
            + (self.unknown902@
            + (u32s_le_bytes(self.primary_id_file@)
            + (self.hair_color@
            + (self.unknown0962@
            + (u32s_le_bytes(self.zone@)
            + (self.class@
            + (self.face@
            + (flat_bytes(self.names@)
            + (self.gender@
            + (self.eye_color1@
            + (self.eye_color2@
            + (self.level@)))))))))))))))))))))))
    }

    /// `self` is the record stored at `s[i..i + 1704]`.
    pub open spec fn decodes_from(&self, s: Seq<u8>, i: int) -> bool {
        &&& forall|k: int| 0 <= k < 10 ==> #[trigger] self.race@[k] == le_u32(s, i + 0 + 4 * k)
        &&& forall|k: int| 0 <= k < 10 ==> (#[trigger] self.cs_colors@[k])@ == s.subrange(i + 40 + 36 * k, i + 40 + 36 * k + 36)
        &&& self.beard_color@ == s.subrange(i + 400, i + 400 + 10)
        &&& self.hair_style@ == s.subrange(i + 410, i + 410 + 10)
        &&& forall|k: int| 0 <= k < 10 ==> (#[trigger] self.equip@[k])@ == s.subrange(i + 420 + 36 * k, i + 420 + 36 * k + 36)
        &&& forall|k: int| 0 <= k < 10 ==> #[trigger] self.secondary_id_file@[k] == le_u32(s, i + 780 + 4 * k)
        &&& self.unknown820@ == s.subrange(i + 820, i + 820 + 10)
        &&& self.unknown830@ == s.subrange(i + 830, i + 830 + 2)
        &&& forall|k: int| 0 <= k < 10 ==> #[trigger] self.deity@[k] == le_u32(s, i + 832 + 4 * k)
        &&& self.go_home@ == s.subrange(i + 872, i + 872 + 10)
        &&& self.tutorial@ == s.subrange(i + 882, i + 882 + 10)
        &&& self.beard@ == s.subrange(i + 892, i + 892 + 10)
        &&& self.unknown902@ == s.subrange(i + 902, i + 902 + 10)
        &&& forall|k: int| 0 <= k < 10 ==> #[trigger] self.primary_id_file@[k] == le_u32(s, i + 912 + 4 * k)
        &&& self.hair_color@ == s.subrange(i + 952, i + 952 + 10)
        &&& self.unknown0962@ == s.subrange(i + 962, i + 962 + 2)
        &&& forall|k: int| 0 <= k < 10 ==> #[trigger] self.zone@[k] == le_u32(s, i + 964 + 4 * k)
        &&& self.class@ == s.subrange(i + 1004, i + 1004 + 10)
        &&& self.face@ == s.subrange(i + 1014, i + 1014 + 10)
        &&& forall|k: int| 0 <= k < 10 ==> (#[trigger] self.names@[k])@ == s.subrange(i + 1024 + 64 * k, i + 1024 + 64 * k + 64)
        &&& self.gender@ == s.subrange(i + 1664, i + 1664 + 10)
        &&& self.eye_color1@ == s.subrange(i + 1674, i + 1674 + 10)
        &&& self.eye_color2@ == s.subrange(i + 1684, i + 1684 + 10)
        &&& self.level@ == s.subrange(i + 1694, i + 1694 + 10)
    }

    /// Decodes the record stored at `b[i..i + 1704]`.
    pub fn read_at(b: &[u8], i: usize) -> (r: TitaniumCharInfo)
        requires
            i + 1704 <= b@.len(),
        ensures
            r.decodes_from(b@, i as int),
    {
        let _len = b.len();
        let race = read_u32_array::<10>(b, i + 0);
        let cs_colors = read_arrays::<36, 10>(b, i + 40);
        let beard_color = read_array::<10>(b, i + 400);
        let hair_style = read_array::<10>(b, i + 410);
        let equip = read_arrays::<36, 10>(b, i + 420);
        let secondary_id_file = read_u32_array::<10>(b, i + 780);
        let unknown820 = read_array::<10>(b, i + 820);
        let unknown830 = read_array::<2>(b, i + 830);
        let deity = read_u32_array::<10>(b, i + 832);
        let go_home = read_array::<10>(b, i + 872);
        let tutorial = read_array::<10>(b, i + 882);
        let beard = read_array::<10>(b, i + 892);
        let unknown902 = read_array::<10>(b, i + 902);
        let primary_id_file = read_u32_array::<10>(b, i + 912);
        let hair_color = read_array::<10>(b, i + 952);
        let unknown0962 = read_array::<2>(b, i + 962);
        let zone = read_u32_array::<10>(b, i + 964);
        let class = read_array::<10>(b, i + 1004);
        let face = read_array::<10>(b, i + 1014);
        let names = read_arrays::<64, 10>(b, i + 1024);
        let gender = read_array::<10>(b, i + 1664);
        let eye_color1 = read_array::<10>(b, i + 1674);
        let eye_color2 = read_array::<10>(b, i + 1684);
        let level = read_array::<10>(b, i + 1694);
        TitaniumCharInfo { race, cs_colors, beard_color, hair_style, equip, secondary_id_file, unknown820, unknown830, deity, go_home, tutorial, beard, unknown902, primary_id_file, hair_color, unknown0962, zone, class, face, names, gender, eye_color1, eye_color2, level }
    }

    /// Decodes the record at the front of `b`; `None` when `b` is shorter than 1704 bytes.
    pub fn read(b: &[u8]) -> (r: Option<TitaniumCharInfo>)
        ensures
            r is Some <==> b@.len() >= 1704,
            r matches Some(m) ==> m.decodes_from(b@, 0),
    {
        if b.len() < 1704 {
            return None;
        }
        Some(Self::read_at(b, 0))
    }

    /// Appends the wire bytes of the record.
    pub fn write_to(&self, v: &mut Vec<u8>)
        ensures
            final(v)@ == old(v)@ + self.spec_bytes(),
    {
        let ghost t23 = self.level@;
        let ghost t22 = self.eye_color2@ + t23;
        let ghost t21 = self.eye_color1@ + t22;
        let ghost t20 = self.gender@ + t21;
        let ghost t19 = flat_bytes(self.names@) + t20;
        let ghost t18 = self.face@ + t19;
        let ghost t17 = self.class@ + t18;
        let ghost t16 = u32s_le_bytes(self.zone@) + t17;
        let ghost t15 = self.unknown0962@ + t16;
        let ghost t14 = self.hair_color@ + t15;
        let ghost t13 = u32s_le_bytes(self.primary_id_file@) + t14;
        let ghost t12 = self.unknown902@ + t13;
        let ghost t11 = self.beard@ + t12;
        let ghost t10 = self.tutorial@ + t11;
        let ghost t9 = self.go_home@ + t10;
        let ghost t8 = u32s_le_bytes(self.deity@) + t9;
        let ghost t7 = self.unknown830@ + t8;
        let ghost t6 = self.unknown820@ + t7;
        let ghost t5 = u32s_le_bytes(self.secondary_id_file@) + t6;
        let ghost t4 = flat_bytes(self.equip@) + t5;
        let ghost t3 = self.hair_style@ + t4;
        let ghost t2 = self.beard_color@ + t3;
        let ghost t1 = flat_bytes(self.cs_colors@) + t2;
        let ghost w0 = v@;
        push_u32s_le(v, self.race.as_slice());
        proof {
            lemma_concat_assoc(w0, u32s_le_bytes(self.race@), t1);
        }
        let ghost w1 = v@;
        push_arrays(v, self.cs_colors.as_slice());
        proof {
            lemma_concat_assoc(w1, flat_bytes(self.cs_colors@), t2);
        }
        let ghost w2 = v@;
        push_slice(v, self.beard_color.as_slice());
        proof {
            lemma_concat_assoc(w2, self.beard_color@, t3);
        }
        let ghost w3 = v@;
        push_slice(v, self.hair_style.as_slice());
        proof {
            lemma_concat_assoc(w3, self.hair_style@, t4);
        }
        let ghost w4 = v@;
        push_arrays(v, self.equip.as_slice());
        proof {
            lemma_concat_assoc(w4, flat_bytes(self.equip@), t5);
        }
        let ghost w5 = v@;
        push_u32s_le(v, self.secondary_id_file.as_slice());
        proof {
            lemma_concat_assoc(w5, u32s_le_bytes(self.secondary_id_file@), t6);
        }
        let ghost w6 = v@;
        push_slice(v, self.unknown820.as_slice());
        proof {
            lemma_concat_assoc(w6, self.unknown820@, t7);
        }
        let ghost w7 = v@;
        push_slice(v, self.unknown830.as_slice());
        proof {
            lemma_concat_assoc(w7, self.unknown830@, t8);
        }
        let ghost w8 = v@;
        push_u32s_le(v, self.deity.as_slice());
        proof {
            lemma_concat_assoc(w8, u32s_le_bytes(self.deity@), t9);
        }
        let ghost w9 = v@;
        push_slice(v, self.go_home.as_slice());
        proof {
            lemma_concat_assoc(w9, self.go_home@, t10);
        }
        let ghost w10 = v@;
        push_slice(v, self.tutorial.as_slice());
        proof {
            lemma_concat_assoc(w10, self.tutorial@, t11);
        }
        let ghost w11 = v@;
        push_slice(v, self.beard.as_slice());
        proof {
            lemma_concat_assoc(w11, self.beard@, t12);
        }
        let ghost w12 = v@;
        push_slice(v, self.unknown902.as_slice());
        proof {
            lemma_concat_assoc(w12, self.unknown902@, t13);
        }
        let ghost w13 = v@;
        push_u32s_le(v, self.primary_id_file.as_slice());
        proof {
            lemma_concat_assoc(w13, u32s_le_bytes(self.primary_id_file@), t14);
        }
        let ghost w14 = v@;
        push_slice(v, self.hair_color.as_slice());
        proof {
            lemma_concat_assoc(w14, self.hair_color@, t15);
        }
        let ghost w15 = v@;
        push_slice(v, self.unknown0962.as_slice());
        proof {
            lemma_concat_assoc(w15, self.unknown0962@, t16);
        }
        let ghost w16 = v@;
        push_u32s_le(v, self.zone.as_slice());
        proof {
            lemma_concat_assoc(w16, u32s_le_bytes(self.zone@), t17);
        }
        let ghost w17 = v@;
        push_slice(v, self.class.as_slice());
        proof {
            lemma_concat_assoc(w17, self.class@, t18);
        }
        let ghost w18 = v@;
        push_slice(v, self.face.as_slice());
        proof {
            lemma_concat_assoc(w18, self.face@, t19);
        }
        let ghost w19 = v@;
        push_arrays(v, self.names.as_slice());
        proof {
            lemma_concat_assoc(w19, flat_bytes(self.names@), t20);
        }
        let ghost w20 = v@;
        push_slice(v, self.gender.as_slice());
        proof {
            lemma_concat_assoc(w20, self.gender@, t21);
        }
        let ghost w21 = v@;
        push_slice(v, self.eye_color1.as_slice());
        proof {
            lemma_concat_assoc(w21, self.eye_color1@, t22);
        }
        let ghost w22 = v@;
        push_slice(v, self.eye_color2.as_slice());
        proof {
            lemma_concat_assoc(w22, self.eye_color2@, t23);
        }
        let ghost w23 = v@;
        push_slice(v, self.level.as_slice());
        proof {
            lemma_concat_empty(v@);
        }
    }

    /// The wire bytes of the record.
    pub fn write(&self) -> (r: Vec<u8>)
        ensures
            r@ == self.spec_bytes(),
    {
        let mut v: Vec<u8> = Vec::new();
        self.write_to(&mut v);
        assert(v@ =~= self.spec_bytes());
        v
    }
}

proof fn titanium_char_info_len(m: TitaniumCharInfo)
    ensures
        m.spec_bytes().len() == 1704,
{
    lemma_u32s_le_len(m.race@);
    lemma_flat_bytes_len(m.cs_colors@);
    lemma_flat_bytes_len(m.equip@);
    lemma_u32s_le_len(m.secondary_id_file@);
    lemma_u32s_le_len(m.deity@);
    lemma_u32s_le_len(m.primary_id_file@);
    lemma_u32s_le_len(m.zone@);
    lemma_flat_bytes_len(m.names@);
}

proof fn titanium_char_info_roundtrip_part0(m: TitaniumCharInfo, pre: Seq<u8>, rest: Seq<u8>)
    ensures
        ({
            let s = pre + m.spec_bytes() + rest;
            let i = pre.len() as int;
            &&& forall|k: int| 0 <= k < 10 ==> #[trigger] m.race@[k] == le_u32(s, i + 0 + 4 * k)
            &&& forall|k: int| 0 <= k < 10 ==> (#[trigger] m.cs_colors@[k])@ == s.subrange(i + 40 + 36 * k, i + 40 + 36 * k + 36)
            &&& m.beard_color@ == s.subrange(i + 400, i + 400 + 10)
            &&& m.hair_style@ == s.subrange(i + 410, i + 410 + 10)
            &&& forall|k: int| 0 <= k < 10 ==> (#[trigger] m.equip@[k])@ == s.subrange(i + 420 + 36 * k, i + 420 + 36 * k + 36)
            &&& forall|k: int| 0 <= k < 10 ==> #[trigger] m.secondary_id_file@[k] == le_u32(s, i + 780 + 4 * k)
        }),
{
    let e0 = u32s_le_bytes(m.race@);
    let e1 = flat_bytes(m.cs_colors@);
    let e2 = m.beard_color@;
    let e3 = m.hair_style@;
    let e4 = flat_bytes(m.equip@);
    let e5 = u32s_le_bytes(m.secondary_id_file@);
    let e6 = m.unknown820@;
    let e7 = m.unknown830@;
    let e8 = u32s_le_bytes(m.deity@);
    let e9 = m.go_home@;
    let e10 = m.tutorial@;
    let e11 = m.beard@;
    let e12 = m.unknown902@;
    let e13 = u32s_le_bytes(m.primary_id_file@);
    let e14 = m.hair_color@;
    let e15 = m.unknown0962@;
    let e16 = u32s_le_bytes(m.zone@);
    let e17 = m.class@;
    let e18 = m.face@;
    let e19 = flat_bytes(m.names@);
    let e20 = m.gender@;
    let e21 = m.eye_color1@;
    let e22 = m.eye_color2@;
    let e23 = m.level@;
    let t24 = Seq::<u8>::empty();
    let t23 = e23;
    let t22 = e22 + t23;
    let t21 = e21 + t22;
    let t20 = e20 + t21;
    let t19 = e19 + t20;
    let t18 = e18 + t19;
    let t17 = e17 + t18;
    let t16 = e16 + t17;
    let t15 = e15 + t16;
    let t14 = e14 + t15;
    let t13 = e13 + t14;
    let t12 = e12 + t13;
    let t11 = e11 + t12;
    let t10 = e10 + t11;
    let t9 = e9 + t10;
    let t8 = e8 + t9;
    let t7 = e7 + t8;
    let t6 = e6 + t7;
    let t5 = e5 + t6;
    let t4 = e4 + t5;
    let t3 = e3 + t4;
    let t2 = e2 + t3;
    let t1 = e1 + t2;
    let t0 = e0 + t1;
    let s = pre + m.spec_bytes() + rest;
    let i = pre.len() as int;
    lemma_concat_assoc(pre, t0, rest);
    let p0 = pre;
    let r0 = t1 + rest;
    lemma_concat_assoc(e0, t1, rest);
    lemma_concat_assoc(p0, e0, r0);
    lemma_u32s_le_roundtrip(m.race@, p0, r0);
    assert(p0.len() == i + 0);
    assert(forall|k: int| 0 <= k < 10 ==> #[trigger] m.race@[k] == le_u32(s, i + 0 + 4 * k));
    let p1 = p0 + e0;
    let r1 = t2 + rest;
    lemma_concat_assoc(e1, t2, rest);
    lemma_concat_assoc(p1, e1, r1);
    lemma_flat_bytes_roundtrip(m.cs_colors@, p1, r1);
    assert(p1.len() == i + 40);
    assert(forall|k: int| 0 <= k < 10 ==> (#[trigger] m.cs_colors@[k])@ == s.subrange(i + 40 + 36 * k, i + 40 + 36 * k + 36));
    let p2 = p1 + e1;
    let r2 = t3 + rest;
    lemma_concat_assoc(e2, t3, rest);
    lemma_concat_assoc(p2, e2, r2);
    lemma_slice_at(m.beard_color@, p2, r2);
    assert(p2.len() == i + 400);
    assert(m.beard_color@ == s.subrange(i + 400, i + 400 + 10));
    let p3 = p2 + e2;
    let r3 = t4 + rest;
    lemma_concat_assoc(e3, t4, rest);
    lemma_concat_assoc(p3, e3, r3);
    lemma_slice_at(m.hair_style@, p3, r3);
    assert(p3.len() == i + 410);
    assert(m.hair_style@ == s.subrange(i + 410, i + 410 + 10));
    let p4 = p3 + e3;
    let r4 = t5 + rest;
    lemma_concat_assoc(e4, t5, rest);
    lemma_concat_assoc(p4, e4, r4);
    lemma_flat_bytes_roundtrip(m.equip@, p4, r4);
    assert(p4.len() == i + 420);
    assert(forall|k: int| 0 <= k < 10 ==> (#[trigger] m.equip@[k])@ == s.subrange(i + 420 + 36 * k, i + 420 + 36 * k + 36));
    let p5 = p4 + e4;
    let r5 = t6 + rest;
    lemma_concat_assoc(e5, t6, rest);
    lemma_concat_assoc(p5, e5, r5);
    lemma_u32s_le_roundtrip(m.secondary_id_file@, p5, r5);
    assert(p5.len() == i + 780);
    assert(forall|k: int| 0 <= k < 10 ==> #[trigger] m.secondary_id_file@[k] == le_u32(s, i + 780 + 4 * k));
    let p6 = p5 + e5;
}

proof fn titanium_char_info_roundtrip_part1(m: TitaniumCharInfo, pre: Seq<u8>, rest: Seq<u8>)
    ensures
        ({
            let s = pre + m.spec_bytes() + rest;
            let i = pre.len() as int;
            &&& m.unknown820@ == s.subrange(i + 820, i + 820 + 10)
            &&& m.unknown830@ == s.subrange(i + 830, i + 830 + 2)
            &&& forall|k: int| 0 <= k < 10 ==> #[trigger] m.deity@[k] == le_u32(s, i + 832 + 4 * k)
            &&& m.go_home@ == s.subrange(i + 872, i + 872 + 10)
            &&& m.tutorial@ == s.subrange(i + 882, i + 882 + 10)
            &&& m.beard@ == s.subrange(i + 892, i + 892 + 10)
        }),
{
    let e0 = u32s_le_bytes(m.race@);
    let e1 = flat_bytes(m.cs_colors@);
    let e2 = m.beard_color@;
    let e3 = m.hair_style@;
    let e4 = flat_bytes(m.equip@);
    let e5 = u32s_le_bytes(m.secondary_id_file@);
    let e6 = m.unknown820@;
    let e7 = m.unknown830@;
    let e8 = u32s_le_bytes(m.deity@);
    let e9 = m.go_home@;
    let e10 = m.tutorial@;
    let e11 = m.beard@;
    let e12 = m.unknown902@;
    let e13 = u32s_le_bytes(m.primary_id_file@);
    let e14 = m.hair_color@;
    let e15 = m.unknown0962@;
    let e16 = u32s_le_bytes(m.zone@);
    let e17 = m.class@;
    let e18 = m.face@;
    let e19 = flat_bytes(m.names@);
    let e20 = m.gender@;
    let e21 = m.eye_color1@;
    let e22 = m.eye_color2@;
    let e23 = m.level@;
    let t24 = Seq::<u8>::empty();
    let t23 = e23;
    let t22 = e22 + t23;
    let t21 = e21 + t22;
    let t20 = e20 + t21;
    let t19 = e19 + t20;
    let t18 = e18 + t19;
    let t17 = e17 + t18;
    let t16 = e16 + t17;
    let t15 = e15 + t16;
    let t14 = e14 + t15;
    let t13 = e13 + t14;
    let t12 = e12 + t13;
    let t11 = e11 + t12;
    let t10 = e10 + t11;
    let t9 = e9 + t10;
    let t8 = e8 + t9;
    let t7 = e7 + t8;
    let t6 = e6 + t7;
    let t5 = e5 + t6;
    let t4 = e4 + t5;
    let t3 = e3 + t4;
    let t2 = e2 + t3;
    let t1 = e1 + t2;
    let t0 = e0 + t1;
    let s = pre + m.spec_bytes() + rest;
    let i = pre.len() as int;
    lemma_concat_assoc(pre, t0, rest);
    let p0 = pre;
    let r0 = t1 + rest;
    lemma_concat_assoc(e0, t1, rest);
    lemma_concat_assoc(p0, e0, r0);
    lemma_u32s_le_len(m.race@);
    let p1 = p0 + e0;
    let r1 = t2 + rest;
    lemma_concat_assoc(e1, t2, rest);
    lemma_concat_assoc(p1, e1, r1);
    lemma_flat_bytes_len(m.cs_colors@);
    let p2 = p1 + e1;
    let r2 = t3 + rest;
    lemma_concat_assoc(e2, t3, rest);
    lemma_concat_assoc(p2, e2, r2);
    let p3 = p2 + e2;
    let r3 = t4 + rest;
    lemma_concat_assoc(e3, t4, rest);
    lemma_concat_assoc(p3, e3, r3);
    let p4 = p3 + e3;
    let r4 = t5 + rest;
    lemma_concat_assoc(e4, t5, rest);
    lemma_concat_assoc(p4, e4, r4);
    lemma_flat_bytes_len(m.equip@);
    let p5 = p4 + e4;
    let r5 = t6 + rest;
    lemma_concat_assoc(e5, t6, rest);
    lemma_concat_assoc(p5, e5, r5);
    lemma_u32s_le_len(m.secondary_id_file@);
    let p6 = p5 + e5;
    let r6 = t7 + rest;
    lemma_concat_assoc(e6, t7, rest);
    lemma_concat_assoc(p6, e6, r6);
    lemma_slice_at(m.unknown820@, p6, r6);
    assert(p6.len() == i + 820);
    assert(m.unknown820@ == s.subrange(i + 820, i + 820 + 10));
    let p7 = p6 + e6;
    let r7 = t8 + rest;
    lemma_concat_assoc(e7, t8, rest);
    lemma_concat_assoc(p7, e7, r7);
    lemma_slice_at(m.unknown830@, p7, r7);
    assert(p7.len() == i + 830);
    assert(m.unknown830@ == s.subrange(i + 830, i + 830 + 2));
    let p8 = p7 + e7;
    let r8 = t9 + rest;
    lemma_concat_assoc(e8, t9, rest);
    lemma_concat_assoc(p8, e8, r8);
    lemma_u32s_le_roundtrip(m.deity@, p8, r8);
    assert(p8.len() == i + 832);
    assert(forall|k: int| 0 <= k < 10 ==> #[trigger] m.deity@[k] == le_u32(s, i + 832 + 4 * k));
    let p9 = p8 + e8;
    let r9 = t10 + rest;
    lemma_concat_assoc(e9, t10, rest);
    lemma_concat_assoc(p9, e9, r9);
    lemma_slice_at(m.go_home@, p9, r9);
    assert(p9.len() == i + 872);
    assert(m.go_home@ == s.subrange(i + 872, i + 872 + 10));
    let p10 = p9 + e9;
    let r10 = t11 + rest;
    lemma_concat_assoc(e10, t11, rest);
    lemma_concat_assoc(p10, e10, r10);
    lemma_slice_at(m.tutorial@, p10, r10);
    assert(p10.len() == i + 882);
    assert(m.tutorial@ == s.subrange(i + 882, i + 882 + 10));
    let p11 = p10 + e10;
    let r11 = t12 + rest;
    lemma_concat_assoc(e11, t12, rest);
    lemma_concat_assoc(p11, e11, r11);
    lemma_slice_at(m.beard@, p11, r11);
    assert(p11.len() == i + 892);
    assert(m.beard@ == s.subrange(i + 892, i + 892 + 10));
    let p12 = p11 + e11;
}

proof fn titanium_char_info_roundtrip_part2(m: TitaniumCharInfo, pre: Seq<u8>, rest: Seq<u8>)
    ensures
        ({
            let s = pre + m.spec_bytes() + rest;
            let i = pre.len() as int;
            &&& m.unknown902@ == s.subrange(i + 902, i + 902 + 10)
            &&& forall|k: int| 0 <= k < 10 ==> #[trigger] m.primary_id_file@[k] == le_u32(s, i + 912 + 4 * k)
            &&& m.hair_color@ == s.subrange(i + 952, i + 952 + 10)
            &&& m.unknown0962@ == s.subrange(i + 962, i + 962 + 2)
            &&& forall|k: int| 0 <= k < 10 ==> #[trigger] m.zone@[k] == le_u32(s, i + 964 + 4 * k)
            &&& m.class@ == s.subrange(i + 1004, i + 1004 + 10)
        }),
{
    let e0 = u32s_le_bytes(m.race@);
    let e1 = flat_bytes(m.cs_colors@);
    let e2 = m.beard_color@;
    let e3 = m.hair_style@;
    let e4 = flat_bytes(m.equip@);
    let e5 = u32s_le_bytes(m.secondary_id_file@);
    let e6 = m.unknown820@;
    let e7 = m.unknown830@;
    let e8 = u32s_le_bytes(m.deity@);
    let e9 = m.go_home@;
    let e10 = m.tutorial@;
    let e11 = m.beard@;
    let e12 = m.unknown902@;
    let e13 = u32s_le_bytes(m.primary_id_file@);
    let e14 = m.hair_color@;
    let e15 = m.unknown0962@;
    let e16 = u32s_le_bytes(m.zone@);
    let e17 = m.class@;
    let e18 = m.face@;
    let e19 = flat_bytes(m.names@);
    let e20 = m.gender@;
    let e21 = m.eye_color1@;
    let e22 = m.eye_color2@;
    let e23 = m.level@;
    let t24 = Seq::<u8>::empty();
    let t23 = e23;
    let t22 = e22 + t23;
    let t21 = e21 + t22;
    let t20 = e20 + t21;
    let t19 = e19 + t20;
    let t18 = e18 + t19;
    let t17 = e17 + t18;
    let t16 = e16 + t17;
    let t15 = e15 + t16;
    let t14 = e14 + t15;
    let t13 = e13 + t14;
    let t12 = e12 + t13;
    let t11 = e11 + t12;
    let t10 = e10 + t11;
    let t9 = e9 + t10;
    let t8 = e8 + t9;
    let t7 = e7 + t8;
    let t6 = e6 + t7;
    let t5 = e5 + t6;
    let t4 = e4 + t5;
    let t3 = e3 + t4;
    let t2 = e2 + t3;
    let t1 = e1 + t2;
    let t0 = e0 + t1;
    let s = pre + m.spec_bytes() + rest;
    let i = pre.len() as int;
    lemma_concat_assoc(pre, t0, rest);
    let p0 = pre;
    let r0 = t1 + rest;
    lemma_concat_assoc(e0, t1, rest);
    lemma_concat_assoc(p0, e0, r0);
    lemma_u32s_le_len(m.race@);
    let p1 = p0 + e0;
    let r1 = t2 + rest;
    lemma_concat_assoc(e1, t2, rest);
    lemma_concat_assoc(p1, e1, r1);
    lemma_flat_bytes_len(m.cs_colors@);
    let p2 = p1 + e1;
    let r2 = t3 + rest;
    lemma_concat_assoc(e2, t3, rest);
    lemma_concat_assoc(p2, e2, r2);
    let p3 = p2 + e2;
    let r3 = t4 + rest;
    lemma_concat_assoc(e3, t4, rest);
    lemma_concat_assoc(p3, e3, r3);
    let p4 = p3 + e3;
    let r4 = t5 + rest;
    lemma_concat_assoc(e4, t5, rest);
    lemma_concat_assoc(p4, e4, r4);
    lemma_flat_bytes_len(m.equip@);
    let p5 = p4 + e4;
    let r5 = t6 + rest;
    lemma_concat_assoc(e5, t6, rest);
    lemma_concat_assoc(p5, e5, r5);
    lemma_u32s_le_len(m.secondary_id_file@);
    let p6 = p5 + e5;
    let r6 = t7 + rest;
    lemma_concat_assoc(e6, t7, rest);
    lemma_concat_assoc(p6, e6, r6);
    let p7 = p6 + e6;
    let r7 = t8 + rest;
    lemma_concat_assoc(e7, t8, rest);
    lemma_concat_assoc(p7, e7, r7);
    let p8 = p7 + e7;
    let r8 = t9 + rest;
    lemma_concat_assoc(e8, t9, rest);
    lemma_concat_assoc(p8, e8, r8);
    lemma_u32s_le_len(m.deity@);
    let p9 = p8 + e8;
    let r9 = t10 + rest;
    lemma_concat_assoc(e9, t10, rest);
    lemma_concat_assoc(p9, e9, r9);
    let p10 = p9 + e9;
    let r10 = t11 + rest;
    lemma_concat_assoc(e10, t11, rest);
    lemma_concat_assoc(p10, e10, r10);
    let p11 = p10 + e10;
    let r11 = t12 + rest;
    lemma_concat_assoc(e11, t12, rest);
    lemma_concat_assoc(p11, e11, r11);
    let p12 = p11 + e11;
    let r12 = t13 + rest;
    lemma_concat_assoc(e12, t13, rest);
    lemma_concat_assoc(p12, e12, r12);
    lemma_slice_at(m.unknown902@, p12, r12);
    assert(p12.len() == i + 902);
    assert(m.unknown902@ == s.subrange(i + 902, i + 902 + 10));
    let p13 = p12 + e12;
    let r13 = t14 + rest;
    lemma_concat_assoc(e13, t14, rest);
    lemma_concat_assoc(p13, e13, r13);
    lemma_u32s_le_roundtrip(m.primary_id_file@, p13, r13);
    assert(p13.len() == i + 912);
    assert(forall|k: int| 0 <= k < 10 ==> #[trigger] m.primary_id_file@[k] == le_u32(s, i + 912 + 4 * k));
    let p14 = p13 + e13;
    let r14 = t15 + rest;
    lemma_concat_assoc(e14, t15, rest);
    lemma_concat_assoc(p14, e14, r14);
    lemma_slice_at(m.hair_color@, p14, r14);
    assert(p14.len() == i + 952);
    assert(m.hair_color@ == s.subrange(i + 952, i + 952 + 10));
    let p15 = p14 + e14;
    let r15 = t16 + rest;
    lemma_concat_assoc(e15, t16, rest);
    lemma_concat_assoc(p15, e15, r15);
    lemma_slice_at(m.unknown0962@, p15, r15);
    assert(p15.len() == i + 962);
    assert(m.unknown0962@ == s.subrange(i + 962, i + 962 + 2));
    let p16 = p15 + e15;
    let r16 = t17 + rest;
    lemma_concat_assoc(e16, t17, rest);
    lemma_concat_assoc(p16, e16, r16);
    lemma_u32s_le_roundtrip(m.zone@, p16, r16);
    assert(p16.len() == i + 964);
    assert(forall|k: int| 0 <= k < 10 ==> #[trigger] m.zone@[k] == le_u32(s, i + 964 + 4 * k));
    let p17 = p16 + e16;
    let r17 = t18 + rest;
    lemma_concat_assoc(e17, t18, rest);
    lemma_concat_assoc(p17, e17, r17);
    lemma_slice_at(m.class@, p17, r17);
    assert(p17.len() == i + 1004);
    assert(m.class@ == s.subrange(i + 1004, i + 1004 + 10));
    let p18 = p17 + e17;
}

proof fn titanium_char_info_roundtrip_part3(m: TitaniumCharInfo, pre: Seq<u8>, rest: Seq<u8>)
    ensures
        ({
            let s = pre + m.spec_bytes() + rest;
            let i = pre.len() as int;
            &&& m.face@ == s.subrange(i + 1014, i + 1014 + 10)
            &&& forall|k: int| 0 <= k < 10 ==> (#[trigger] m.names@[k])@ == s.subrange(i + 1024 + 64 * k, i + 1024 + 64 * k + 64)
            &&& m.gender@ == s.subrange(i + 1664, i + 1664 + 10)
            &&& m.eye_color1@ == s.subrange(i + 1674, i + 1674 + 10)
            &&& m.eye_color2@ == s.subrange(i + 1684, i + 1684 + 10)
            &&& m.level@ == s.subrange(i + 1694, i + 1694 + 10)
        }),
{
    let e0 = u32s_le_bytes(m.race@);
    let e1 = flat_bytes(m.cs_colors@);
    let e2 = m.beard_color@;
    let e3 = m.hair_style@;
    let e4 = flat_bytes(m.equip@);
    let e5 = u32s_le_bytes(m.secondary_id_file@);
    let e6 = m.unknown820@;
    let e7 = m.unknown830@;
    let e8 = u32s_le_bytes(m.deity@);
    let e9 = m.go_home@;
    let e10 = m.tutorial@;
    let e11 = m.beard@;
    let e12 = m.unknown902@;
    let e13 = u32s_le_bytes(m.primary_id_file@);
    let e14 = m.hair_color@;
    let e15 = m.unknown0962@;
    let e16 = u32s_le_bytes(m.zone@);
    let e17 = m.class@;
    let e18 = m.face@;
    let e19 = flat_bytes(m.names@);
    let e20 = m.gender@;
    let e21 = m.eye_color1@;
    let e22 = m.eye_color2@;
    let e23 = m.level@;
    let t24 = Seq::<u8>::empty();
    let t23 = e23;
    let t22 = e22 + t23;
    let t21 = e21 + t22;
    let t20 = e20 + t21;
    let t19 = e19 + t20;
    let t18 = e18 + t19;
    let t17 = e17 + t18;
    let t16 = e16 + t17;
    let t15 = e15 + t16;
    let t14 = e14 + t15;
    let t13 = e13 + t14;
    let t12 = e12 + t13;
    let t11 = e11 + t12;
    let t10 = e10 + t11;
    let t9 = e9 + t10;
    let t8 = e8 + t9;
    let t7 = e7 + t8;
    let t6 = e6 + t7;
    let t5 = e5 + t6;
    let t4 = e4 + t5;
    let t3 = e3 + t4;
    let t2 = e2 + t3;
    let t1 = e1 + t2;
    let t0 = e0 + t1;
    let s = pre + m.spec_bytes() + rest;
    let i = pre.len() as int;
    lemma_concat_assoc(pre, t0, rest);
    let p0 = pre;
    let r0 = t1 + rest;
    lemma_concat_assoc(e0, t1, rest);
    lemma_concat_assoc(p0, e0, r0);
    lemma_u32s_le_len(m.race@);
    let p1 = p0 + e0;
    let r1 = t2 + rest;
    lemma_concat_assoc(e1, t2, rest);
    lemma_concat_assoc(p1, e1, r1);
    lemma_flat_bytes_len(m.cs_colors@);
    let p2 = p1 + e1;
    let r2 = t3 + rest;
    lemma_concat_assoc(e2, t3, rest);
    lemma_concat_assoc(p2, e2, r2);
    let p3 = p2 + e2;
    let r3 = t4 + rest;
    lemma_concat_assoc(e3, t4, rest);
    lemma_concat_assoc(p3, e3, r3);
    let p4 = p3 + e3;
    let r4 = t5 + rest;
    lemma_concat_assoc(e4, t5, rest);
    lemma_concat_assoc(p4, e4, r4);
    lemma_flat_bytes_len(m.equip@);
    let p5 = p4 + e4;
    let r5 = t6 + rest;
    lemma_concat_assoc(e5, t6, rest);
    lemma_concat_assoc(p5, e5, r5);
    lemma_u32s_le_len(m.secondary_id_file@);
    let p6 = p5 + e5;
    let r6 = t7 + rest;
    lemma_concat_assoc(e6, t7, rest);
    lemma_concat_assoc(p6, e6, r6);
    let p7 = p6 + e6;
    let r7 = t8 + rest;
    lemma_concat_assoc(e7, t8, rest);
    lemma_concat_assoc(p7, e7, r7);
    let p8 = p7 + e7;
    let r8 = t9 + rest;
    lemma_concat_assoc(e8, t9, rest);
    lemma_concat_assoc(p8, e8, r8);
    lemma_u32s_le_len(m.deity@);
    let p9 = p8 + e8;
    let r9 = t10 + rest;
    lemma_concat_assoc(e9, t10, rest);
    lemma_concat_assoc(p9, e9, r9);
    let p10 = p9 + e9;
    let r10 = t11 + rest;
    lemma_concat_assoc(e10, t11, rest);
    lemma_concat_assoc(p10, e10, r10);
    let p11 = p10 + e10;
    let r11 = t12 + rest;
    lemma_concat_assoc(e11, t12, rest);
    lemma_concat_assoc(p11, e11, r11);
    let p12 = p11 + e11;
    let r12 = t13 + rest;
    lemma_concat_assoc(e12, t13, rest);
    lemma_concat_assoc(p12, e12, r12);
    let p13 = p12 + e12;
    let r13 = t14 + rest;
    lemma_concat_assoc(e13, t14, rest);
    lemma_concat_assoc(p13, e13, r13);
    lemma_u32s_le_len(m.primary_id_file@);
    let p14 = p13 + e13;
    let r14 = t15 + rest;
    lemma_concat_assoc(e14, t15, rest);
    lemma_concat_assoc(p14, e14, r14);
    let p15 = p14 + e14;
    let r15 = t16 + rest;
    lemma_concat_assoc(e15, t16, rest);
    lemma_concat_assoc(p15, e15, r15);
    let p16 = p15 + e15;
    let r16 = t17 + rest;
    lemma_concat_assoc(e16, t17, rest);
    lemma_concat_assoc(p16, e16, r16);
    lemma_u32s_le_len(m.zone@);
    let p17 = p16 + e16;
    let r17 = t18 + rest;
    lemma_concat_assoc(e17, t18, rest);
    lemma_concat_assoc(p17, e17, r17);
    let p18 = p17 + e17;
    let r18 = t19 + rest;
    lemma_concat_assoc(e18, t19, rest);
    lemma_concat_assoc(p18, e18, r18);
    lemma_slice_at(m.face@, p18, r18);
    assert(p18.len() == i + 1014);
    assert(m.face@ == s.subrange(i + 1014, i + 1014 + 10));
    let p19 = p18 + e18;
    let r19 = t20 + rest;
    lemma_concat_assoc(e19, t20, rest);
    lemma_concat_assoc(p19, e19, r19);
    lemma_flat_bytes_roundtrip(m.names@, p19, r19);
    assert(p19.len() == i + 1024);
    assert(forall|k: int| 0 <= k < 10 ==> (#[trigger] m.names@[k])@ == s.subrange(i + 1024 + 64 * k, i + 1024 + 64 * k + 64));
    let p20 = p19 + e19;
    let r20 = t21 + rest;
    lemma_concat_assoc(e20, t21, rest);
    lemma_concat_assoc(p20, e20, r20);
    lemma_slice_at(m.gender@, p20, r20);
    assert(p20.len() == i + 1664);
    assert(m.gender@ == s.subrange(i + 1664, i + 1664 + 10));
    let p21 = p20 + e20;
    let r21 = t22 + rest;
    lemma_concat_assoc(e21, t22, rest);
    lemma_concat_assoc(p21, e21, r21);
    lemma_slice_at(m.eye_color1@, p21, r21);
    assert(p21.len() == i + 1674);
    assert(m.eye_color1@ == s.subrange(i + 1674, i + 1674 + 10));
    let p22 = p21 + e21;
    let r22 = t23 + rest;
    lemma_concat_assoc(e22, t23, rest);
    lemma_concat_assoc(p22, e22, r22);
    lemma_slice_at(m.eye_color2@, p22, r22);
    assert(p22.len() == i + 1684);
    assert(m.eye_color2@ == s.subrange(i + 1684, i + 1684 + 10));
    let p23 = p22 + e22;
    let r23 = t24 + rest;
    lemma_concat_assoc(e23, t24, rest);
    lemma_concat_assoc(p23, e23, r23);
    lemma_slice_at(m.level@, p23, r23);
    assert(p23.len() == i + 1694);
    assert(m.level@ == s.subrange(i + 1694, i + 1694 + 10));
    let p24 = p23 + e23;
}

/// Reading back the bytes written for a `TitaniumCharInfo` gives the same record.
pub proof fn titanium_char_info_roundtrip(m: TitaniumCharInfo, pre: Seq<u8>, rest: Seq<u8>)
    ensures
        m.decodes_from(pre + m.spec_bytes() + rest, pre.len() as int),
        m.spec_bytes().len() == 1704,
{
    titanium_char_info_len(m);
    titanium_char_info_roundtrip_part0(m, pre, rest);
    titanium_char_info_roundtrip_part1(m, pre, rest);
    titanium_char_info_roundtrip_part2(m, pre, rest);
    titanium_char_info_roundtrip_part3(m, pre, rest);
}

/// The fields of a `TitaniumCharInfo` stand on the wire packed in their declared order:
/// reading the bytes of its fields laid out one after another, wherever they
/// stand, gives each field back from its own place.
pub proof fn titanium_char_info_wire_layout(m: TitaniumCharInfo, pre: Seq<u8>, rest: Seq<u8>)
    ensures
        m.decodes_from(
            pre + (
                u32s_le_bytes(m.race@)
                    + (flat_bytes(m.cs_colors@)
                    + (m.beard_color@
                    + (m.hair_style@
                    + (flat_bytes(m.equip@)
                    + (u32s_le_bytes(m.secondary_id_file@)
                    + (m.unknown820@
                    + (m.unknown830@
                    + (u32s_le_bytes(m.deity@)
                    + (m.go_home@
                    + (m.tutorial@
                    + (m.beard@
                    + (m.unknown902@
                    + (u32s_le_bytes(m.primary_id_file@)
                    + (m.hair_color@
                    + (m.unknown0962@
                    + (u32s_le_bytes(m.zone@)
                    + (m.class@
                    + (m.face@
                    + (flat_bytes(m.names@)
                    + (m.gender@
                    + (m.eye_color1@
                    + (m.eye_color2@
                    + (m.level@)))))))))))))))))))))))
            ) + rest,
            pre.len() as int,
        ),
{
    titanium_char_info_roundtrip(m, pre, rest);
}

/// Request to enter the world with a character.
#[derive(Debug, Clone)]
pub struct EnterWorldRequest {
    /// 64-byte NUL-padded character name.
    pub name: Vec<u8>,
    pub tutorial: u32,
    pub return_home: u32,
}

impl EnterWorldRequest {
    /// Bytes the record occupies on the wire.
    pub open spec fn spec_size() -> nat {
        72
    }

    /// The wire bytes of the record, fields in order.
    pub open spec fn spec_bytes(&self) -> Seq<u8> {
        self.name@ + (u32_le_bytes(self.tutorial) + (u32_le_bytes(self.return_home)))
    }

    /// Each byte vector holds the count it is read with.
    pub open spec fn well_sized(&self) -> bool {
        self.name@.len() == 64
    }

    /// `self` is the record stored at `s[i..i + 72]`.
    pub open spec fn decodes_from(&self, s: Seq<u8>, i: int) -> bool {
        &&& self.name@ == s.subrange(i + 0, i + 0 + 64)
        &&& self.tutorial == le_u32(s, i + 64)
        &&& self.return_home == le_u32(s, i + 68)
    }

    /// Decodes the record stored at `b[i..i + 72]`.
    pub fn read_at(b: &[u8], i: usize) -> (r: EnterWorldRequest)
        requires
            i + 72 <= b@.len(),
        ensures
            r.decodes_from(b@, i as int),
            r.well_sized(),
    {
        let _len = b.len();
        let name = copy_range(b, i + 0, i + 0 + 64);
        let tutorial = read_u32_le(b, i + 64);
        let return_home = read_u32_le(b, i + 68);
        EnterWorldRequest { name, tutorial, return_home }
    }

    /// Decodes the record at the front of `b`; `None` when `b` is shorter than 72 bytes.
    pub fn read(b: &[u8]) -> (r: Option<EnterWorldRequest>)
        ensures
            r is Some <==> b@.len() >= 72,
            r matches Some(m) ==> m.decodes_from(b@, 0),
            r matches Some(m) ==> m.well_sized(),
    {
        if b.len() < 72 {
            return None;
        }
        Some(Self::read_at(b, 0))
    }

    /// Appends the wire bytes of the record.
    pub fn write_to(&self, v: &mut Vec<u8>)
        ensures
            final(v)@ == old(v)@ + self.spec_bytes(),
    {
        let ghost t2 = u32_le_bytes(self.return_home);
        let ghost t1 = u32_le_bytes(self.tutorial) + t2;
        let ghost w0 = v@;
        push_slice(v, self.name.as_slice());
        proof {
            lemma_concat_assoc(w0, self.name@, t1);
        }
        let ghost w1 = v@;
        push_u32_le(v, self.tutorial);
        proof {
            lemma_concat_assoc(w1, u32_le_bytes(self.tutorial), t2);
        }
        let ghost w2 = v@;
        push_u32_le(v, self.return_home);
        proof {
            lemma_concat_empty(v@);
        }
    }

    /// The wire bytes of the record.
    pub fn write(&self) -> (r: Vec<u8>)
        ensures
            r@ == self.spec_bytes(),
    {
        let mut v: Vec<u8> = Vec::new();
        self.write_to(&mut v);
        assert(v@ =~= self.spec_bytes());
        v
    }
}

proof fn enter_world_request_len(m: EnterWorldRequest)
    requires
        m.well_sized(),
    ensures
        m.spec_bytes().len() == 72,
{
    lemma_u32_le_len(m.tutorial);
    lemma_u32_le_len(m.return_home);
}

/// Reading back the bytes written for a `EnterWorldRequest` gives the same record.
pub proof fn enter_world_request_roundtrip(m: EnterWorldRequest, pre: Seq<u8>, rest: Seq<u8>)
    requires
        m.well_sized(),
    ensures
        m.decodes_from(pre + m.spec_bytes() + rest, pre.len() as int),
        m.spec_bytes().len() == 72,
{
    enter_world_request_len(m);
    let e0 = m.name@;
    let e1 = u32_le_bytes(m.tutorial);
    let e2 = u32_le_bytes(m.return_home);
    let t3 = Seq::<u8>::empty();
    let t2 = e2;
    let t1 = e1 + t2;
    let t0 = e0 + t1;
    let s = pre + m.spec_bytes() + rest;
    let i = pre.len() as int;
    lemma_concat_assoc(pre, t0, rest);
    let p0 = pre;
    let r0 = t1 + rest;
    lemma_concat_assoc(e0, t1, rest);
    lemma_concat_assoc(p0, e0, r0);
    lemma_slice_at(m.name@, p0, r0);
    assert(p0.len() == i + 0);
    assert(m.name@ == s.subrange(i + 0, i + 0 + 64));
    let p1 = p0 + e0;
    let r1 = t2 + rest;
    lemma_concat_assoc(e1, t2, rest);
    lemma_concat_assoc(p1, e1, r1);
    lemma_u32_le_roundtrip(m.tutorial, r1, p1);
    assert(p1.len() == i + 64);
    assert(m.tutorial == le_u32(s, i + 64));
    let p2 = p1 + e1;
    let r2 = t3 + rest;
    lemma_concat_assoc(e2, t3, rest);
    lemma_concat_assoc(p2, e2, r2);
    lemma_u32_le_roundtrip(m.return_home, r2, p2);
    assert(p2.len() == i + 68);
    assert(m.return_home == le_u32(s, i + 68));
    let p3 = p2 + e2;
}

/// The fields of a `EnterWorldRequest` stand on the wire packed in their declared order:
/// reading the bytes of its fields laid out one after another, wherever they
/// stand, gives each field back from its own place.
pub proof fn enter_world_request_wire_layout(m: EnterWorldRequest, pre: Seq<u8>, rest: Seq<u8>)
    requires
        m.well_sized(),
    ensures
        m.decodes_from(
            pre + (
                m.name@ + (u32_le_bytes(m.tutorial) + (u32_le_bytes(m.return_home)))
            ) + rest,
            pre.len() as int,
        ),
{
    enter_world_request_roundtrip(m, pre, rest);
}

/// Login to the world server (488 bytes): the account key block and the zoning flag.
#[derive(Debug, Clone)]
pub struct LoginInfo {
    pub login_info: Vec<u8>,
    pub unknown064: Vec<u8>,
    pub zoning: u8,
    pub unknown189: Vec<u8>,
}

impl LoginInfo {
    /// Bytes the record occupies on the wire.
    pub open spec fn spec_size() -> nat {
        488
    }

    /// The wire bytes of the record, fields in order.
    pub open spec fn spec_bytes(&self) -> Seq<u8> {
        self.login_info@
            + (self.unknown064@
            + (seq![self.zoning]
            + (self.unknown189@)))
    }

    /// Each byte vector holds the count it is read with.
    pub open spec fn well_sized(&self) -> bool {
        self.login_info@.len() == 64 && self.unknown064@.len() == 124 && self.unknown189@.len() == 299
    }

    /// `self` is the record stored at `s[i..i + 488]`.
    pub open spec fn decodes_from(&self, s: Seq<u8>, i: int) -> bool {
        &&& self.login_info@ == s.subrange(i + 0, i + 0 + 64)
        &&& self.unknown064@ == s.subrange(i + 64, i + 64 + 124)
        &&& self.zoning == s[i + 188]
        &&& self.unknown189@ == s.subrange(i + 189, i + 189 + 299)
    }

    /// Decodes the record stored at `b[i..i + 488]`.
    pub fn read_at(b: &[u8], i: usize) -> (r: LoginInfo)
        requires
            i + 488 <= b@.len(),
        ensures
            r.decodes_from(b@, i as int),
            r.well_sized(),
    {
        let _len = b.len();
        let login_info = copy_range(b, i + 0, i + 0 + 64);
        let unknown064 = copy_range(b, i + 64, i + 64 + 124);
        let zoning = b[i + 188];
        let unknown189 = copy_range(b, i + 189, i + 189 + 299);
        LoginInfo { login_info, unknown064, zoning, unknown189 }
    }

    /// Decodes the record at the front of `b`; `None` when `b` is shorter than 488 bytes.
    pub fn read(b: &[u8]) -> (r: Option<LoginInfo>)
        ensures
            r is Some <==> b@.len() >= 488,
            r matches Some(m) ==> m.decodes_from(b@, 0),
            r matches Some(m) ==> m.well_sized(),
    {
        if b.len() < 488 {
            return None;
        }
        Some(Self::read_at(b, 0))
    }

    /// Appends the wire bytes of the record.
    pub fn write_to(&self, v: &mut Vec<u8>)
        ensures
            final(v)@ == old(v)@ + self.spec_bytes(),
    {
        let ghost t3 = self.unknown189@;
        let ghost t2 = seq![self.zoning] + t3;
        let ghost t1 = self.unknown064@ + t2;
        let ghost w0 = v@;
        push_slice(v, self.login_info.as_slice());
        proof {
            lemma_concat_assoc(w0, self.login_info@, t1);
        }
        let ghost w1 = v@;
        push_slice(v, self.unknown064.as_slice());
        proof {
            lemma_concat_assoc(w1, self.unknown064@, t2);
        }
        let ghost w2 = v@;
        v.push(self.zoning);
        proof {
            lemma_concat_assoc(w2, seq![self.zoning], t3);
        }
        let ghost w3 = v@;
        push_slice(v, self.unknown189.as_slice());
        proof {
            lemma_concat_empty(v@);
        }
    }

    /// The wire bytes of the record.
    pub fn write(&self) -> (r: Vec<u8>)
        ensures
            r@ == self.spec_bytes(),
    {
        let mut v: Vec<u8> = Vec::new();
        self.write_to(&mut v);
        assert(v@ =~= self.spec_bytes());
        v
    }
}

proof fn login_info_len(m: LoginInfo)
    requires
        m.well_sized(),
    ensures
        m.spec_bytes().len() == 488,
{
}

/// Reading back the bytes written for a `LoginInfo` gives the same record.
pub proof fn login_info_roundtrip(m: LoginInfo, pre: Seq<u8>, rest: Seq<u8>)
    requires
        m.well_sized(),
    ensures
        m.decodes_from(pre + m.spec_bytes() + rest, pre.len() as int),
        m.spec_bytes().len() == 488,
{
    login_info_len(m);
    let e0 = m.login_info@;
    let e1 = m.unknown064@;
    let e2 = seq![m.zoning];
    let e3 = m.unknown189@;
    let t4 = Seq::<u8>::empty();
    let t3 = e3;
    let t2 = e2 + t3;
    let t1 = e1 + t2;
    let t0 = e0 + t1;
    let s = pre + m.spec_bytes() + rest;
    let i = pre.len() as int;
    lemma_concat_assoc(pre, t0, rest);
    let p0 = pre;
    let r0 = t1 + rest;
    lemma_concat_assoc(e0, t1, rest);
    lemma_concat_assoc(p0, e0, r0);
    lemma_slice_at(m.login_info@, p0, r0);
    assert(p0.len() == i + 0);
    assert(m.login_info@ == s.subrange(i + 0, i + 0 + 64));
    let p1 = p0 + e0;
    let r1 = t2 + rest;
    lemma_concat_assoc(e1, t2, rest);
    lemma_concat_assoc(p1, e1, r1);
    lemma_slice_at(m.unknown064@, p1, r1);
    assert(p1.len() == i + 64);
    assert(m.unknown064@ == s.subrange(i + 64, i + 64 + 124));
    let p2 = p1 + e1;
    let r2 = t3 + rest;
    lemma_concat_assoc(e2, t3, rest);
    lemma_concat_assoc(p2, e2, r2);
    lemma_u8_at(m.zoning, p2, r2);
    assert(p2.len() == i + 188);
    assert(m.zoning == s[i + 188]);
    let p3 = p2 + e2;
    let r3 = t4 + rest;
    lemma_concat_assoc(e3, t4, rest);
    lemma_concat_assoc(p3, e3, r3);
    lemma_slice_at(m.unknown189@, p3, r3);
    assert(p3.len() == i + 189);
    assert(m.unknown189@ == s.subrange(i + 189, i + 189 + 299));
    let p4 = p3 + e3;
}

/// The fields of a `LoginInfo` stand on the wire packed in their declared order:
/// reading the bytes of its fields laid out one after another, wherever they
/// stand, gives each field back from its own place.
pub proof fn login_info_wire_layout(m: LoginInfo, pre: Seq<u8>, rest: Seq<u8>)
    requires
        m.well_sized(),
    ensures
        m.decodes_from(
            pre + (
                m.login_info@
                    + (m.unknown064@
                    + (seq![m.zoning]
                    + (m.unknown189@)))
            ) + rest,
            pre.len() as int,
        ),
{
    login_info_roundtrip(m, pre, rest);
}

/// Hand-over to a zone server: character, zone, and the address and port of the zone server.
#[derive(Debug, Clone)]
pub struct ZoneEntry {
    /// 64-byte character name.
    pub char_name: Vec<u8>,
    pub unknown: Vec<u8>,
    /// NUL-padded short zone name.
    pub zone_short_name: [u8; 32],
    pub zone_id: u32,
    pub unknown2: u32,
    /// NUL-padded dotted IP address text.
    pub ip: [u8; 20],
    pub unknown3: Vec<u8>,
    pub port: u32,
}

impl ZoneEntry {
    /// Bytes the record occupies on the wire.
    pub open spec fn spec_size() -> nat {
        276
    }

    /// The wire bytes of the record, fields in order.
    pub open spec fn spec_bytes(&self) -> Seq<u8> {
        self.char_name@
            + (self.unknown@
            + (self.zone_short_name@
            + (u32_le_bytes(self.zone_id)
            + (u32_le_bytes(self.unknown2)
            + (self.ip@
            + (self.unknown3@
            + (u32_le_bytes(self.port))))))))
    }

    /// Each byte vector holds the count it is read with.
    pub open spec fn well_sized(&self) -> bool {
        self.char_name@.len() == 64 && self.unknown@.len() == 120 && self.unknown3@.len() == 28
    }

    /// `self` is the record stored at `s[i..i + 276]`.
    pub open spec fn decodes_from(&self, s: Seq<u8>, i: int) -> bool {
        &&& self.char_name@ == s.subrange(i + 0, i + 0 + 64)
        &&& self.unknown@ == s.subrange(i + 64, i + 64 + 120)
        &&& self.zone_short_name@ == s.subrange(i + 184, i + 184 + 32)
        &&& self.zone_id == le_u32(s, i + 216)
        &&& self.unknown2 == le_u32(s, i + 220)
        &&& self.ip@ == s.subrange(i + 224, i + 224 + 20)
        &&& self.unknown3@ == s.subrange(i + 244, i + 244 + 28)
        &&& self.port == le_u32(s, i + 272)
    }

    /// Decodes the record stored at `b[i..i + 276]`.
    pub fn read_at(b: &[u8], i: usize) -> (r: ZoneEntry)
        requires
            i + 276 <= b@.len(),
        ensures
            r.decodes_from(b@, i as int),
            r.well_sized(),
    {
        let _len = b.len();
        let char_name = copy_range(b, i + 0, i + 0 + 64);
        let unknown = copy_range(b, i + 64, i + 64 + 120);
        let zone_short_name = read_array::<32>(b, i + 184);
        let zone_id = read_u32_le(b, i + 216);
        let unknown2 = read_u32_le(b, i + 220);
        let ip = read_array::<20>(b, i + 224);
        let unknown3 = copy_range(b, i + 244, i + 244 + 28);
        let port = read_u32_le(b, i + 272);
        ZoneEntry { char_name, unknown, zone_short_name, zone_id, unknown2, ip, unknown3, port }
    }

    /// Decodes the record at the front of `b`; `None` when `b` is shorter than 276 bytes.
    pub fn read(b: &[u8]) -> (r: Option<ZoneEntry>)
        ensures
            r is Some <==> b@.len() >= 276,
            r matches Some(m) ==> m.decodes_from(b@, 0),
            r matches Some(m) ==> m.well_sized(),
    {
        if b.len() < 276 {
            return None;
        }
        Some(Self::read_at(b, 0))
    }

    /// Appends the wire bytes of the record.
    pub fn write_to(&self, v: &mut Vec<u8>)
        ensures
            final(v)@ == old(v)@ + self.spec_bytes(),
    {
        let ghost t7 = u32_le_bytes(self.port);
        let ghost t6 = self.unknown3@ + t7;
        let ghost t5 = self.ip@ + t6;
        let ghost t4 = u32_le_bytes(self.unknown2) + t5;
        let ghost t3 = u32_le_bytes(self.zone_id) + t4;
        let ghost t2 = self.zone_short_name@ + t3;
        let ghost t1 = self.unknown@ + t2;
        let ghost w0 = v@;
        push_slice(v, self.char_name.as_slice());
        proof {
            lemma_concat_assoc(w0, self.char_name@, t1);
        }
        let ghost w1 = v@;
        push_slice(v, self.unknown.as_slice());
        proof {
            lemma_concat_assoc(w1, self.unknown@, t2);
        }
        let ghost w2 = v@;
        push_slice(v, self.zone_short_name.as_slice());
        proof {
            lemma_concat_assoc(w2, self.zone_short_name@, t3);
        }
        let ghost w3 = v@;
        push_u32_le(v, self.zone_id);
        proof {
            lemma_concat_assoc(w3, u32_le_bytes(self.zone_id), t4);
        }
        let ghost w4 = v@;
        push_u32_le(v, self.unknown2);
        proof {
            lemma_concat_assoc(w4, u32_le_bytes(self.unknown2), t5);
        }
        let ghost w5 = v@;
        push_slice(v, self.ip.as_slice());
        proof {
            lemma_concat_assoc(w5, self.ip@, t6);
        }
        let ghost w6 = v@;
        push_slice(v, self.unknown3.as_slice());
        proof {
            lemma_concat_assoc(w6, self.unknown3@, t7);
        }
        let ghost w7 = v@;
        push_u32_le(v, self.port);
        proof {
            lemma_concat_empty(v@);
        }
    }

    /// The wire bytes of the record.
    pub fn write(&self) -> (r: Vec<u8>)
        ensures
            r@ == self.spec_bytes(),
    {
        let mut v: Vec<u8> = Vec::new();
        self.write_to(&mut v);
        assert(v@ =~= self.spec_bytes());
        v
    }
}

proof fn zone_entry_len(m: ZoneEntry)
    requires
        m.well_sized(),
    ensures
        m.spec_bytes().len() == 276,
{
    lemma_u32_le_len(m.zone_id);
    lemma_u32_le_len(m.unknown2);
    lemma_u32_le_len(m.port);
}

/// Reading back the bytes written for a `ZoneEntry` gives the same record.
pub proof fn zone_entry_roundtrip(m: ZoneEntry, pre: Seq<u8>, rest: Seq<u8>)
    requires
        m.well_sized(),
    ensures
        m.decodes_from(pre + m.spec_bytes() + rest, pre.len() as int),
        m.spec_bytes().len() == 276,
{
    zone_entry_len(m);
    let e0 = m.char_name@;
    let e1 = m.unknown@;
    let e2 = m.zone_short_name@;
    let e3 = u32_le_bytes(m.zone_id);
    let e4 = u32_le_bytes(m.unknown2);
    let e5 = m.ip@;
    let e6 = m.unknown3@;
    let e7 = u32_le_bytes(m.port);
    let t8 = Seq::<u8>::empty();
    let t7 = e7;
    let t6 = e6 + t7;
    let t5 = e5 + t6;
    let t4 = e4 + t5;
    let t3 = e3 + t4;
    let t2 = e2 + t3;
    let t1 = e1 + t2;
    let t0 = e0 + t1;
    let s = pre + m.spec_bytes() + rest;
    let i = pre.len() as int;
    lemma_concat_assoc(pre, t0, rest);
    let p0 = pre;
    let r0 = t1 + rest;
    lemma_concat_assoc(e0, t1, rest);
    lemma_concat_assoc(p0, e0, r0);
    lemma_slice_at(m.char_name@, p0, r0);
    assert(p0.len() == i + 0);
    assert(m.char_name@ == s.subrange(i + 0, i + 0 + 64));
    let p1 = p0 + e0;
    let r1 = t2 + rest;
    lemma_concat_assoc(e1, t2, rest);
    lemma_concat_assoc(p1, e1, r1);
    lemma_slice_at(m.unknown@, p1, r1);
    assert(p1.len() == i + 64);
    assert(m.unknown@ == s.subrange(i + 64, i + 64 + 120));
    let p2 = p1 + e1;
    let r2 = t3 + rest;
    lemma_concat_assoc(e2, t3, rest);
    lemma_concat_assoc(p2, e2, r2);
    lemma_slice_at(m.zone_short_name@, p2, r2);
    assert(p2.len() == i + 184);
    assert(m.zone_short_name@ == s.subrange(i + 184, i + 184 + 32));
    let p3 = p2 + e2;
    let r3 = t4 + rest;
    lemma_concat_assoc(e3, t4, rest);
    lemma_concat_assoc(p3, e3, r3);
    lemma_u32_le_roundtrip(m.zone_id, r3, p3);
    assert(p3.len() == i + 216);
    assert(m.zone_id == le_u32(s, i + 216));
    let p4 = p3 + e3;
    let r4 = t5 + rest;
    lemma_concat_assoc(e4, t5, rest);
    lemma_concat_assoc(p4, e4, r4);
    lemma_u32_le_roundtrip(m.unknown2, r4, p4);
    assert(p4.len() == i + 220);
    assert(m.unknown2 == le_u32(s, i + 220));
    let p5 = p4 + e4;
    let r5 = t6 + rest;
    lemma_concat_assoc(e5, t6, rest);
    lemma_concat_assoc(p5, e5, r5);
    lemma_slice_at(m.ip@, p5, r5);
    assert(p5.len() == i + 224);
    assert(m.ip@ == s.subrange(i + 224, i + 224 + 20));
    let p6 = p5 + e5;
    let r6 = t7 + rest;
    lemma_concat_assoc(e6, t7, rest);
    lemma_concat_assoc(p6, e6, r6);
    lemma_slice_at(m.unknown3@, p6, r6);
    assert(p6.len() == i + 244);
    assert(m.unknown3@ == s.subrange(i + 244, i + 244 + 28));
    let p7 = p6 + e6;
    let r7 = t8 + rest;
    lemma_concat_assoc(e7, t8, rest);
    lemma_concat_assoc(p7, e7, r7);
    lemma_u32_le_roundtrip(m.port, r7, p7);
    assert(p7.len() == i + 272);
    assert(m.port == le_u32(s, i + 272));
    let p8 = p7 + e7;
}

/// The fields of a `ZoneEntry` stand on the wire packed in their declared order:
/// reading the bytes of its fields laid out one after another, wherever they
/// stand, gives each field back from its own place.
pub proof fn zone_entry_wire_layout(m: ZoneEntry, pre: Seq<u8>, rest: Seq<u8>)
    requires
        m.well_sized(),
    ensures
        m.decodes_from(
            pre + (
                m.char_name@
                    + (m.unknown@
                    + (m.zone_short_name@
                    + (u32_le_bytes(m.zone_id)
                    + (u32_le_bytes(m.unknown2)
                    + (m.ip@
                    + (m.unknown3@
                    + (u32_le_bytes(m.port))))))))
            ) + rest,
            pre.len() as int,
        ),
{
    zone_entry_roundtrip(m, pre, rest);
}

/// Identification of the character to a zone server (client to zone).
#[derive(Debug, Clone, Copy)]
pub struct ClientZoneEntry {
    pub unknown00: u32,
    /// NUL-terminated character name.
    pub char_name: [u8; 64],
}

impl ClientZoneEntry {
    /// Bytes the record occupies on the wire.
    pub open spec fn spec_size() -> nat {
        68
    }

    /// The wire bytes of the record, fields in order.
    pub open spec fn spec_bytes(&self) -> Seq<u8> {
        u32_le_bytes(self.unknown00) + (self.char_name@)
    }

    /// `self` is the record stored at `s[i..i + 68]`.
    pub open spec fn decodes_from(&self, s: Seq<u8>, i: int) -> bool {
        &&& self.unknown00 == le_u32(s, i + 0)
        &&& self.char_name@ == s.subrange(i + 4, i + 4 + 64)
    }

    /// Decodes the record stored at `b[i..i + 68]`.
    pub fn read_at(b: &[u8], i: usize) -> (r: ClientZoneEntry)
        requires
            i + 68 <= b@.len(),
        ensures
            r.decodes_from(b@, i as int),
    {
        let _len = b.len();
        let unknown00 = read_u32_le(b, i + 0);
        let char_name = read_array::<64>(b, i + 4);
        ClientZoneEntry { unknown00, char_name }
    }

    /// Decodes the record at the front of `b`; `None` when `b` is shorter than 68 bytes.
    pub fn read(b: &[u8]) -> (r: Option<ClientZoneEntry>)
        ensures
            r is Some <==> b@.len() >= 68,
            r matches Some(m) ==> m.decodes_from(b@, 0),
    {
        if b.len() < 68 {
            return None;
        }
        Some(Self::read_at(b, 0))
    }

    /// Appends the wire bytes of the record.
    pub fn write_to(&self, v: &mut Vec<u8>)
        ensures
            final(v)@ == old(v)@ + self.spec_bytes(),
    {
        let ghost t1 = self.char_name@;
        let ghost w0 = v@;
        push_u32_le(v, self.unknown00);
        proof {
            lemma_concat_assoc(w0, u32_le_bytes(self.unknown00), t1);
        }
        let ghost w1 = v@;
        push_slice(v, self.char_name.as_slice());
        proof {
            lemma_concat_empty(v@);
        }
    }

    /// The wire bytes of the record.
    pub fn write(&self) -> (r: Vec<u8>)
        ensures
            r@ == self.spec_bytes(),
    {
        let mut v: Vec<u8> = Vec::new();
        self.write_to(&mut v);
        assert(v@ =~= self.spec_bytes());
        v
    }
}

proof fn client_zone_entry_len(m: ClientZoneEntry)
    ensures
        m.spec_bytes().len() == 68,
{
    lemma_u32_le_len(m.unknown00);
}

/// Reading back the bytes written for a `ClientZoneEntry` gives the same record.
pub proof fn client_zone_entry_roundtrip(m: ClientZoneEntry, pre: Seq<u8>, rest: Seq<u8>)
    ensures
        m.decodes_from(pre + m.spec_bytes() + rest, pre.len() as int),
        m.spec_bytes().len() == 68,
{
    client_zone_entry_len(m);
    let e0 = u32_le_bytes(m.unknown00);
    let e1 = m.char_name@;
    let t2 = Seq::<u8>::empty();
    let t1 = e1;
    let t0 = e0 + t1;
    let s = pre + m.spec_bytes() + rest;
    let i = pre.len() as int;
    lemma_concat_assoc(pre, t0, rest);
    let p0 = pre;
    let r0 = t1 + rest;
    lemma_concat_assoc(e0, t1, rest);
    lemma_concat_assoc(p0, e0, r0);
    lemma_u32_le_roundtrip(m.unknown00, r0, p0);
    assert(p0.len() == i + 0);
    assert(m.unknown00 == le_u32(s, i + 0));
    let p1 = p0 + e0;
    let r1 = t2 + rest;
    lemma_concat_assoc(e1, t2, rest);
    lemma_concat_assoc(p1, e1, r1);
    lemma_slice_at(m.char_name@, p1, r1);
    assert(p1.len() == i + 4);
    assert(m.char_name@ == s.subrange(i + 4, i + 4 + 64));
    let p2 = p1 + e1;
}

/// The fields of a `ClientZoneEntry` stand on the wire packed in their declared order:
/// reading the bytes of its fields laid out one after another, wherever they
/// stand, gives each field back from its own place.
pub proof fn client_zone_entry_wire_layout(m: ClientZoneEntry, pre: Seq<u8>, rest: Seq<u8>)
    ensures
        m.decodes_from(
            pre + (
                u32_le_bytes(m.unknown00) + (m.char_name@)
            ) + rest,
            pre.len() as int,
        ),
{
    client_zone_entry_roundtrip(m, pre, rest);
}
} // verus!

