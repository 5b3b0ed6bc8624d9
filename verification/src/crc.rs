//! The keyed CRC-32 that seals each reliable-UDP datagram: the standard
//! reflected CRC-32 (polynomial 0xEDB88320, initial value all ones, final
//! complement) taken over the four little-endian bytes of the session key
//! followed by the datagram's bytes.
use vstd::prelude::*;
use crate::bytes::{push_u32_le, u32_le_bytes};

verus! {

/// One bit step of the reflected CRC-32 register.
pub open spec fn crc_bit(c: u32) -> u32 {
    if c & 1 == 1 {
        (c >> 1) ^ 0xEDB8_8320u32
    } else {
        c >> 1
    }
}

/// Eight bit steps of the register after the byte `b` was folded in.
pub open spec fn crc_byte(c: u32, b: u8) -> u32 {
    crc_bit(crc_bit(crc_bit(crc_bit(crc_bit(crc_bit(crc_bit(crc_bit(c ^ (b as u32)))))))))
}

/// The register after folding in each byte of `s`, first to last.
pub open spec fn crc_update(c: u32, s: Seq<u8>) -> u32
    decreases s.len(),
{
    if s.len() == 0 {
        c
    } else {
        crc_byte(crc_update(c, s.drop_last()), s.last())
    }
}

/// The keyed CRC-32 of `data` under the session key `key`.
pub open spec fn keyed_crc(data: Seq<u8>, key: u32) -> u32 {
    !crc_update(0xFFFF_FFFFu32, u32_le_bytes(key) + data)
}

fn crc_step(c: u32) -> (r: u32)
    ensures
        r == crc_bit(c),
{
    if c & 1 == 1 {
        (c >> 1) ^ 0xEDB8_8320u32
    } else {
        c >> 1
    }
}

fn crc_fold_byte(c: u32, b: u8) -> (r: u32)
    ensures
        r == crc_byte(c, b),
{
    let mut x = c ^ (b as u32);
    x = crc_step(x);
    x = crc_step(x);
    x = crc_step(x);
    x = crc_step(x);
    x = crc_step(x);
    x = crc_step(x);
    x = crc_step(x);
    crc_step(x)
}

fn crc_fold(c: u32, s: &[u8]) -> (r: u32)
    ensures
        r == crc_update(c, s@),
{
    let mut acc = c;
    let mut i: usize = 0;
    while i < s.len()
        invariant
            i <= s@.len(),
            acc == crc_update(c, s@.subrange(0, i as int)),
        decreases s@.len() - i,
    {
        assert(s@.subrange(0, i + 1).drop_last() =~= s@.subrange(0, i as int));
        acc = crc_fold_byte(acc, s[i]);
        i = i + 1;
    }
    assert(s@.subrange(0, i as int) =~= s@);
    acc
}

proof fn lemma_crc_update_append(c: u32, a: Seq<u8>, b: Seq<u8>)
    ensures
        crc_update(c, a + b) == crc_update(crc_update(c, a), b),
    decreases b.len(),
{
    if b.len() == 0 {
        assert(a + b =~= a);
    } else {
        assert((a + b).drop_last() =~= a + b.drop_last());
        lemma_crc_update_append(c, a, b.drop_last());
    }
}

/// The keyed CRC-32 of `data` under `key`.
pub fn crc32_with_key(data: &[u8], key: u32) -> (r: u32)
    ensures
        r == keyed_crc(data@, key),
{
    let mut k: Vec<u8> = Vec::new();
    push_u32_le(&mut k, key);
    let c1 = crc_fold(0xFFFF_FFFFu32, k.as_slice());
    let c2 = crc_fold(c1, data);
    proof {
        assert(k@ =~= u32_le_bytes(key));
        lemma_crc_update_append(0xFFFF_FFFFu32, k@, data@);
    }
    !c2
}

} // verus!
