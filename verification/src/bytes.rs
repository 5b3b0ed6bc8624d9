//! Integer encodings used on the wire: little- and big-endian decoding of
//! bytes at an offset, the matching encodings, and readers and writers over
//! byte buffers.
use vstd::prelude::*;

verus! {

/// Little-endian `u16` stored at `s[i..i + 2]`.
pub open spec fn le_u16(s: Seq<u8>, i: int) -> u16 {
    (s[i] + 256 * s[i + 1]) as u16
}

/// Big-endian `u16` stored at `s[i..i + 2]`.
pub open spec fn be_u16(s: Seq<u8>, i: int) -> u16 {
    (256 * s[i] + s[i + 1]) as u16
}

/// Little-endian `u32` stored at `s[i..i + 4]`.
pub open spec fn le_u32(s: Seq<u8>, i: int) -> u32 {
    (s[i] + 256 * s[i + 1] + 65536 * s[i + 2] + 16777216 * s[i + 3]) as u32
}

/// Big-endian `u32` stored at `s[i..i + 4]`.
pub open spec fn be_u32(s: Seq<u8>, i: int) -> u32 {
    (16777216 * s[i] + 65536 * s[i + 1] + 256 * s[i + 2] + s[i + 3]) as u32
}

/// Little-endian two's-complement `i32` stored at `s[i..i + 4]`.
pub open spec fn le_i32(s: Seq<u8>, i: int) -> i32 {
    u32_to_i32(le_u32(s, i))
}

/// The `i32` whose two's-complement bit pattern is `v`.
pub open spec fn u32_to_i32(v: u32) -> i32 {
    if v < 0x8000_0000 {
        v as i32
    } else {
        (v - 0x1_0000_0000) as i32
    }
}

/// The bit pattern of the `i32` `v`.
pub open spec fn i32_to_u32(v: i32) -> u32 {
    if v >= 0 {
        v as u32
    } else {
        (v + 0x1_0000_0000) as u32
    }
}

/// The `i8` whose two's-complement bit pattern is `v`.
pub open spec fn u8_to_i8(v: u8) -> i8 {
    if v < 0x80 {
        v as i8
    } else {
        (v - 0x100) as i8
    }
}

/// The bit pattern of the `i8` `v`.
pub open spec fn i8_to_u8(v: i8) -> u8 {
    if v >= 0 {
        v as u8
    } else {
        (v + 0x100) as u8
    }
}

/// The two bytes of `v`, least significant first.
#[verifier::opaque]
pub open spec fn u16_le_bytes(v: u16) -> Seq<u8> {
    seq![(v % 256) as u8, (v / 256) as u8]
}

/// The two bytes of `v`, most significant first.
#[verifier::opaque]
pub open spec fn u16_be_bytes(v: u16) -> Seq<u8> {
    seq![(v / 256) as u8, (v % 256) as u8]
}

/// The four bytes of `v`, least significant first.
#[verifier::opaque]
pub open spec fn u32_le_bytes(v: u32) -> Seq<u8> {
    seq![(v % 256) as u8, ((v / 256) % 256) as u8, ((v / 65536) % 256) as u8, (v / 16777216) as u8]
}

/// The four bytes of `v`, most significant first.
#[verifier::opaque]
pub open spec fn u32_be_bytes(v: u32) -> Seq<u8> {
    seq![(v / 16777216) as u8, ((v / 65536) % 256) as u8, ((v / 256) % 256) as u8, (v % 256) as u8]
}

/// The four bytes of the two's-complement pattern of `v`, least significant first.
pub open spec fn i32_le_bytes(v: i32) -> Seq<u8> {
    u32_le_bytes(i32_to_u32(v))
}

pub proof fn lemma_u16_le_roundtrip(v: u16, rest: Seq<u8>, pre: Seq<u8>)
    ensures
        le_u16(pre + u16_le_bytes(v) + rest, pre.len() as int) == v,
        (pre + u16_le_bytes(v) + rest).len() == pre.len() + 2 + rest.len(),
{
    reveal(u16_le_bytes);
    let s = pre + u16_le_bytes(v) + rest;
    assert(s[pre.len() as int] == (v % 256) as u8);
    assert(s[pre.len() as int + 1] == (v / 256) as u8);
}

pub proof fn lemma_u16_be_roundtrip(v: u16, rest: Seq<u8>, pre: Seq<u8>)
    ensures
        be_u16(pre + u16_be_bytes(v) + rest, pre.len() as int) == v,
        (pre + u16_be_bytes(v) + rest).len() == pre.len() + 2 + rest.len(),
{
    reveal(u16_be_bytes);
    let s = pre + u16_be_bytes(v) + rest;
    assert(s[pre.len() as int] == (v / 256) as u8);
    assert(s[pre.len() as int + 1] == (v % 256) as u8);
}

pub proof fn lemma_u32_le_roundtrip(v: u32, rest: Seq<u8>, pre: Seq<u8>)
    ensures
        le_u32(pre + u32_le_bytes(v) + rest, pre.len() as int) == v,
        (pre + u32_le_bytes(v) + rest).len() == pre.len() + 4 + rest.len(),
{
    reveal(u32_le_bytes);
    let s = pre + u32_le_bytes(v) + rest;
    let n = pre.len() as int;
    assert(s[n] == (v % 256) as u8);
    assert(s[n + 1] == ((v / 256) % 256) as u8);
    assert(s[n + 2] == ((v / 65536) % 256) as u8);
    assert(s[n + 3] == (v / 16777216) as u8);
}

pub proof fn lemma_u32_be_roundtrip(v: u32, rest: Seq<u8>, pre: Seq<u8>)
    ensures
        be_u32(pre + u32_be_bytes(v) + rest, pre.len() as int) == v,
        (pre + u32_be_bytes(v) + rest).len() == pre.len() + 4 + rest.len(),
{
    reveal(u32_be_bytes);
    let s = pre + u32_be_bytes(v) + rest;
    let n = pre.len() as int;
    assert(s[n] == (v / 16777216) as u8);
    assert(s[n + 1] == ((v / 65536) % 256) as u8);
    assert(s[n + 2] == ((v / 256) % 256) as u8);
    assert(s[n + 3] == (v % 256) as u8);
}

pub proof fn lemma_i32_roundtrip(v: i32)
    ensures
        u32_to_i32(i32_to_u32(v)) == v,
{
}

pub proof fn lemma_i8_roundtrip(v: i8)
    ensures
        u8_to_i8(i8_to_u8(v)) == v,
{
}

/// Reads the little-endian `u16` at `b[i..i + 2]`.
pub fn read_u16_le(b: &[u8], i: usize) -> (r: u16)
    requires
        i + 2 <= b@.len(),
    ensures
        r == le_u16(b@, i as int),
{
    (b[i] as u16) + (b[i + 1] as u16) * 256
}

/// Reads the big-endian `u16` at `b[i..i + 2]`.
pub fn read_u16_be(b: &[u8], i: usize) -> (r: u16)
    requires
        i + 2 <= b@.len(),
    ensures
        r == be_u16(b@, i as int),
{
    (b[i] as u16) * 256 + (b[i + 1] as u16)
}

/// Reads the little-endian `u32` at `b[i..i + 4]`.
pub fn read_u32_le(b: &[u8], i: usize) -> (r: u32)
    requires
        i + 4 <= b@.len(),
    ensures
        r == le_u32(b@, i as int),
{
    (b[i] as u32) + (b[i + 1] as u32) * 256 + (b[i + 2] as u32) * 65536 + (b[i + 3] as u32)
        * 16777216
}

/// Reads the big-endian `u32` at `b[i..i + 4]`.
pub fn read_u32_be(b: &[u8], i: usize) -> (r: u32)
    requires
        i + 4 <= b@.len(),
    ensures
        r == be_u32(b@, i as int),
{
    (b[i] as u32) * 16777216 + (b[i + 1] as u32) * 65536 + (b[i + 2] as u32) * 256 + (b[
        i + 3] as u32)
}

/// Reads the little-endian two's-complement `i32` at `b[i..i + 4]`.
pub fn read_i32_le(b: &[u8], i: usize) -> (r: i32)
    requires
        i + 4 <= b@.len(),
    ensures
        r == le_i32(b@, i as int),
{
    let u = read_u32_le(b, i);
    if u < 0x8000_0000 {
        u as i32
    } else {
        ((u - 0x8000_0000) as i32) - 0x4000_0000 - 0x4000_0000
    }
}

/// Reads the two's-complement `i8` at `b[i]`.
pub fn read_i8(b: &[u8], i: usize) -> (r: i8)
    requires
        i < b@.len(),
    ensures
        r == u8_to_i8(b@[i as int]),
{
    let u = b[i];
    if u < 0x80 {
        u as i8
    } else {
        ((u - 0x80) as i8) - 0x40 - 0x40
    }
}

/// Appends the little-endian bytes of `x`.
pub fn push_u16_le(v: &mut Vec<u8>, x: u16)
    ensures
        final(v)@ == old(v)@ + u16_le_bytes(x),
{
    reveal(u16_le_bytes);
    v.push((x % 256) as u8);
    v.push((x / 256) as u8);
}

/// Appends the big-endian bytes of `x`.
pub fn push_u16_be(v: &mut Vec<u8>, x: u16)
    ensures
        final(v)@ == old(v)@ + u16_be_bytes(x),
{
    reveal(u16_be_bytes);
    v.push((x / 256) as u8);
    v.push((x % 256) as u8);
}

/// Appends the little-endian bytes of `x`.
pub fn push_u32_le(v: &mut Vec<u8>, x: u32)
    ensures
        final(v)@ == old(v)@ + u32_le_bytes(x),
{
    reveal(u32_le_bytes);
    v.push((x % 256) as u8);
    v.push(((x / 256) % 256) as u8);
    v.push(((x / 65536) % 256) as u8);
    v.push((x / 16777216) as u8);
}

/// Appends the big-endian bytes of `x`.
pub fn push_u32_be(v: &mut Vec<u8>, x: u32)
    ensures
        final(v)@ == old(v)@ + u32_be_bytes(x),
{
    reveal(u32_be_bytes);
    v.push((x / 16777216) as u8);
    v.push(((x / 65536) % 256) as u8);
    v.push(((x / 256) % 256) as u8);
    v.push((x % 256) as u8);
}

/// Appends the little-endian bytes of the two's-complement pattern of `x`.
pub fn push_i32_le(v: &mut Vec<u8>, x: i32)
    ensures
        final(v)@ == old(v)@ + i32_le_bytes(x),
{
    let u: u32 = if x >= 0 {
        x as u32
    } else {
        ((x + 0x4000_0000 + 0x4000_0000) as u32) + 0x8000_0000
    };
    push_u32_le(v, u);
}

/// Appends the bytes of `s`.
pub fn push_slice(v: &mut Vec<u8>, s: &[u8])
    ensures
        final(v)@ == old(v)@ + s@,
{
    let ghost v0 = v@;
    v.extend_from_slice(s);
    assert(v@ =~= v0 + s@);
}

/// A copy of `s[start..end]`.
pub fn copy_range(s: &[u8], start: usize, end: usize) -> (r: Vec<u8>)
    requires
        start <= end <= s@.len(),
    ensures
        r@ == s@.subrange(start as int, end as int),
{
    let mut r: Vec<u8> = Vec::new();
    push_slice(&mut r, &s[start..end]);
    r
}

} // verus!
verus! {

/// The little-endian bytes of each of `a`, in order.
pub open spec fn u32s_le_bytes(a: Seq<u32>) -> Seq<u8>
    decreases a.len(),
{
    if a.len() == 0 {
        Seq::empty()
    } else {
        u32_le_bytes(a[0]) + u32s_le_bytes(a.drop_first())
    }
}

/// The bytes of each array of `a`, in order.
pub open spec fn flat_bytes<const N: usize>(a: Seq<[u8; N]>) -> Seq<u8>
    decreases a.len(),
{
    if a.len() == 0 {
        Seq::empty()
    } else {
        a[0]@ + flat_bytes(a.drop_first())
    }
}

pub proof fn lemma_u8_at(v: u8, pre: Seq<u8>, rest: Seq<u8>)
    ensures
        (pre + seq![v] + rest)[pre.len() as int] == v,
        (pre + seq![v] + rest).len() == pre.len() + 1 + rest.len(),
{
}

pub proof fn lemma_slice_at(x: Seq<u8>, pre: Seq<u8>, rest: Seq<u8>)
    ensures
        (pre + x + rest).subrange(pre.len() as int, pre.len() as int + x.len()) == x,
        (pre + x + rest).len() == pre.len() + x.len() + rest.len(),
{
    assert((pre + x + rest).subrange(pre.len() as int, pre.len() as int + x.len()) =~= x);
}

pub proof fn lemma_u32s_le_roundtrip(a: Seq<u32>, pre: Seq<u8>, rest: Seq<u8>)
    ensures
        u32s_le_bytes(a).len() == 4 * a.len(),
        forall|k: int|
            0 <= k < a.len() ==> #[trigger] le_u32(pre + u32s_le_bytes(a) + rest, pre.len() + 4 * k)
                == a[k],
    decreases a.len(),
{
    if a.len() > 0 {
        let t = a.drop_first();
        let head = u32_le_bytes(a[0]);
        lemma_u32s_le_roundtrip(t, pre + head, rest);
        lemma_u32_le_roundtrip(a[0], u32s_le_bytes(t) + rest, pre);
        assert(pre + u32s_le_bytes(a) + rest =~= pre + head + (u32s_le_bytes(t) + rest));
        assert(pre + u32s_le_bytes(a) + rest =~= (pre + head) + u32s_le_bytes(t) + rest);
        assert forall|k: int| 0 <= k < a.len() implies #[trigger] le_u32(
            pre + u32s_le_bytes(a) + rest,
            pre.len() + 4 * k,
        ) == a[k] by {
            if k > 0 {
                assert(pre.len() + 4 * k == (pre + head).len() + 4 * (k - 1));
                assert(t[k - 1] == a[k]);
            }
        }
    }
}

pub proof fn lemma_flat_bytes_roundtrip<const N: usize>(a: Seq<[u8; N]>, pre: Seq<u8>, rest: Seq<u8>)
    ensures
        flat_bytes(a).len() == N * a.len(),
        forall|k: int|
            0 <= k < a.len() ==> (pre + flat_bytes(a) + rest).subrange(
                pre.len() + N * k,
                pre.len() + N * k + N,
            ) == (#[trigger] a[k])@,
    decreases a.len(),
{
    if a.len() > 0 {
        let t = a.drop_first();
        let head = a[0]@;
        lemma_flat_bytes_roundtrip(t, pre + head, rest);
        lemma_slice_at(head, pre, flat_bytes(t) + rest);
        assert(pre + flat_bytes(a) + rest =~= pre + head + (flat_bytes(t) + rest));
        assert(pre + flat_bytes(a) + rest =~= (pre + head) + flat_bytes(t) + rest);
        assert(N * a.len() == N + N * t.len()) by (nonlinear_arith)
            requires
                a.len() == t.len() + 1,
        ;
        assert forall|k: int| 0 <= k < a.len() implies (pre + flat_bytes(a) + rest).subrange(
            pre.len() + N * k,
            pre.len() + N * k + N,
        ) == (#[trigger] a[k])@ by {
            if k > 0 {
                assert(pre.len() + N * k == (pre + head).len() + N * (k - 1)) by (nonlinear_arith)
                    requires
                        (pre + head).len() == pre.len() + N,
                        k > 0,
                ;
                assert(t[k - 1] == a[k]);
            }
        }
    }
}

/// The bytes `b[i..i + N]` as an array.
pub fn read_array<const N: usize>(b: &[u8], i: usize) -> (r: [u8; N])
    requires
        i + N <= b@.len(),
    ensures
        r@ == b@.subrange(i as int, i + N),
{
    let mut r = [0u8; N];
    let mut k: usize = 0;
    let n = b.len();
    while k < N
        invariant
            k <= N,
            n == b@.len(),
            i + N <= b@.len(),
            r@.len() == N,
            forall|j: int| 0 <= j < k ==> r@[j] == b@[i + j],
        decreases N - k,
    {
        r[k] = b[i + k];
        k = k + 1;
    }
    assert(r@ =~= b@.subrange(i as int, i + N));
    r
}

/// The `N` little-endian `u32`s at `b[i..i + 4 * N]`.
pub fn read_u32_array<const N: usize>(b: &[u8], i: usize) -> (r: [u32; N])
    requires
        i + 4 * N <= b@.len(),
    ensures
        forall|k: int| 0 <= k < N ==> #[trigger] r@[k] == le_u32(b@, i + 4 * k),
{
    let mut r = [0u32; N];
    let mut k: usize = 0;
    let n = b.len();
    while k < N
        invariant
            k <= N,
            n == b@.len(),
            i + 4 * N <= b@.len(),
            r@.len() == N,
            forall|j: int| 0 <= j < k ==> #[trigger] r@[j] == le_u32(b@, i + 4 * j),
        decreases N - k,
    {
        r[k] = read_u32_le(b, i + 4 * k);
        k = k + 1;
    }
    r
}

/// The `M` arrays of `N` bytes at `b[i..i + N * M]`.
pub fn read_arrays<const N: usize, const M: usize>(b: &[u8], i: usize) -> (r: [[u8; N]; M])
    requires
        i + N * M <= b@.len(),
    ensures
        forall|k: int| 0 <= k < M ==> (#[trigger] r@[k])@ == b@.subrange(i + N * k, i + N * k + N),
{
    let mut r = [[0u8; N]; M];
    let mut k: usize = 0;
    let n = b.len();
    while k < M
        invariant
            k <= M,
            n == b@.len(),
            i + N * M <= b@.len(),
            r@.len() == M,
            forall|j: int| 0 <= j < k ==> (#[trigger] r@[j])@ == b@.subrange(i + N * j, i + N * j + N),
        decreases M - k,
    {
        assert(N * k + N <= N * M) by (nonlinear_arith)
            requires
                k < M,
        ;
        assert(N * k <= N * k + N);
        r[k] = read_array::<N>(b, i + N * k);
        k = k + 1;
    }
    r
}

/// Appends the little-endian bytes of each of `a`.
pub fn push_u32s_le(v: &mut Vec<u8>, a: &[u32])
    ensures
        final(v)@ == old(v)@ + u32s_le_bytes(a@),
{
    let mut k = a.len();
    let ghost v0 = v@;
    let mut tail: Vec<u8> = Vec::new();
    while k > 0
        invariant
            k <= a@.len(),
            tail@ == u32s_le_bytes(a@.skip(k as int)),
        decreases k,
    {
        k = k - 1;
        let mut t: Vec<u8> = Vec::new();
        push_u32_le(&mut t, a[k]);
        push_slice(&mut t, tail.as_slice());
        assert(a@.skip(k as int).drop_first() =~= a@.skip(k + 1));
        tail = t;
    }
    assert(a@.skip(0) =~= a@);
    push_slice(v, tail.as_slice());
}

/// Appends the bytes of each array of `a`.
pub fn push_arrays<const N: usize>(v: &mut Vec<u8>, a: &[[u8; N]])
    ensures
        final(v)@ == old(v)@ + flat_bytes(a@),
{
    let mut k = a.len();
    let mut tail: Vec<u8> = Vec::new();
    while k > 0
        invariant
            k <= a@.len(),
            tail@ == flat_bytes(a@.skip(k as int)),
        decreases k,
    {
        k = k - 1;
        let mut t: Vec<u8> = Vec::new();
        push_slice(&mut t, a[k].as_slice());
        push_slice(&mut t, tail.as_slice());
        assert(a@.skip(k as int).drop_first() =~= a@.skip(k + 1));
        tail = t;
    }
    assert(a@.skip(0) =~= a@);
    push_slice(v, tail.as_slice());
}

} // verus!
verus! {

/// Appends the two's-complement byte of `x`.
pub fn push_i8(v: &mut Vec<u8>, x: i8)
    ensures
        final(v)@ == old(v)@ + seq![i8_to_u8(x)],
{
    let u: u8 = if x >= 0 {
        x as u8
    } else {
        ((x + 0x40 + 0x40) as u8) + 0x80
    };
    v.push(u);
    assert(v@ =~= old(v)@ + seq![i8_to_u8(x)]);
}

} // verus!
verus! {

pub proof fn lemma_concat_assoc(a: Seq<u8>, b: Seq<u8>, c: Seq<u8>)
    ensures
        (a + b) + c == a + (b + c),
{
    assert((a + b) + c =~= a + (b + c));
}

pub proof fn lemma_concat_empty(a: Seq<u8>)
    ensures
        a + Seq::<u8>::empty() == a,
{
    assert(a + Seq::<u8>::empty() =~= a);
}

} // verus!
verus! {

pub proof fn lemma_u16_le_len(v: u16)
    ensures
        u16_le_bytes(v).len() == 2,
{
    reveal(u16_le_bytes);
}

pub proof fn lemma_u16_be_len(v: u16)
    ensures
        u16_be_bytes(v).len() == 2,
{
    reveal(u16_be_bytes);
}

pub proof fn lemma_u32_le_len(v: u32)
    ensures
        u32_le_bytes(v).len() == 4,
{
    reveal(u32_le_bytes);
}

pub proof fn lemma_u32_be_len(v: u32)
    ensures
        u32_be_bytes(v).len() == 4,
{
    reveal(u32_be_bytes);
}

pub proof fn lemma_u32s_le_len(a: Seq<u32>)
    ensures
        u32s_le_bytes(a).len() == 4 * a.len(),
    decreases a.len(),
{
    if a.len() > 0 {
        lemma_u32_le_len(a[0]);
        lemma_u32s_le_len(a.drop_first());
    }
}

pub proof fn lemma_flat_bytes_len<const N: usize>(a: Seq<[u8; N]>)
    ensures
        flat_bytes(a).len() == N * a.len(),
    decreases a.len(),
{
    if a.len() > 0 {
        lemma_flat_bytes_len(a.drop_first());
        assert(N * a.len() == N + N * (a.len() - 1)) by (nonlinear_arith)
            requires
                a.len() > 0,
        ;
    }
}

} // verus!
