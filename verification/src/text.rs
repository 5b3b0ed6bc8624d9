//! Fixed-width, NUL-padded name fields: trimming the padding, the display
//! form of spawn names, and the lossy UTF-8 decoding of the bytes that remain.
use vstd::prelude::*;
use vstd::utf8::{valid_utf8, decode_utf8};

verus! {

/// The characters that `String::from_utf8_lossy` makes of `bytes` that are
/// not valid UTF-8.
pub uninterp spec fn utf8_lossy(bytes: Seq<u8>) -> Seq<char>;

/// The text of `bytes` decoded leniently: valid UTF-8 as it reads, anything
/// else as `String::from_utf8_lossy` makes of it.
pub open spec fn lossy_text(bytes: Seq<u8>) -> Seq<char> {
    if valid_utf8(bytes) {
        decode_utf8(bytes)
    } else {
        utf8_lossy(bytes)
    }
}

/// `String::from_utf8_lossy(bytes).to_string()`. Trusted. Claimed, as the
/// std documentation states, that valid UTF-8 is decoded as it reads; for
/// other bytes only that the result is the named decoding `utf8_lossy` of
/// them (what replaces the invalid sequences is not stated).
#[verifier::external_body]
pub fn string_from_utf8_lossy(bytes: &[u8]) -> (s: String)
    ensures
        s@ == (if valid_utf8(bytes@) {
            decode_utf8(bytes@)
        } else {
            utf8_lossy(bytes@)
        }),
{
    String::from_utf8_lossy(bytes).to_string()
}

/// `s` without its leading NUL bytes.
pub open spec fn trim_front_nul(s: Seq<u8>) -> Seq<u8>
    decreases s.len(),
{
    if s.len() > 0 && s[0] == 0 {
        trim_front_nul(s.drop_first())
    } else {
        s
    }
}

/// `s` without its trailing NUL bytes.
pub open spec fn trim_back_nul(s: Seq<u8>) -> Seq<u8>
    decreases s.len(),
{
    if s.len() > 0 && s.last() == 0 {
        trim_back_nul(s.drop_last())
    } else {
        s
    }
}

/// `s` without its leading and trailing NUL bytes.
pub open spec fn trim_nul(s: Seq<u8>) -> Seq<u8> {
    trim_back_nul(trim_front_nul(s))
}

/// `s` with every underscore replaced by a space.
pub open spec fn underscores_to_spaces(s: Seq<u8>) -> Seq<u8> {
    s.map_values(|c: u8| if c == 0x5F { 0x20u8 } else { c })
}

/// The bytes of `b` without leading and trailing NUL bytes.
pub fn trim_nul_bytes(b: &[u8]) -> (r: Vec<u8>)
    ensures
        r@ == trim_nul(b@),
{
    let n = b.len();
    let mut i: usize = 0;
    assert(b@.subrange(0, n as int) =~= b@);
    while i < n && b[i] == 0
        invariant
            i <= n,
            n == b@.len(),
            trim_front_nul(b@) == trim_front_nul(b@.subrange(i as int, n as int)),
        decreases n - i,
    {
        let ghost t = b@.subrange(i as int, n as int);
        assert(t.drop_first() =~= b@.subrange(i + 1, n as int));
        i = i + 1;
    }
    let mut j: usize = n;
    while j > i && b[j - 1] == 0
        invariant
            i <= j <= n,
            n == b@.len(),
            trim_front_nul(b@) == b@.subrange(i as int, n as int),
            trim_nul(b@) == trim_back_nul(b@.subrange(i as int, j as int)),
        decreases j - i,
    {
        let ghost t = b@.subrange(i as int, j as int);
        assert(t.drop_last() =~= b@.subrange(i as int, j - 1));
        j = j - 1;
    }
    let mut r: Vec<u8> = Vec::new();
    let mut k = i;
    while k < j
        invariant
            i <= k <= j <= n,
            n == b@.len(),
            r@ == b@.subrange(i as int, k as int),
        decreases j - k,
    {
        r.push(b[k]);
        k = k + 1;
        assert(r@ =~= b@.subrange(i as int, k as int));
    }
    r
}

/// `b` with every underscore replaced by a space.
pub fn spaces_for_underscores(b: &[u8]) -> (r: Vec<u8>)
    ensures
        r@ == underscores_to_spaces(b@),
{
    let mut r: Vec<u8> = Vec::new();
    let mut k: usize = 0;
    while k < b.len()
        invariant
            k <= b@.len(),
            r@ == underscores_to_spaces(b@.subrange(0, k as int)),
        decreases b@.len() - k,
    {
        let c = b[k];
        r.push(if c == 0x5F { 0x20u8 } else { c });
        k = k + 1;
        assert(r@ =~= underscores_to_spaces(b@.subrange(0, k as int)));
    }
    assert(b@.subrange(0, b@.len() as int) =~= b@);
    r
}

proof fn lemma_trim_front(s: Seq<u8>) -> (i: int)
    ensures
        0 <= i <= s.len(),
        trim_front_nul(s) == s.subrange(i, s.len() as int),
        forall|k: int| 0 <= k < i ==> s[k] == 0,
        i < s.len() ==> s[i] != 0,
    decreases s.len(),
{
    if s.len() > 0 && s[0] == 0 {
        let i0 = lemma_trim_front(s.drop_first());
        assert(s.drop_first().subrange(i0, s.drop_first().len() as int) =~= s.subrange(
            i0 + 1,
            s.len() as int,
        ));
        assert forall|k: int| 0 <= k < i0 + 1 implies s[k] == 0 by {
            if k > 0 {
                assert(s[k] == s.drop_first()[k - 1]);
            }
        }
        i0 + 1
    } else {
        assert(s.subrange(0, s.len() as int) =~= s);
        0
    }
}

proof fn lemma_trim_back(s: Seq<u8>) -> (j: int)
    ensures
        0 <= j <= s.len(),
        trim_back_nul(s) == s.subrange(0, j),
        forall|k: int| j <= k < s.len() ==> s[k] == 0,
        j > 0 ==> s[j - 1] != 0,
    decreases s.len(),
{
    if s.len() > 0 && s.last() == 0 {
        let j0 = lemma_trim_back(s.drop_last());
        assert(s.drop_last().subrange(0, j0) =~= s.subrange(0, j0));
        assert forall|k: int| j0 <= k < s.len() implies s[k] == 0 by {
            if k < s.len() - 1 {
                assert(s[k] == s.drop_last()[k]);
            }
        }
        if j0 > 0 {
            assert(s[j0 - 1] == s.drop_last()[j0 - 1]);
        }
        j0
    } else {
        assert(s.subrange(0, s.len() as int) =~= s);
        s.len() as int
    }
}

/// Trimming the NUL padding of a field keeps exactly the stretch between the
/// padding: the result is `s[i..j]` for some `i <= j`, every byte before `i`
/// and from `j` on is a NUL, and the result neither starts nor ends with a
/// NUL.
pub proof fn trimming_keeps_the_text_between_the_padding(s: Seq<u8>) -> (ij: (int, int))
    ensures
        0 <= ij.0 <= ij.1 <= s.len(),
        trim_nul(s) == s.subrange(ij.0, ij.1),
        forall|k: int| 0 <= k < ij.0 ==> s[k] == 0,
        forall|k: int| ij.1 <= k < s.len() ==> s[k] == 0,
        trim_nul(s).len() > 0 ==> trim_nul(s)[0] != 0 && trim_nul(s).last() != 0,
{
    let i = lemma_trim_front(s);
    let t = s.subrange(i, s.len() as int);
    let j = lemma_trim_back(t);
    assert(t.subrange(0, j) =~= s.subrange(i, i + j));
    assert forall|k: int| i + j <= k < s.len() implies s[k] == 0 by {
        assert(s[k] == t[k - i]);
    }
    if j > 0 {
        assert(t[0] == s[i]);
    }
    (i, i + j)
}

} // verus!
