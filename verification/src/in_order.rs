//! Laws over whole runs of packets: the numbers `s`, `s + 1`, ... arriving in
//! any order come out in sequence, and a run of fragments comes out as one
//! reassembled packet.
use vstd::prelude::*;
use crate::bytes::{be_u32, u32_be_bytes};
use crate::udp_engine::{
    LinkParams, RecvState, sequenced, drain, payload_step, seq_distance, seq_next, seq_prev,
    raw_frame, ack_packet,
};

verus! {

/// The sequence number `i` places after `s`, wrapping after 65535.
pub open spec fn seq_at(s: u16, i: int) -> u16 {
    ((s + i) % 65536) as u16
}

/// Application packets (opcode 0x09) numbered `s`, `s + 1`, ... and carrying
/// `ps[0]`, `ps[1]`, ..., arriving in the order `order`: the `j`-th arrival
/// is the packet `order[j]`, as its sequence number and payload.
pub open spec fn arrivals(s: u16, order: Seq<int>, ps: Seq<Seq<u8>>) -> Seq<(u16, Seq<u8>)> {
    Seq::new(order.len(), |j: int| (seq_at(s, order[j]), ps[order[j]]))
}

/// The receive state, the delivered payloads and the datagrams sent once the
/// application packets `arr` (sequence number and payload, opcode 0x09) have
/// been handled one after another (see `sequenced`).
pub open spec fn replay(p: LinkParams, st: RecvState, arr: Seq<(u16, Seq<u8>)>, stream_id: u8) -> (
    RecvState,
    Seq<Seq<u8>>,
    Seq<Seq<u8>>,
)
    decreases arr.len(),
{
    if arr.len() == 0 {
        (st, Seq::empty(), Seq::empty())
    } else {
        let (st1, out1, sent1) = replay(p, st, arr.drop_last(), stream_id);
        let (st2, out2, sent2) = sequenced(p, st1, arr.last().0, 0x09, arr.last().1, stream_id);
        (st2, out1 + out2, sent1 + sent2)
    }
}

proof fn lemma_seq_at(s: u16, i: int)
    requires
        0 <= i < 65536,
    ensures
        seq_distance(seq_at(s, i), s) == i,
        seq_next(seq_at(s, i)) == seq_at(s, i + 1),
        seq_prev(seq_at(s, i + 1)) == seq_at(s, i),
        seq_at(s, 0) == s,
{
}

proof fn lemma_seq_gap(s: u16, m: int, i: int)
    requires
        0 <= m <= i < 65536,
    ensures
        seq_distance(seq_at(s, i), seq_at(s, m)) == i - m,
{
}

proof fn lemma_seq_at_distance(key: u16, s: u16)
    ensures
        seq_at(s, seq_distance(key, s)) == key,
        0 <= seq_distance(key, s) < 65536,
{
}

/// The buffer `ooo` holds exactly the application packets `held` of the run
/// numbered from `s`: the packet `i` under the number `seq_at(s, i)`, as its
/// opcode 0x09 and then `ps[i]`.
spec fn holds(ooo: Map<u16, Seq<u8>>, s: u16, ps: Seq<Seq<u8>>, held: Set<int>) -> bool {
    &&& ooo.dom().finite()
    &&& forall|key: u16| #[trigger] ooo.contains_key(key) ==> held.contains(seq_distance(key, s))
    &&& forall|i: int| #[trigger] held.contains(i) ==> {
        &&& 0 <= i < ps.len()
        &&& ooo.contains_key(seq_at(s, i))
        &&& ooo[seq_at(s, i)] == seq![0x09u8] + ps[i]
    }
}

/// Taking the packet `a` out of a buffer that holds it leaves a buffer that
/// holds the others.
proof fn lemma_holds_remove(ooo: Map<u16, Seq<u8>>, s: u16, ps: Seq<Seq<u8>>, held: Set<int>, a: int)
    requires
        ps.len() <= 32768,
        holds(ooo, s, ps, held),
        held.contains(a),
    ensures
        holds(ooo.remove(seq_at(s, a)), s, ps, held.remove(a)),
{
    let ooo1 = ooo.remove(seq_at(s, a));
    let held1 = held.remove(a);
    lemma_seq_at(s, a);
    assert forall|k: u16| #[trigger] ooo1.contains_key(k) implies held1.contains(seq_distance(k, s)) by {
        lemma_seq_at_distance(k, s);
    }
    assert forall|i: int| #[trigger] held1.contains(i) implies {
        &&& 0 <= i < ps.len()
        &&& ooo1.contains_key(seq_at(s, i))
        &&& ooo1[seq_at(s, i)] == seq![0x09u8] + ps[i]
    } by {
        lemma_seq_at(s, i);
    }
}

/// One step of draining: the held packet `a`, next in line, is delivered.
proof fn lemma_drain_step(st: RecvState, s: u16, ps: Seq<Seq<u8>>, held: Set<int>, a: int)
    requires
        0 <= a < 65535,
        st.seq_in == seq_at(s, a),
        holds(st.ooo, s, ps, held),
        held.contains(a),
    ensures
        ({
            let st1 = RecvState {
                seq_in: seq_at(s, a + 1),
                ooo: st.ooo.remove(seq_at(s, a)),
                frag: st.frag,
                frag_total: st.frag_total,
            };
            drain(st) == (drain(st1).0, seq![ps[a]] + drain(st1).1)
        }),
{
    lemma_seq_at(s, a);
    let b0 = st.ooo[st.seq_in];
    assert(b0[0] == 0x09u8);
    assert(b0.skip(1) =~= ps[a]);
    let st1 = RecvState {
        seq_in: seq_next(st.seq_in),
        ooo: st.ooo.remove(st.seq_in),
        frag: st.frag,
        frag_total: st.frag_total,
    };
    assert(payload_step(st1, b0[0], b0.skip(1)) == (st1, seq![ps[a]]));
}

/// Draining a buffer of application packets of the run, starting at packet
/// `a`, delivers the packets `a..b` that are held, in order, where `b` is the
/// first one not held, and leaves the rest in the buffer.
proof fn lemma_drain_run(st: RecvState, s: u16, ps: Seq<Seq<u8>>, held: Set<int>, a: int) -> (b: int)
    requires
        ps.len() <= 32768,
        0 <= a <= ps.len(),
        st.seq_in == seq_at(s, a),
        holds(st.ooo, s, ps, held),
        forall|i: int| #[trigger] held.contains(i) ==> a <= i,
    ensures
        a <= b <= ps.len(),
        forall|i: int| a <= i < b ==> #[trigger] held.contains(i),
        b < ps.len() ==> !held.contains(b),
        drain(st).0.seq_in == seq_at(s, b),
        drain(st).0.frag == st.frag,
        drain(st).0.frag_total == st.frag_total,
        holds(drain(st).0.ooo, s, ps, Set::new(|i: int| held.contains(i) && i >= b)),
        drain(st).1 == ps.subrange(a, b),
    decreases ps.len() - a,
{
    lemma_seq_at(s, a);
    if held.contains(a) {
        lemma_drain_step(st, s, ps, held, a);
        lemma_holds_remove(st.ooo, s, ps, held, a);
        let st1 = RecvState {
            seq_in: seq_at(s, a + 1),
            ooo: st.ooo.remove(seq_at(s, a)),
            frag: st.frag,
            frag_total: st.frag_total,
        };
        let held1 = held.remove(a);
        let b = lemma_drain_run(st1, s, ps, held1, a + 1);
        assert(Set::new(|i: int| held1.contains(i) && i >= b) =~= Set::new(
            |i: int| held.contains(i) && i >= b,
        ));
        assert(ps.subrange(a, b) =~= seq![ps[a]] + ps.subrange(a + 1, b));
        b
    } else {
        if st.ooo.contains_key(st.seq_in) {
            assert(held.contains(a));
        }
        assert(drain(st) == (st, Seq::<Seq<u8>>::empty()));
        assert(Set::new(|i: int| held.contains(i) && i >= a) =~= held);
        assert(ps.subrange(a, a) =~= Seq::<Seq<u8>>::empty());
        a
    }
}

/// After the first `j` arrivals of a run that started with an empty buffer,
/// the packets `0..m` have been delivered in order, where `m` is the first
/// packet not yet arrived, and the later arrivals wait in the buffer.
#[verifier::spinoff_prover]
#[verifier::rlimit(40)]
proof fn lemma_replay_prefix(
    p: LinkParams,
    st: RecvState,
    order: Seq<int>,
    ps: Seq<Seq<u8>>,
    stream_id: u8,
    j: int,
) -> (m: int)
    requires
        st.ooo == Map::<u16, Seq<u8>>::empty(),
        ps.len() <= 32768,
        order.len() == ps.len(),
        order.no_duplicates(),
        forall|t: int| 0 <= t < order.len() ==> 0 <= #[trigger] order[t] < ps.len(),
        0 <= j <= order.len(),
    ensures
        0 <= m <= ps.len(),
        forall|i: int| 0 <= i < m ==> #[trigger] order.take(j).contains(i),
        m < ps.len() ==> !order.take(j).contains(m),
        ({
            let (stj, outj, sentj) = replay(p, st, arrivals(st.seq_in, order, ps).take(j), stream_id);
            &&& stj.seq_in == seq_at(st.seq_in, m)
            &&& stj.frag == st.frag
            &&& stj.frag_total == st.frag_total
            &&& holds(stj.ooo, st.seq_in, ps, Set::new(|i: int| order.take(j).contains(i) && i > m))
            &&& outj == ps.take(m)
        }),
    decreases j,
{
    let s = st.seq_in;
    let arr = arrivals(s, order, ps);
    lemma_seq_at(s, 0);
    if j == 0 {
        assert(arr.take(0) =~= Seq::<(u16, Seq<u8>)>::empty());
        assert(order.take(0) =~= Seq::<int>::empty());
        assert(ps.take(0) =~= Seq::<Seq<u8>>::empty());
        assert(st.ooo.dom() =~= Set::<u16>::empty());
        0
    } else {
        let m0 = lemma_replay_prefix(p, st, order, ps, stream_id, j - 1);
        let (st1, out1, sent1) = replay(p, st, arr.take(j - 1), stream_id);
        assert(arr.take(j).drop_last() =~= arr.take(j - 1));
        let i = order[j - 1];
        assert(arr.take(j).last() == (seq_at(s, i), ps[i]));
        let prev = order.take(j - 1);
        let cur = order.take(j);
        assert(cur =~= prev.push(i));
        assert forall|x: int| #[trigger] cur.contains(x) <==> (prev.contains(x) || x == i) by {
            if cur.contains(x) {
                let t = choose|t: int| 0 <= t < cur.len() && cur[t] == x;
                if t < j - 1 {
                    assert(prev[t] == x);
                }
            }
            if prev.contains(x) {
                let t = choose|t: int| 0 <= t < prev.len() && prev[t] == x;
                assert(cur[t] == x);
            }
            if x == i {
                assert(cur[j - 1] == x);
            }
        }
        if prev.contains(i) {
            let t = choose|t: int| 0 <= t < prev.len() && prev[t] == i;
            assert(order[t] == order[j - 1]);
        }
        assert(!prev.contains(i));
        if i < m0 {
            assert(prev.contains(i));
        }
        assert(0 <= i < ps.len());
        lemma_seq_at(s, i);
        lemma_seq_gap(s, m0, i);
        let held0 = Set::new(|x: int| prev.contains(x) && x > m0);
        if i == m0 {
            let sa = RecvState { seq_in: seq_next(st1.seq_in), ooo: st1.ooo, frag: st1.frag, frag_total: st1.frag_total };
            assert(payload_step(sa, 0x09, ps[i]) == (sa, seq![ps[i]]));
            lemma_seq_at(s, m0);
            let b = lemma_drain_run(sa, s, ps, held0, m0 + 1);
            assert forall|x: int| 0 <= x < b implies #[trigger] cur.contains(x) by {
                if x < m0 {
                    assert(prev.contains(x));
                } else if x > m0 {
                    assert(held0.contains(x));
                }
            }
            if b < ps.len() {
                assert(!held0.contains(b));
                assert(!cur.contains(b));
            }
            assert(Set::new(|x: int| held0.contains(x) && x >= b) =~= Set::new(
                |x: int| cur.contains(x) && x > b,
            ));
            assert(ps.take(m0) + (seq![ps[m0]] + ps.subrange(m0 + 1, b)) =~= ps.take(b));
            b
        } else {
            assert(i > m0);
            assert(seq_distance(seq_at(s, i), seq_at(s, m0)) == i - m0);
            let ooo2 = st1.ooo.insert(seq_at(s, i), seq![0x09u8] + ps[i]);
            let held2 = Set::new(|x: int| cur.contains(x) && x > m0);
            assert forall|k: u16| #[trigger] ooo2.contains_key(k) implies held2.contains(
                seq_distance(k, s),
            ) by {
                lemma_seq_at_distance(k, s);
            }
            assert forall|x: int| #[trigger] held2.contains(x) implies {
                &&& 0 <= x < ps.len()
                &&& ooo2.contains_key(seq_at(s, x))
                &&& ooo2[seq_at(s, x)] == seq![0x09u8] + ps[x]
            } by {
                if x != i {
                    assert(held0.contains(x));
                    lemma_seq_at(s, x);
                }
            }
            if m0 < ps.len() {
                assert(!cur.contains(m0));
            }
            assert(out1 + Seq::<Seq<u8>>::empty() =~= out1);
            m0
        }
    }
}

/// Application packets numbered `s` to `s + k - 1` (at most 32768 of them),
/// handed to `sequenced` once each and in any order, starting from the
/// expected number `s` with an empty buffer, come out exactly in sequence
/// order: every payload once, in the order of the numbers. Afterwards the
/// expected number is `s + k` and the buffer is empty. An arrival that is not
/// the expected one delivers and sends nothing; the expected one sends one
/// acknowledgement, of the highest number delivered so far; the last arrival
/// is always the expected one and acknowledges `s + k - 1`.
pub proof fn any_arrival_order_delivers_in_sequence(
    p: LinkParams,
    st: RecvState,
    order: Seq<int>,
    ps: Seq<Seq<u8>>,
    stream_id: u8,
)
    requires
        st.ooo == Map::<u16, Seq<u8>>::empty(),
        1 <= ps.len() <= 32768,
        order.len() == ps.len(),
        order.no_duplicates(),
        forall|i: int| 0 <= i < ps.len() <==> #[trigger] order.contains(i),
    ensures
        ({
            let arr = arrivals(st.seq_in, order, ps);
            let (fin, out, sent) = replay(p, st, arr, stream_id);
            &&& out == ps
            &&& fin.seq_in == seq_at(st.seq_in, ps.len() as int)
            &&& fin.ooo == Map::<u16, Seq<u8>>::empty()
            &&& fin.frag == st.frag
            &&& fin.frag_total == st.frag_total
            &&& sent.len() >= 1
            &&& sent.last() == raw_frame(p, ack_packet(stream_id, seq_at(st.seq_in, ps.len() - 1)))->0
        }),
        forall|j: int|
            #![trigger replay(p, st, arrivals(st.seq_in, order, ps).take(j + 1), stream_id)]
            0 <= j < ps.len() ==> {
                let arr = arrivals(st.seq_in, order, ps);
                let before = replay(p, st, arr.take(j), stream_id);
                let after = replay(p, st, arr.take(j + 1), stream_id);
                &&& arr[j].0 != before.0.seq_in ==> after.1 == before.1 && after.2 == before.2
                &&& arr[j].0 == before.0.seq_in ==> after.2 == before.2.push(
                    raw_frame(p, ack_packet(stream_id, seq_prev(after.0.seq_in)))->0,
                )
            },
{
    let s = st.seq_in;
    let k = ps.len() as int;
    let arr = arrivals(s, order, ps);
    assert forall|t: int| 0 <= t < order.len() implies 0 <= #[trigger] order[t] < ps.len() by {
        assert(order.contains(order[t]));
    }
    assert forall|j: int|
        #![trigger replay(p, st, arrivals(st.seq_in, order, ps).take(j + 1), stream_id)]
        0 <= j < k implies {
        let before = replay(p, st, arr.take(j), stream_id);
        let after = replay(p, st, arr.take(j + 1), stream_id);
        &&& arr[j].0 != before.0.seq_in ==> after.1 == before.1 && after.2 == before.2
        &&& arr[j].0 == before.0.seq_in ==> after.2 == before.2.push(
            raw_frame(p, ack_packet(stream_id, seq_prev(after.0.seq_in)))->0,
        )
    } by {
        assert(arr.take(j + 1).drop_last() =~= arr.take(j));
        let before = replay(p, st, arr.take(j), stream_id);
        let after = replay(p, st, arr.take(j + 1), stream_id);
        assert(before.1 + Seq::<Seq<u8>>::empty() =~= before.1);
        assert(before.2 + Seq::<Seq<u8>>::empty() =~= before.2);
        if arr[j].0 == before.0.seq_in {
            assert(after.2 =~= before.2.push(
                raw_frame(p, ack_packet(stream_id, seq_prev(after.0.seq_in)))->0,
            ));
        }
    }
    let m = lemma_replay_prefix(p, st, order, ps, stream_id, k);
    assert(order.take(k) =~= order);
    assert(arr.take(k) =~= arr);
    if m < k {
        assert(order.contains(m));
    }
    assert(m == k);
    let (fin, out, sent) = replay(p, st, arr, stream_id);
    assert(ps.take(k) =~= ps);
    assert forall|key: u16| !fin.ooo.contains_key(key) by {
        if fin.ooo.contains_key(key) {
            let d = seq_distance(key, s);
            assert(Set::new(|i: int| order.contains(i) && i > m).contains(d));
            assert(order.contains(d));
        }
    }
    assert(fin.ooo =~= Map::<u16, Seq<u8>>::empty());
    let m1 = lemma_replay_prefix(p, st, order, ps, stream_id, k - 1);
    let i = order[k - 1];
    let prev = order.take(k - 1);
    if prev.contains(i) {
        let t = choose|t: int| 0 <= t < prev.len() && prev[t] == i;
        assert(order[t] == order[k - 1]);
    }
    if i < m1 {
        assert(prev.contains(i));
    }
    if i > m1 {
        assert(order.contains(m1));
        let t = choose|t: int| 0 <= t < order.len() && order[t] == m1;
        assert(t != k - 1);
        assert(prev[t] == m1);
        assert(prev.contains(m1));
    }
    assert(i == m1);
    let before = replay(p, st, arr.take(k - 1), stream_id);
    assert(arr[k - 1].0 == seq_at(s, i));
    lemma_seq_at(s, k - 1);
    assert(arr.take(k - 1 + 1) =~= arr);
}

/// The state and the delivered packets once the fragment payloads `frags`
/// have been handled one after another (see `payload_step`).
pub open spec fn fragment_replay(st: RecvState, frags: Seq<Seq<u8>>) -> (RecvState, Seq<Seq<u8>>)
    decreases frags.len(),
{
    if frags.len() == 0 {
        (st, Seq::empty())
    } else {
        let (st1, out1) = fragment_replay(st, frags.drop_last());
        let (st2, out2) = payload_step(st1, 0x0D, frags.last());
        (st2, out1 + out2)
    }
}

/// The fragment payloads that carry `parts`: the first one announces the
/// big-endian total size `total` ahead of its data.
pub open spec fn fragment_payloads(total: u32, parts: Seq<Seq<u8>>) -> Seq<Seq<u8>> {
    Seq::new(
        parts.len(),
        |j: int|
            if j == 0 {
                u32_be_bytes(total) + parts[0]
            } else {
                parts[j]
            },
    )
}

/// While the data gathered stays below the total size, each fragment of a
/// run only adds its data to the reassembly.
proof fn lemma_fragment_prefix(st: RecvState, total: u32, parts: Seq<Seq<u8>>, j: int)
    requires
        st.frag.len() == 0,
        total > 0,
        parts.len() >= 1,
        parts[0].len() > 0,
        1 <= j < parts.len(),
        forall|t: int| 1 <= t < parts.len() ==> #[trigger] parts.take(t).flatten_alt().len() < total,
    ensures
        fragment_replay(st, fragment_payloads(total, parts).take(j)) == (
            RecvState {
                seq_in: st.seq_in,
                ooo: st.ooo,
                frag: parts.take(j).flatten_alt(),
                frag_total: total as usize,
            },
            Seq::<Seq<u8>>::empty(),
        ),
    decreases j,
{
    let fs = fragment_payloads(total, parts);
    assert(fs.take(j).drop_last() =~= fs.take(j - 1));
    assert(parts.take(j).drop_last() =~= parts.take(j - 1));
    if j == 1 {
        assert(fs.take(0) =~= Seq::<Seq<u8>>::empty());
        assert(parts.take(0) =~= Seq::<Seq<u8>>::empty());
        let first = u32_be_bytes(total) + parts[0];
        crate::bytes::lemma_u32_be_roundtrip(total, parts[0], Seq::empty());
        assert(Seq::<u8>::empty() + u32_be_bytes(total) + parts[0] =~= first);
        assert(first.skip(4) =~= parts[0]);
        lemma_flatten_alt_take(parts, 1);
        assert(parts.take(1).flatten_alt().len() < total);
        assert(fragment_replay(st, fs.take(0)) == (st, Seq::<Seq<u8>>::empty()));
        assert(fs.take(1).last() == first);
    } else {
        lemma_fragment_prefix(st, total, parts, j - 1);
        lemma_flatten_alt_take(parts, j);
        lemma_flatten_alt_grows(parts, 1, j - 1);
        assert(parts.take(j - 1).flatten_alt().len() > 0);
        assert(parts.take(j).flatten_alt().len() < total);
        assert(fs.take(j).last() == parts[j - 1]);
    }
}

/// The data of the first `j` parts is that of the first `j - 1` followed by
/// part `j - 1`.
proof fn lemma_flatten_alt_take(parts: Seq<Seq<u8>>, j: int)
    requires
        1 <= j <= parts.len(),
    ensures
        parts.take(j).flatten_alt() == parts.take(j - 1).flatten_alt() + parts[j - 1],
        parts.take(1).flatten_alt() == parts[0],
{
    assert(parts.take(j).drop_last() =~= parts.take(j - 1));
    let one = parts.take(1);
    assert(one.drop_last() =~= Seq::<Seq<u8>>::empty());
    assert(one.drop_last().flatten_alt() =~= Seq::<u8>::empty());
    assert(one.flatten_alt() =~= parts[0]);
}

/// The data of the first `a` parts is no longer than that of the first `b`.
proof fn lemma_flatten_alt_grows(parts: Seq<Seq<u8>>, a: int, b: int)
    requires
        0 <= a <= b <= parts.len(),
    ensures
        parts.take(a).flatten_alt().len() <= parts.take(b).flatten_alt().len(),
    decreases b - a,
{
    if a < b {
        lemma_flatten_alt_grows(parts, a, b - 1);
        assert(parts.take(b).drop_last() =~= parts.take(b - 1));
    }
}

/// A run of fragments (with no reassembly in progress before it), the first
/// announcing `total` bytes and carrying some data, whose data stays below
/// `total` until the last fragment and reaches it with the last, delivers
/// nothing until the last fragment and then the joined data of all of them,
/// once; no reassembly is left in progress and the sequencing is untouched.
pub proof fn fragment_run_reassembles(st: RecvState, total: u32, parts: Seq<Seq<u8>>)
    requires
        st.frag.len() == 0,
        total > 0,
        parts.len() >= 1,
        parts[0].len() > 0,
        forall|t: int| 1 <= t < parts.len() ==> #[trigger] parts.take(t).flatten().len() < total,
        parts.flatten().len() >= total,
    ensures
        forall|t: int|
            0 <= t < parts.len() ==> (#[trigger] fragment_replay(
                st,
                fragment_payloads(total, parts).take(t),
            )).1 == Seq::<Seq<u8>>::empty(),
        ({
            let (fin, out) = fragment_replay(st, fragment_payloads(total, parts));
            &&& out == seq![parts.flatten()]
            &&& fin.frag.len() == 0
            &&& fin.frag_total == 0
            &&& fin.seq_in == st.seq_in
            &&& fin.ooo == st.ooo
        }),
{
    let n = parts.len() as int;
    let fs = fragment_payloads(total, parts);
    assert forall|t: int| 1 <= t < n implies #[trigger] parts.take(t).flatten_alt().len() < total by {
        parts.take(t).lemma_flatten_and_flatten_alt_are_equivalent();
    }
    parts.lemma_flatten_and_flatten_alt_are_equivalent();
    assert forall|t: int| 0 <= t < n implies (#[trigger] fragment_replay(st, fs.take(t))).1
        == Seq::<Seq<u8>>::empty() by {
        if t == 0 {
            assert(fs.take(0) =~= Seq::<Seq<u8>>::empty());
        } else {
            lemma_fragment_prefix(st, total, parts, t);
        }
    }
    assert(fs.take(n) =~= fs);
    assert(parts.take(n) =~= parts);
    assert(fs.drop_last() =~= fs.take(n - 1));
    if n == 1 {
        assert(fs.take(0) =~= Seq::<Seq<u8>>::empty());
        let first = u32_be_bytes(total) + parts[0];
        crate::bytes::lemma_u32_be_roundtrip(total, parts[0], Seq::empty());
        assert(Seq::<u8>::empty() + u32_be_bytes(total) + parts[0] =~= first);
        assert(first.skip(4) =~= parts[0]);
        lemma_flatten_alt_take(parts, 1);
        assert(fragment_replay(st, fs.drop_last()) == (st, Seq::<Seq<u8>>::empty()));
        assert(fs.last() == first);
        assert(Seq::<Seq<u8>>::empty() + seq![parts[0]] =~= seq![parts[0]]);
    } else {
        lemma_fragment_prefix(st, total, parts, n - 1);
        lemma_flatten_alt_take(parts, n);
        lemma_flatten_alt_grows(parts, 1, n - 1);
        assert(parts.take(n - 1).flatten_alt().len() > 0);
        assert(fs.last() == parts[n - 1]);
        let joined = parts.flatten_alt();
        assert(Seq::<Seq<u8>>::empty() + seq![joined] =~= seq![joined]);
    }
}

} // verus!
