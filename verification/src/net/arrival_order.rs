//! Fragments arriving in any order: whatever order a datagram's fragments
//! reach the reassembler in, it holds them back until the last one and then
//! gives back the same packet.

use vstd::prelude::*;
use crate::bytes::be16;
use crate::net::fragmentation::{
    assembled_packet, chunk_count, chunk_size, collected_fragments, concat_payloads, datagram_key,
    expected_offset, fragment_bytes, fragment_plan, fragments_contiguous, fragments_of,
    header_len, insert_by_offset, lemma_chunk_shape, lemma_collected_concat,
    lemma_collected_contiguous, lemma_step_fragment, max_fragment_data, payload_units,
    reassembly_step, run_reassembly, sort_by_offset, ReassemblyOutcome, RecordView,
};

verus! {

/// The elements of `c` among its first `kk` whose positions lie in `s`, in
/// order.
pub open spec fn picked(c: Seq<(u16, Seq<u8>)>, kk: nat, s: Set<int>) -> Seq<(u16, Seq<u8>)>
    decreases kk,
{
    if kk == 0 {
        Seq::empty()
    } else {
        let p = picked(c, (kk - 1) as nat, s);
        if s.contains(kk - 1) {
            p.push(c[kk - 1])
        } else {
            p
        }
    }
}

/// Offsets strictly increase along `c`.
pub open spec fn offsets_increasing(c: Seq<(u16, Seq<u8>)>) -> bool {
    forall|a: int, b: int| 0 <= a < b < c.len() ==> (#[trigger] c[a]).0 < (#[trigger] c[b]).0
}

/// Positions at or past `kk` do not matter to `picked(c, kk, _)`.
#[verifier::spinoff_prover]
proof fn lemma_picked_frame(c: Seq<(u16, Seq<u8>)>, kk: nat, s: Set<int>, i: int)
    requires
        i >= kk,
    ensures
        picked(c, kk, s.insert(i)) == picked(c, kk, s),
    decreases kk,
{
    if kk > 0 {
        lemma_picked_frame(c, (kk - 1) as nat, s, i);
    }
}

/// Inserting element `i` of `c` by offset into the picked elements picks
/// it too.
#[verifier::spinoff_prover]
proof fn lemma_insert_picked(c: Seq<(u16, Seq<u8>)>, kk: nat, s: Set<int>, i: int)
    requires
        offsets_increasing(c),
        kk <= c.len(),
        0 <= i < c.len(),
        !s.contains(i),
    ensures
        insert_by_offset(picked(c, kk, s), c[i]) == if i >= kk {
            picked(c, kk, s).push(c[i])
        } else {
            picked(c, kk, s.insert(i))
        },
    decreases kk,
{
    if kk == 0 {
        assert(seq![c[i]] =~= Seq::<(u16, Seq<u8>)>::empty().push(c[i]));
    } else {
        let k1 = (kk - 1) as nat;
        let p = picked(c, k1, s);
        lemma_insert_picked(c, k1, s, i);
        if i >= kk {
            if s.contains(kk - 1) {
                assert(c[kk - 1].0 < c[i].0);
                assert(p.push(c[kk - 1]).last() == c[kk - 1]);
            }
        } else if i == kk - 1 {
            lemma_picked_frame(c, k1, s, i);
        } else {
            if s.contains(kk - 1) {
                assert(c[i].0 < c[kk - 1].0);
                let q = p.push(c[kk - 1]);
                assert(q.last() == c[kk - 1]);
                assert(q.drop_last() =~= p);
            }
        }
    }
}

/// The positions `perm` names among its first `j` entries.
pub open spec fn arrived_positions(perm: Seq<int>, j: int) -> Set<int> {
    Set::new(|q: int| exists|t: int| 0 <= t < j && perm[t] == q)
}

/// The elements of `c` at the first `j` positions that `perm` names.
pub open spec fn arrived_elements(c: Seq<(u16, Seq<u8>)>, perm: Seq<int>, j: int) -> Seq<(u16, Seq<u8>)> {
    Seq::new(j as nat, |t: int| c[perm[t]])
}

/// Sorting elements that arrive in any order (no position twice) picks
/// them in offset order.
#[verifier::spinoff_prover]
proof fn lemma_sort_arrivals(c: Seq<(u16, Seq<u8>)>, perm: Seq<int>, j: int)
    requires
        offsets_increasing(c),
        0 <= j <= perm.len(),
        forall|t: int| 0 <= t < perm.len() ==> 0 <= #[trigger] perm[t] < c.len(),
        forall|a: int, b: int| 0 <= a < b < perm.len() ==> #[trigger] perm[a] != #[trigger] perm[b],
    ensures
        sort_by_offset(arrived_elements(c, perm, j)) == picked(c, c.len(), arrived_positions(perm, j)),
    decreases j,
{
    if j == 0 {
        assert(arrived_positions(perm, 0) =~= Set::<int>::empty());
        lemma_picked_empty(c, c.len());
    } else {
        let e = arrived_elements(c, perm, j);
        assert(e.drop_last() =~= arrived_elements(c, perm, j - 1));
        lemma_sort_arrivals(c, perm, j - 1);
        let i = perm[j - 1];
        let s0 = arrived_positions(perm, j - 1);
        assert(!s0.contains(i)) by {
            if s0.contains(i) {
                let t = choose|t: int| 0 <= t < j - 1 && perm[t] == i;
                assert(perm[t] != perm[j - 1]);
            }
        }
        lemma_insert_picked(c, c.len(), s0, i);
        assert(s0.insert(i) =~= arrived_positions(perm, j));
    }
}

#[verifier::spinoff_prover]
proof fn lemma_picked_empty(c: Seq<(u16, Seq<u8>)>, kk: nat)
    ensures
        picked(c, kk, Set::<int>::empty()) == Seq::<(u16, Seq<u8>)>::empty(),
    decreases kk,
{
    if kk > 0 {
        lemma_picked_empty(c, (kk - 1) as nat);
    }
}

/// Picking every position gives the prefix itself.
#[verifier::spinoff_prover]
proof fn lemma_picked_all(c: Seq<(u16, Seq<u8>)>, kk: nat, s: Set<int>)
    requires
        kk <= c.len(),
        forall|q: int| 0 <= q < kk ==> s.contains(q),
    ensures
        picked(c, kk, s) == c.subrange(0, kk as int),
    decreases kk,
{
    if kk > 0 {
        lemma_picked_all(c, (kk - 1) as nat, s);
        assert(c.subrange(0, kk - 1).push(c[kk - 1]) =~= c.subrange(0, kk as int));
    }
}

/// Every picked element is an element of `c` at a picked position.
#[verifier::spinoff_prover]
proof fn lemma_picked_members(c: Seq<(u16, Seq<u8>)>, kk: nat, s: Set<int>)
    ensures
        forall|t: int|
            0 <= t < picked(c, kk, s).len() ==> exists|q: int|
                0 <= q < kk && s.contains(q) && #[trigger] picked(c, kk, s)[t] == c[q],
    decreases kk,
{
    if kk > 0 {
        let k1 = (kk - 1) as nat;
        lemma_picked_members(c, k1, s);
        let p = picked(c, k1, s);
        assert forall|t: int| 0 <= t < picked(c, kk, s).len() implies exists|q: int|
            0 <= q < kk && s.contains(q) && #[trigger] picked(c, kk, s)[t] == c[q] by {
            if t < p.len() {
                assert(picked(c, kk, s)[t] == p[t]);
                assert(exists|q: int| 0 <= q < k1 && s.contains(q) && #[trigger] picked(c, k1, s)[t] == c[q]);
                let q = choose|q: int| 0 <= q < k1 && s.contains(q) && #[trigger] picked(c, k1, s)[t] == c[q];
                assert(picked(c, kk, s)[t] == c[q]);
            } else {
                assert(picked(c, kk, s)[t] == c[kk - 1]);
            }
        }
    }
}

/// The shape of the (offset, payload) pairs of a datagram's fragments:
/// fragment `q` sits at `q * m` units, every fragment but the last covers
/// `m` units, the last at least one and at most `m`.
pub open spec fn fragment_shape(c: Seq<(u16, Seq<u8>)>, m: nat) -> bool {
    &&& c.len() >= 1
    &&& m > 0
    &&& c.len() * m < 0x1_0000
    &&& forall|q: int| 0 <= q < c.len() ==> (#[trigger] c[q]).0 == q * m
    &&& forall|q: int| 0 <= q < c.len() - 1 ==> payload_units((#[trigger] c[q]).1) == m
    &&& 1 <= payload_units(c[c.len() - 1].1) <= m
}

#[verifier::spinoff_prover]
#[verifier::rlimit(30)]
proof fn lemma_contiguous_prefix(c: Seq<(u16, Seq<u8>)>, m: nat, s: Set<int>, t: int)
    requires
        fragment_shape(c, m),
        fragments_contiguous(picked(c, c.len(), s)),
        0 <= t < picked(c, c.len(), s).len(),
    ensures
        t < c.len(),
        picked(c, c.len(), s)[t] == c[t],
    decreases t,
{
    let n = c.len();
    let p = picked(c, n, s);
    lemma_picked_members(c, n, s);
    let q = choose|q: int| 0 <= q < n && s.contains(q) && #[trigger] p[t] == c[q];
    assert(p[t].0 == expected_offset(p, t));
    assert(c[q].0 == q * m);
    if t == 0 {
        assert(q * m == 0);
        assert(q == 0) by (nonlinear_arith)
            requires
                q * m == 0,
                m > 0,
                q >= 0,
        ;
    } else {
        lemma_contiguous_prefix(c, m, s, t - 1);
        assert(p[t - 1] == c[t - 1]);
        assert(c[t - 1].0 == (t - 1) * m);
        let u = payload_units(c[t - 1].1);
        assert(u <= m);
        assert((t - 1) * m + u < 0x1_0000) by (nonlinear_arith)
            requires
                t - 1 < n,
                u <= m,
                n * m < 0x1_0000,
        ;
        assert(expected_offset(p, t) == (t - 1) * m + u);
        if t - 1 < n - 1 {
            assert(u == m);
            assert(q * m == (t - 1) * m + m);
            assert(q == t) by (nonlinear_arith)
                requires
                    q * m == (t - 1) * m + m,
                    m > 0,
            ;
        } else {
            assert(u >= 1);
            assert(q * m <= (n - 1) * m) by (nonlinear_arith)
                requires
                    q <= n - 1,
                    m > 0,
            ;
            assert(false);
        }
    }
}

/// When the picked fragments follow each other with no gap and the last
/// fragment is among them, every fragment is.
#[verifier::spinoff_prover]
proof fn lemma_contiguous_complete(c: Seq<(u16, Seq<u8>)>, m: nat, s: Set<int>)
    requires
        fragment_shape(c, m),
        s.contains(c.len() - 1),
        fragments_contiguous(picked(c, c.len(), s)),
    ensures
        forall|q: int| 0 <= q < c.len() ==> s.contains(q),
{
    let n = c.len();
    let p = picked(c, n, s);
    let k1 = (n - 1) as nat;
    assert(p == picked(c, k1, s).push(c[n - 1]));
    let l = p.len() - 1;
    lemma_contiguous_prefix(c, m, s, l);
    assert(c[l].0 == c[n - 1].0);
    assert(l == n - 1) by (nonlinear_arith)
        requires
            l * m == (n - 1) * m,
            m > 0,
    ;
    lemma_picked_members(c, n, s);
    assert forall|q: int| 0 <= q < n implies s.contains(q) by {
        lemma_contiguous_prefix(c, m, s, q);
        let q2 = choose|q2: int| 0 <= q2 < n && s.contains(q2) && #[trigger] p[q] == c[q2];
        assert(c[q2].0 == c[q].0);
        assert(q2 == q) by (nonlinear_arith)
            requires
                q2 * m == q * m,
                m > 0,
        ;
    }
}

/// The (offset, payload) pairs of the fragments of a packet cut into at
/// least two chunks have the fragment shape, with `max / 8` units each.
#[verifier::spinoff_prover]
proof fn lemma_collected_shape(packet: Seq<u8>, max: nat, id: u16)
    requires
        packet.len() >= 20,
        packet.len() <= 65535,
        max >= 8,
        max % 8 == 0,
        chunk_count((packet.len() - 20) as nat, max) >= 2,
    ensures
        ({
            let c = collected_fragments(packet, max, chunk_count((packet.len() - 20) as nat, max));
            &&& fragment_shape(c, max / 8)
            &&& offsets_increasing(c)
        }),
{
    let d = (packet.len() - 20) as nat;
    let k = chunk_count(d, max);
    let c = collected_fragments(packet, max, k);
    let m = max / 8;
    assert(max == 8 * m);
    assert((max + 7) / 8 == m) by (nonlinear_arith)
        requires
            max == 8 * m,
    ;
    lemma_chunk_shape(d, max, 0);
    assert(max < d);
    lemma_chunk_shape(d, max, (k - 1) as nat);
    assert((k - 1) * max < d);
    assert(k * m < 0x1_0000) by (nonlinear_arith)
        requires
            (k - 1) * max < d,
            d <= 65535,
            max == 8 * m,
            max < d,
            k >= 2,
    ;
    assert forall|q: int| 0 <= q < c.len() implies (#[trigger] c[q]).0 == q * m by {
        assert(q * m < 0x1_0000) by (nonlinear_arith)
            requires
                q < k,
                k * m < 0x1_0000,
                m > 0,
                q >= 0,
        ;
    }
    assert forall|q: int| 0 <= q < c.len() - 1 implies payload_units((#[trigger] c[q]).1) == m by {
        lemma_chunk_shape(d, max, q as nat);
    }
    let last = (k - 1) as nat;
    let size = chunk_size(d, max, last);
    assert(c[k - 1].1.len() == size);
    assert(1 <= size <= max);
    assert(1 <= (size + 7) / 8 <= m) by (nonlinear_arith)
        requires
            1 <= size <= max,
            max == 8 * m,
    ;
    assert forall|a: int, b: int| 0 <= a < b < c.len() implies (#[trigger] c[a]).0 < (#[trigger] c[b]).0 by {
        assert(a * m < b * m) by (nonlinear_arith)
            requires
                a < b,
                m > 0,
        ;
    }
}

/// The record a datagram has after the first `j` of its fragments arrived
/// in the order `perm` names them.
pub open spec fn record_after(packet: Seq<u8>, max: nat, id: u16, perm: Seq<int>, j: int) -> RecordView {
    let k = chunk_count((packet.len() - 20) as nat, max);
    RecordView {
        header: fragment_bytes(packet, 20, max, id, perm[0] as nat).subrange(0, 20),
        fragments: arrived_elements(collected_fragments(packet, max, k), perm, j),
        last_seen: arrived_positions(perm, j).contains(k - 1),
    }
}

/// The fragments of `packet` in the order `perm` names them.
pub open spec fn fragments_in_order(packet: Seq<u8>, max: nat, id: u16, perm: Seq<int>) -> Seq<Seq<u8>> {
    let frags = fragments_of(packet, 20, max, id);
    Seq::new(frags.len(), |t: int| frags[perm[t]])
}

/// `perm` lists every position below `n` exactly once.
pub open spec fn is_permutation(perm: Seq<int>, n: nat) -> bool {
    &&& perm.len() == n
    &&& forall|t: int| 0 <= t < perm.len() ==> 0 <= #[trigger] perm[t] < n
    &&& forall|a: int, b: int| 0 <= a < b < perm.len() ==> #[trigger] perm[a] != #[trigger] perm[b]
    &&& forall|q: int| 0 <= q < n ==> #[trigger] arrived_positions(perm, perm.len() as int).contains(q)
}

#[verifier::spinoff_prover]
#[verifier::rlimit(40)]
proof fn lemma_any_order_prefix(
    state: Map<u64, RecordView>,
    packet: Seq<u8>,
    max: nat,
    id: u16,
    perm: Seq<int>,
    j: int,
)
    requires
        packet.len() >= 20,
        packet.len() <= 65535,
        packet[0] & 0x0Fu8 == 5,
        max >= 8,
        max % 8 == 0,
        chunk_count((packet.len() - 20) as nat, max) >= 2,
        is_permutation(perm, chunk_count((packet.len() - 20) as nat, max)),
        1 <= j <= perm.len(),
        !state.contains_key(datagram_key(id, packet.subrange(12, 16))),
    ensures
        ({
            let k = chunk_count((packet.len() - 20) as nat, max);
            let key = datagram_key(id, packet.subrange(12, 16));
            let r = run_reassembly(state, fragments_in_order(packet, max, id, perm).subrange(0, j));
            if j < k {
                r == (state.insert(key, record_after(packet, max, id, perm, j)), ReassemblyOutcome::Pending)
            } else {
                r == (
                    state,
                    ReassemblyOutcome::Complete(
                        assembled_packet(
                            record_after(packet, max, id, perm, j).header,
                            collected_fragments(packet, max, k),
                        ),
                    ),
                )
            }
        }),
    decreases j,
{
    let d = (packet.len() - 20) as nat;
    let k = chunk_count(d, max);
    let key = datagram_key(id, packet.subrange(12, 16));
    let c = collected_fragments(packet, max, k);
    let arr = fragments_in_order(packet, max, id, perm);
    let pre = arr.subrange(0, j);
    let i = perm[j - 1];
    assert(pre.drop_last() =~= arr.subrange(0, j - 1));
    assert(pre.last() == fragment_bytes(packet, 20, max, id, i as nat));
    let st = run_reassembly(state, pre.drop_last()).0;
    if j == 1 {
        assert(arr.subrange(0, 0) =~= Seq::<Seq<u8>>::empty());
        assert(st == state);
    } else {
        lemma_any_order_prefix(state, packet, max, id, perm, j - 1);
        assert(st == state.insert(key, record_after(packet, max, id, perm, j - 1)));
    }
    lemma_step_fragment(st, packet, max, id, i as nat);
    lemma_collected_shape(packet, max, id);
    let rec = record_after(packet, max, id, perm, j);
    let chunk = packet.subrange((20 + i * max) as int, (20 + i * max + chunk_size(d, max, i as nat)) as int);
    assert(c[i] == ((i * (max / 8)) as u16, chunk));
    assert(rec.fragments =~= arrived_elements(c, perm, j - 1).push(c[i]));
    let pos = arrived_positions(perm, j);
    assert(pos.contains(k - 1) == (arrived_positions(perm, j - 1).contains(k - 1) || i == k - 1)) by {
        if pos.contains(k - 1) {
            let t = choose|t: int| 0 <= t < j && perm[t] == k - 1;
            if t < j - 1 {
                assert(arrived_positions(perm, j - 1).contains(k - 1));
            }
        }
        if arrived_positions(perm, j - 1).contains(k - 1) {
            let t = choose|t: int| 0 <= t < j - 1 && perm[t] == k - 1;
            assert(pos.contains(k - 1));
        }
        if i == k - 1 {
            assert(perm[j - 1] == k - 1);
            assert(pos.contains(k - 1));
        }
    }
    if j == 1 {
        assert(!arrived_positions(perm, 0).contains(k - 1));
    }
    lemma_sort_arrivals(c, perm, j);
    let sorted = sort_by_offset(rec.fragments);
    assert(sorted == picked(c, c.len(), pos));
    let f = fragment_bytes(packet, 20, max, id, i as nat);
    let more = i + 1 < k;
    let rec0 = if st.contains_key(key) {
        st[key]
    } else {
        RecordView { header: f.subrange(0, 20), fragments: Seq::empty(), last_seen: false }
    };
    if j == 1 {
        assert(!st.contains_key(key));
        assert(arrived_elements(c, perm, 0) =~= Seq::<(u16, Seq<u8>)>::empty());
    } else {
        assert(st.contains_key(key));
        assert(rec0 == record_after(packet, max, id, perm, j - 1));
    }
    assert(rec0.header == rec.header);
    assert(rec0.fragments == arrived_elements(c, perm, j - 1));
    assert(rec0.last_seen == arrived_positions(perm, j - 1).contains(k - 1));
    let rec1 = RecordView {
        header: rec0.header,
        fragments: rec0.fragments.push(((i * (max / 8)) as u16, chunk)),
        last_seen: rec0.last_seen || !more,
    };
    assert(rec1 == rec);
    assert(run_reassembly(state, pre) == reassembly_step(st, f));
    if j < k {
        if rec.last_seen && fragments_contiguous(sorted) {
            lemma_contiguous_complete(c, max / 8, pos);
            assert(pos.contains(perm[j]));
            let t = choose|t: int| 0 <= t < j && perm[t] == perm[j];
            assert(perm[t] != perm[j]);
        }
    } else {
        assert forall|q: int| 0 <= q < c.len() implies pos.contains(q) by {
            assert(arrived_positions(perm, perm.len() as int).contains(q));
        }
        lemma_picked_all(c, c.len(), pos);
        assert(c.subrange(0, c.len() as int) =~= c);
        lemma_collected_contiguous(packet, max, id);
        assert(state.insert(key, record_after(packet, max, id, perm, j - 1)).remove(key) =~= state);
    }
}


/// The fragmentation round trip holds whatever order the fragments arrive
/// in: fragmenting a packet (20-byte header, at most 65535 bytes) and
/// feeding each fragment once, in any order, to a reassembler with nothing
/// pending for that datagram answers Pending to every fragment but the
/// last; the last gives back a packet as long as the original, with the
/// original payload, the total length in bytes 2..4 and a cleared
/// flags/offset word in bytes 6..8, and leaves the pending state as it was.
#[verifier::spinoff_prover]
pub proof fn lemma_reassemble_in_any_order(
    state: Map<u64, RecordView>,
    mtu: nat,
    packet: Seq<u8>,
    id: u16,
    perm: Seq<int>,
)
    requires
        fragment_plan(mtu, packet) is Ok,
        fragment_plan(mtu, packet)->Ok_0 is Some,
        header_len(packet) == 20,
        packet.len() <= 65535,
        !state.contains_key(datagram_key(id, packet.subrange(12, 16))),
        is_permutation(perm, fragments_of(packet, 20, max_fragment_data(mtu, 20), id).len()),
    ensures
        ({
            let arrived = fragments_in_order(packet, max_fragment_data(mtu, 20), id, perm);
            let r = run_reassembly(state, arrived);
            &&& forall|j: int|
                1 <= j < arrived.len() ==> (#[trigger] run_reassembly(state, arrived.subrange(0, j))).1
                    is Pending
            &&& r.0 == state
            &&& r.1 matches ReassemblyOutcome::Complete(q)
            &&& q.len() == packet.len()
            &&& q.subrange(20, q.len() as int) == packet.subrange(20, packet.len() as int)
            &&& q.subrange(2, 4) == be16(packet.len() as u16)
            &&& q.subrange(6, 8) == seq![0u8, 0u8]
        }),
{
    let max = max_fragment_data(mtu, 20);
    let d = (packet.len() - 20) as nat;
    let k = chunk_count(d, max);
    assert(packet[0] & 0x0Fu8 == 5);
    assert(max % 8 == 0 && max >= 8 && max <= mtu - 20) by (nonlinear_arith)
        requires
            max == ((mtu - 20) as nat / 8) * 8,
            max > 0,
            mtu >= 20,
    ;
    assert(k >= 2) by (nonlinear_arith)
        requires
            d > max,
            max > 0,
            k == ((d + max - 1) as nat) / max,
    ;
    let arrived = fragments_in_order(packet, max, id, perm);
    assert forall|j: int| 1 <= j < arrived.len() implies (#[trigger] run_reassembly(
        state,
        arrived.subrange(0, j),
    )).1 is Pending by {
        lemma_any_order_prefix(state, packet, max, id, perm, j);
    }
    lemma_any_order_prefix(state, packet, max, id, perm, k as int);
    assert(arrived.subrange(0, k as int) =~= arrived);
    let header = fragment_bytes(packet, 20, max, id, perm[0] as nat).subrange(0, 20);
    let all = collected_fragments(packet, max, k);
    lemma_collected_concat(packet, max, k);
    let b = header + concat_payloads(all);
    assert(b.len() == packet.len());
    assert(b.subrange(20, b.len() as int) =~= packet.subrange(20, packet.len() as int));
    let b1 = b.subrange(0, 2) + be16(b.len() as u16) + b.subrange(4, b.len() as int);
    let q = assembled_packet(header, all);
    assert(q == b1.subrange(0, 6) + seq![0u8, 0u8] + b1.subrange(8, b1.len() as int));
    assert(q.subrange(20, q.len() as int) =~= b.subrange(20, b.len() as int));
    assert(q.subrange(2, 4) =~= be16(packet.len() as u16));
    assert(q.subrange(6, 8) =~= seq![0u8, 0u8]);
}

} // verus!
