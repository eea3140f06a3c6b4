//! The Z-reduction pass: starting from every state word consistent with
//! the last keystream byte, walk the keystream backwards and prune
//! candidates at each step, keeping the smallest set seen.

use crate::crc32_tab::{spec_crc32, Crc32Tab, MASK_10_32, MASK_2_32};
use crate::keystream_tab::{is_fragment, spec_keystream_byte, KeystreamTab};
use vstd::prelude::*;

verus! {

/// Minimum number of keystream bytes the attack needs.
pub const ATTACK_SIZE: usize = 12;

/// Stop waiting for a better minimum once the candidate set is this small.
pub const WAIT_SIZE: usize = 256;

/// Upper bound on what counts as a minimum worth keeping.
pub const TRACK_SIZE: usize = 0x1_0000;

/// Candidate `v`, placed at stream index `i`, emits the keystream byte there.
pub open spec fn consistent_at(v: u32, ks: Seq<u8>, i: int) -> bool {
    0 <= i < ks.len() && spec_keystream_byte(v) == ks[i]
}

/// A run of full Z values aligned with the keystream: each member emits
/// its keystream byte there, and each steps forward onto the next by one
/// CRC step on some byte. The Z chain of the true keys is such a run.
pub open spec fn is_zrun(zr: Seq<u32>, ks: Seq<u8>) -> bool {
    &&& zr.len() == ks.len()
    &&& forall|t: int| 0 <= t < zr.len() ==> spec_keystream_byte(#[trigger] zr[t]) == ks[t]
    &&& forall|t: int|
        #![trigger zr[t]]
        1 <= t < zr.len() ==> exists|b: u8| #[trigger] spec_crc32(zr[t - 1], b) == zr[t]
}

/// The run's value at index `t`, reduced to bits 2..32.
pub open spec fn run_at(zr: Seq<u32>, t: int) -> u32 {
    zr[t] & MASK_2_32
}

/// A shrinking vector of candidates for the Z register's bits 2..32 at one
/// stream index.
pub struct Zreduction {
    keystream: Vec<u8>,
    zi_2_32_vector: Vec<u32>,
    index: usize,
}

impl Zreduction {
    pub closed spec fn spec_keystream(self) -> Seq<u8> {
        self.keystream@
    }

    pub closed spec fn spec_candidates(self) -> Seq<u32> {
        self.zi_2_32_vector@
    }

    pub closed spec fn spec_index(self) -> int {
        self.index as int
    }

    pub fn new(keystream: &Vec<u8>) -> (r: Zreduction)
        ensures
            r.spec_keystream() == keystream@,
            r.spec_candidates().len() == 0,
            r.spec_index() == 0,
    {
        Zreduction {
            keystream: crate::keystream_tab::copy_bytes(keystream),
            zi_2_32_vector: Vec::new(),
            index: 0,
        }
    }

    /// Seeds the candidate set: exactly the words with zero low two bits
    /// whose bits 2..16 emit the last keystream byte, with every choice of
    /// the high 16 bits.
    pub fn generate(&mut self, kst: &KeystreamTab)
        requires
            kst.wf(),
            old(self).spec_keystream().len() >= 1,
        ensures
            final(self).spec_keystream() == old(self).spec_keystream(),
            final(self).spec_index() == old(self).spec_keystream().len(),
            forall|j: int|
                0 <= j < final(self).spec_candidates().len() ==> consistent_at(
                    #[trigger] final(self).spec_candidates()[j],
                    final(self).spec_keystream(),
                    final(self).spec_index() - 1,
                ) && final(self).spec_candidates()[j] & 3 == 0,
            forall|v: u32|
                v & 3 == 0 && spec_keystream_byte(v) == old(self).spec_keystream()[old(
                    self,
                ).spec_keystream().len() - 1] ==> final(self).spec_candidates().contains(v),
            forall|j1: int, j2: int|
                0 <= j1 < j2 < final(self).spec_candidates().len()
                    ==> (#[trigger] final(self).spec_candidates()[j1])
                    != (#[trigger] final(self).spec_candidates()[j2]),
    {
        let n = self.keystream.len();
        self.index = n;
        let last = self.keystream[n - 1];
        let frags = kst.get_zi_2_16_array(last);
        let mut out: Vec<u32> = Vec::new();
        let mut j: usize = 0;
        while j < frags.len()
            invariant
                j <= frags@.len(),
                forall|jj: int|
                    0 <= jj < frags@.len() ==> is_fragment(#[trigger] frags@[jj])
                        && spec_keystream_byte(frags@[jj]) == last,
                forall|jj: int|
                    0 <= jj < out@.len() ==> spec_keystream_byte(#[trigger] out@[jj]) == last && (
                    out@[jj] & 3) == 0,
                forall|v: u32|
                    (v & 3 == 0 && spec_keystream_byte(v) == last && exists|jj: int|
                        0 <= jj < j && frags@[jj] == v & 0xffff) ==> #[trigger] out@.contains(v),
                forall|p1: int, p2: int|
                    0 <= p1 < p2 < out@.len() ==> (#[trigger] out@[p1]) != (#[trigger] out@[p2]),
                forall|p: int|
                    0 <= p < out@.len() ==> exists|jj: int|
                        0 <= jj < j && #[trigger] frags@[jj] == (#[trigger] out@[p]) & 0xffff,
                forall|j1: int, j2: int|
                    0 <= j1 < j2 < frags@.len() ==> (#[trigger] frags@[j1]) != (
                    #[trigger] frags@[j2]),
            decreases frags@.len() - j,
        {
            let f = frags[j];
            let ghost out_before = out@;
            let mut high: u32 = 0;
            while high < 0x10000
                invariant
                    high <= 0x10000,
                    is_fragment(f),
                    spec_keystream_byte(f) == last,
                    out_before.len() <= out@.len(),
                    forall|jj: int| 0 <= jj < out_before.len() ==> out@[jj] == out_before[jj],
                    forall|jj: int|
                        0 <= jj < out@.len() ==> spec_keystream_byte(#[trigger] out@[jj]) == last
                            && (out@[jj] & 3) == 0,
                    forall|h: u32| h < high ==> #[trigger] out@.contains((h << 16) | f),
                    forall|p1: int, p2: int|
                        0 <= p1 < p2 < out@.len() ==> (#[trigger] out@[p1]) != (#[trigger] out@[p2]),
                    forall|p: int|
                        0 <= p < out@.len() ==> ((exists|jj: int|
                            0 <= jj < j && #[trigger] frags@[jj] == (#[trigger] out@[p]) & 0xffff)
                            || ((out@[p] & 0xffff) == f && (out@[p] >> 16) < high)),
                    frags@[j as int] == f,
                    j < frags@.len(),
                    forall|j1: int, j2: int|
                        0 <= j1 < j2 < frags@.len() ==> (#[trigger] frags@[j1]) != (
                        #[trigger] frags@[j2]),
                decreases 0x10000 - high,
            {
                let v: u32 = (high << 16) | f;
                proof {
                    assert((v & 0xffff) | 3 == (f & 0xffff) | 3 && (f % 4 == 0 ==> v & 3 == 0) && v
                        & 0xffff == f && v >> 16 == high) by (bit_vector)
                        requires
                            v == (high << 16) | f,
                            f < 0x10000,
                            high < 0x10000,
                    ;
                }
                let ghost before = out@;
                out.push(v);
                proof {
                    assert forall|p1: int, p2: int|
                        0 <= p1 < p2 < out@.len() implies (#[trigger] out@[p1]) != (
                    #[trigger] out@[p2]) by {
                        if p2 == out@.len() - 1 {
                            let e = out@[p1];
                            if exists|jj: int|
                                0 <= jj < j && #[trigger] frags@[jj] == e & 0xffff {
                                let jj = choose|jj: int|
                                    0 <= jj < j && #[trigger] frags@[jj] == e & 0xffff;
                                assert(frags@[jj] != frags@[j as int]);
                                assert(e & 0xffff != v & 0xffff);
                            } else {
                                assert((e & 0xffff) == f && (e >> 16) < high);
                            }
                        }
                    }
                }
                proof {
                    assert forall|h: u32| h < high + 1 implies #[trigger] out@.contains(
                        (h << 16) | f,
                    ) by {
                        if h < high {
                            assert(before.contains((h << 16) | f));
                            let w = choose|w: int|
                                0 <= w < before.len() && before[w] == ((h << 16) | f);
                            assert(out@[w] == (h << 16) | f);
                        } else {
                            assert(out@[out@.len() - 1] == (h << 16) | f);
                        }
                    }
                }
                high = high + 1;
            }
            proof {
                assert forall|v: u32|
                    (v & 3 == 0 && spec_keystream_byte(v) == last && exists|jj: int|
                        0 <= jj < j + 1 && frags@[jj] == v & 0xffff) implies #[trigger] out@
                    .contains(v) by {
                    let jj = choose|jj: int| 0 <= jj < j + 1 && frags@[jj] == v & 0xffff;
                    if jj < j {
                        assert(out_before.contains(v));
                        let w = choose|w: int| 0 <= w < out_before.len() && out_before[w] == v;
                        assert(out@[w] == v);
                    } else {
                        assert(frags@[jj] == f);
                        let h: u32 = v >> 16;
                        assert(h < 0x10000 && v == (h << 16) | (v & 0xffff)) by (bit_vector)
                            requires
                                h == v >> 16,
                        ;
                        assert(out@.contains((h << 16) | f));
                    }
                }
            }
            j = j + 1;
        }
        self.zi_2_32_vector = out;
        proof {
            assert forall|j: int|
                0 <= j < self.spec_candidates().len() implies consistent_at(
                #[trigger] self.spec_candidates()[j],
                self.spec_keystream(),
                self.spec_index() - 1,
            ) && self.spec_candidates()[j] & 3 == 0 by {
                assert(spec_keystream_byte(out@[j]) == last);
            }
            assert forall|v: u32|
                v & 3 == 0 && spec_keystream_byte(v) == last implies self.spec_candidates()
                .contains(v) by {
                let g: u32 = v & 0xffff;
                assert(g < 0x10000 && g % 4 == 0 && (g & 0xffff) | 3 == (v & 0xffff) | 3) by (
                bit_vector)
                    requires
                        g == v & 0xffff,
                        v & 3 == 0,
                ;
                assert(is_fragment(g) && spec_keystream_byte(g) == last);
                assert(frags@.contains(g));
                let jj = choose|jj: int| 0 <= jj < frags@.len() && frags@[jj] == g;
                assert(out@.contains(v));
            }
        }
    }

    /// Walks the keystream backwards from the newest index: at each step
    /// the candidates are replaced by their CRC-32 predecessors that are
    /// consistent with the next older keystream byte. Keeps the smallest
    /// set seen and stops a bounded number of steps after the minimum has
    /// dropped below the waiting threshold. Afterwards every kept word
    /// emits the keystream byte at the reported index, and no aligned run
    /// of Z values is lost: any run whose masked value at the newest index
    /// was among the candidates keeps its masked value at the reported
    /// index among the kept candidates. The kept candidates are in
    /// first-seen order; no order is promised.
    pub fn reduce(&mut self, crc: &Crc32Tab, kst: &KeystreamTab)
        requires
            crc.wf(),
            kst.wf(),
            old(self).spec_keystream().len() >= 12,
            old(self).spec_index() == old(self).spec_keystream().len(),
            forall|j: int|
                0 <= j < old(self).spec_candidates().len() ==> consistent_at(
                    #[trigger] old(self).spec_candidates()[j],
                    old(self).spec_keystream(),
                    old(self).spec_index() - 1,
                ),
            forall|j1: int, j2: int|
                0 <= j1 < j2 < old(self).spec_candidates().len()
                    ==> (#[trigger] old(self).spec_candidates()[j1])
                    != (#[trigger] old(self).spec_candidates()[j2]),
        ensures
            final(self).spec_keystream() == old(self).spec_keystream(),
            11 <= final(self).spec_index() < old(self).spec_keystream().len(),
            forall|j: int|
                0 <= j < final(self).spec_candidates().len() ==> consistent_at(
                    #[trigger] final(self).spec_candidates()[j],
                    final(self).spec_keystream(),
                    final(self).spec_index(),
                ),
            forall|zr: Seq<u32>|
                #[trigger] is_zrun(zr, old(self).spec_keystream()) && old(
                    self,
                ).spec_candidates().contains(
                    run_at(zr, old(self).spec_keystream().len() - 1),
                ) ==> final(self).spec_candidates().contains(
                    run_at(zr, final(self).spec_index()),
                ),
            final(self).spec_candidates().len() > TRACK_SIZE ==> final(self).spec_index() == 11,
            forall|j1: int, j2: int|
                0 <= j1 < j2 < final(self).spec_candidates().len()
                    ==> (#[trigger] final(self).spec_candidates()[j1])
                    != (#[trigger] final(self).spec_candidates()[j2]),
    {
        let ghost ks0 = old(self).spec_keystream();
        let ghost cands0 = old(self).spec_candidates();
        let n = self.keystream.len();
        let mut tracking = false;
        let mut best_copy: Vec<u32> = Vec::new();
        let mut best_index: usize = 0;
        let mut best_size: usize = TRACK_SIZE;
        let mut waiting = false;
        let mut wait: usize = 0;

        let mut seen: Vec<bool> = Vec::new();
        let mut m: usize = 0;
        while m < 0x40_0000
            invariant
                seen@.len() == m,
                m <= 0x40_0000,
                forall|q: int| 0 <= q < m ==> !(#[trigger] seen@[q]),
            decreases 0x40_0000 - m,
        {
            seen.push(false);
            m = m + 1;
        }

        let mut i: usize = n - 1;
        proof {
            assert forall|j: int|
                0 <= j < self.zi_2_32_vector@.len() implies consistent_at(
                #[trigger] self.zi_2_32_vector@[j],
                self.keystream@,
                i as int,
            ) by {
                assert(consistent_at(cands0[j], ks0, ks0.len() - 1));
            }
        }
        while i >= 12
            invariant
                crc.wf(),
                kst.wf(),
                11 <= i <= n - 1,
                n == self.keystream@.len(),
                self.keystream@ == ks0,
                cands0 == old(self).spec_candidates(),
                n >= 12,
                seen@.len() == 0x40_0000,
                forall|q: int| 0 <= q < 0x40_0000 ==> !(#[trigger] seen@[q]),
                forall|j: int|
                    0 <= j < self.zi_2_32_vector@.len() ==> consistent_at(
                        #[trigger] self.zi_2_32_vector@[j],
                        self.keystream@,
                        i as int,
                    ),
                forall|zr: Seq<u32>|
                    #[trigger] is_zrun(zr, ks0) && cands0.contains(run_at(zr, n - 1))
                        ==> self.zi_2_32_vector@.contains(run_at(zr, i as int)),
                forall|j1: int, j2: int|
                    0 <= j1 < j2 < self.zi_2_32_vector@.len()
                        ==> (#[trigger] self.zi_2_32_vector@[j1])
                        != (#[trigger] self.zi_2_32_vector@[j2]),
                tracking ==> (forall|j1: int, j2: int|
                    0 <= j1 < j2 < best_copy@.len() ==> (#[trigger] best_copy@[j1]) != (
                    #[trigger] best_copy@[j2])),
                waiting ==> wait >= 1,
                best_size <= TRACK_SIZE,
                tracking ==> best_copy@.len() <= TRACK_SIZE,
                tracking ==> 11 <= best_index < n && (forall|j: int|
                    0 <= j < best_copy@.len() ==> consistent_at(
                        #[trigger] best_copy@[j],
                        self.keystream@,
                        best_index as int,
                    )) && (forall|zr: Seq<u32>|
                    #[trigger] is_zrun(zr, ks0) && cands0.contains(run_at(zr, n - 1))
                        ==> best_copy@.contains(run_at(zr, best_index as int))),
            ensures
                i == 11 || tracking,
            decreases i,
        {
            let kb = self.keystream[i - 1];

            // predecessors' bits 10..32, one entry per distinct value
            let mut highs: Vec<u32> = Vec::new();
            let mut j: usize = 0;
            while j < self.zi_2_32_vector.len()
                invariant
                    crc.wf(),
                    kst.wf(),
                    seen@.len() == 0x40_0000,
                    j <= self.zi_2_32_vector@.len(),
                    12 <= i <= n - 1,
                    n == self.keystream@.len(),
                    kb == self.keystream@[i - 1],
                    forall|jj: int|
                        0 <= jj < highs@.len() ==> (#[trigger] highs@[jj]) & 0xFFFF_FC00u32
                            == highs@[jj],
                    forall|j1: int, j2: int|
                        0 <= j1 < j2 < highs@.len() ==> (#[trigger] highs@[j1]) >> 10 != (
                        #[trigger] highs@[j2]) >> 10,
                    forall|q: int|
                        0 <= q < 0x40_0000 ==> ((#[trigger] seen@[q]) <==> exists|jj: int|
                            0 <= jj < highs@.len() && (#[trigger] highs@[jj] >> 10) == q),
                    forall|w: u32, b: u8, jj: int|
                        0 <= jj < j && #[trigger] (spec_crc32(w, b) & MASK_2_32)
                            == #[trigger] (self.zi_2_32_vector@[jj] & MASK_2_32)
                            && spec_keystream_byte(w) == kb ==> highs@.contains(w & MASK_10_32),
                decreases self.zi_2_32_vector@.len() - j,
            {
                let z = self.zi_2_32_vector[j];
                let wc = crc.get_zim1_10_32(z);
                let ghost old_highs = highs@;
                let ghost old_seen2 = seen@;
                if kst.has_zi_2_16(kb, wc) {
                    let idx = (wc >> 10) as usize;
                    assert(wc >> 10 < 0x40_0000) by (bit_vector);
                    if !seen[idx] {
                        seen.set(idx, true);
                        highs.push(wc);
                        proof {
                            assert forall|q: int|
                                0 <= q < 0x40_0000 implies ((#[trigger] seen@[q]) <==> exists|
                                jj: int,
                            |
                                0 <= jj < highs@.len() && (#[trigger] highs@[jj] >> 10)
                                    == q) by {
                                if q == idx as int {
                                    assert(highs@[highs@.len() - 1] >> 10 == q);
                                } else {
                                    if seen@[q] {
                                        let jj = choose|jj: int|
                                            0 <= jj < old_highs.len() && (#[trigger] old_highs[jj]
                                                >> 10) == q;
                                        assert(highs@[jj] >> 10 == q);
                                    }
                                    if exists|jj: int|
                                        0 <= jj < highs@.len() && (#[trigger] highs@[jj] >> 10)
                                            == q {
                                        let jj = choose|jj: int|
                                            0 <= jj < highs@.len() && (#[trigger] highs@[jj] >> 10)
                                                == q;
                                        assert(jj < old_highs.len() && old_highs[jj] >> 10 == q);
                                        assert(old_seen2[q]);
                                    }
                                }
                            }
                        }
                    }
                }
                proof {
                    assert forall|w: u32, b: u8, jj: int|
                        0 <= jj < j + 1 && #[trigger] (spec_crc32(w, b) & MASK_2_32)
                            == #[trigger] (self.zi_2_32_vector@[jj] & MASK_2_32)
                            && spec_keystream_byte(w) == kb implies highs@.contains(
                        w & MASK_10_32,
                    ) by {
                        if jj < j {
                            assert(old_highs.contains(w & MASK_10_32));
                            let p = choose|p: int|
                                0 <= p < old_highs.len() && old_highs[p] == w & MASK_10_32;
                            assert(highs@[p] == w & MASK_10_32);
                        } else {
                            // this element: the predecessor bits are forced
                            assert(spec_crc32(w, b) & MASK_2_32 == z & MASK_2_32);
                            assert(w & MASK_10_32 == wc);
                            let f: u32 = w & 0xFFFC;
                            assert(f < 0x10000 && f % 4 == 0 && (f & 0xffff) | 3 == (w & 0xffff)
                                | 3 && (f >> 10) == (w >> 10) & 0x3f) by (bit_vector)
                                requires
                                    f == w & 0xFFFC,
                            ;
                            assert((f >> 10) == (wc >> 10) & 0x3f) by (bit_vector)
                                requires
                                    (f >> 10) == (w >> 10) & 0x3f,
                                    w & 0xFFFF_FC00u32 == wc,
                            ;
                            assert(spec_keystream_byte(f) == spec_keystream_byte(w));
                            assert(is_fragment(f) && spec_keystream_byte(f) == kb && (f >> 10) == (
                            wc >> 10) & 0x3f);
                            // so the keystream filter accepted this prefix
                            assert(seen@[(wc >> 10) as int]);
                            let p = choose|p: int|
                                0 <= p < highs@.len() && (#[trigger] highs@[p] >> 10) == (wc
                                    >> 10) as int;
                            let hv = highs@[p];
                            assert(hv == wc) by (bit_vector)
                                requires
                                    hv & 0xFFFF_FC00u32 == hv,
                                    wc & 0xFFFF_FC00u32 == wc,
                                    hv >> 10 == wc >> 10,
                            ;
                        }
                    }
                }
                j = j + 1;
            }

            // fan each surviving high part out to the full candidates
            let mut next: Vec<u32> = Vec::new();
            let mut j: usize = 0;
            while j < highs.len()
                invariant
                    crc.wf(),
                    kst.wf(),
                    seen@.len() == 0x40_0000,
                    j <= highs@.len(),
                    12 <= i <= n - 1,
                    n == self.keystream@.len(),
                    kb == self.keystream@[i - 1],
                    forall|jj: int|
                        0 <= jj < highs@.len() ==> (#[trigger] highs@[jj]) & 0xFFFF_FC00u32
                            == highs@[jj],
                    forall|j1: int, j2: int|
                        0 <= j1 < j2 < highs@.len() ==> (#[trigger] highs@[j1]) >> 10 != (
                        #[trigger] highs@[j2]) >> 10,
                    forall|q: int|
                        0 <= q < 0x40_0000 ==> ((#[trigger] seen@[q]) <==> exists|jj: int|
                            j <= jj < highs@.len() && (#[trigger] highs@[jj] >> 10) == q),
                    forall|jj: int|
                        0 <= jj < next@.len() ==> consistent_at(
                            #[trigger] next@[jj],
                            self.keystream@,
                            i - 1,
                        ),
                    forall|w: u32, jj: int|
                        0 <= jj < j && #[trigger] highs@[jj] == w & MASK_10_32
                            && #[trigger] spec_keystream_byte(w) == kb ==> next@.contains(
                            w & MASK_2_32,
                        ),
                    forall|p1: int, p2: int|
                        0 <= p1 < p2 < next@.len() ==> (#[trigger] next@[p1]) != (
                        #[trigger] next@[p2]),
                    forall|p: int|
                        0 <= p < next@.len() ==> exists|q: int|
                            0 <= q < j && #[trigger] highs@[q] == (#[trigger] next@[p])
                                & MASK_10_32,
                decreases highs@.len() - j,
            {
                let w = highs[j];
                let idx = (w >> 10) as usize;
                assert(w >> 10 < 0x40_0000) by (bit_vector);
                let ghost old_seen3 = seen@;
                seen.set(idx, false);
                proof {
                    assert forall|q: int|
                        0 <= q < 0x40_0000 implies ((#[trigger] seen@[q]) <==> exists|jj: int|
                            j + 1 <= jj < highs@.len() && (#[trigger] highs@[jj] >> 10) == q) by {
                        if q != idx as int {
                            if seen@[q] {
                                let jj = choose|jj: int|
                                    j <= jj < highs@.len() && (#[trigger] highs@[jj] >> 10) == q;
                                assert(jj != j && j + 1 <= jj);
                            }
                        } else {
                            if exists|jj: int|
                                j + 1 <= jj < highs@.len() && (#[trigger] highs@[jj] >> 10) == q {
                                let jj = choose|jj: int|
                                    j + 1 <= jj < highs@.len() && (#[trigger] highs@[jj] >> 10)
                                        == q;
                                assert(highs@[j as int] >> 10 != highs@[jj] >> 10);
                                assert(false);
                            }
                        }
                    }
                }
                let frags = kst.get_zi_2_16_vector(kb, w);
                let mut jf: usize = 0;
                while jf < frags.len()
                    invariant
                        jf <= frags@.len(),
                        12 <= i <= n - 1,
                        n == self.keystream@.len(),
                        kb == self.keystream@[i - 1],
                        w & 0xFFFF_FC00u32 == w,
                        forall|jj: int|
                            0 <= jj < frags@.len() ==> is_fragment(#[trigger] frags@[jj])
                                && spec_keystream_byte(frags@[jj]) == kb && (frags@[jj] >> 10) == (w
                                >> 10) & 0x3f,
                        forall|jj: int|
                            0 <= jj < next@.len() ==> consistent_at(
                                #[trigger] next@[jj],
                                self.keystream@,
                                i - 1,
                            ),
                        forall|ww: u32, jj: int|
                            0 <= jj < j && #[trigger] highs@[jj] == ww & MASK_10_32
                                && #[trigger] spec_keystream_byte(ww) == kb ==> next@.contains(
                                ww & MASK_2_32,
                            ),
                        forall|q: int| 0 <= q < jf ==> next@.contains(w | (#[trigger] frags@[q])),
                        forall|q1: int, q2: int|
                            0 <= q1 < q2 < frags@.len() ==> (#[trigger] frags@[q1]) != (
                            #[trigger] frags@[q2]),
                        highs@[j as int] == w,
                        j < highs@.len(),
                        forall|j1: int, j2: int|
                            0 <= j1 < j2 < highs@.len() ==> (#[trigger] highs@[j1]) >> 10 != (
                            #[trigger] highs@[j2]) >> 10,
                        forall|p1: int, p2: int|
                            0 <= p1 < p2 < next@.len() ==> (#[trigger] next@[p1]) != (
                            #[trigger] next@[p2]),
                        forall|p: int|
                            0 <= p < next@.len() ==> ((exists|q: int|
                                0 <= q < j && #[trigger] highs@[q] == (#[trigger] next@[p])
                                    & MASK_10_32) || (((next@[p]) & MASK_10_32) == w && exists|
                                q2: int,
                            |
                                0 <= q2 < jf && #[trigger] frags@[q2] == (next@[p]) & 0xFFFC)),
                    decreases frags@.len() - jf,
                {
                    let f = frags[jf];
                    let v: u32 = w | f;
                    proof {
                        assert((v & 0xffff) | 3 == (f & 0xffff) | 3 && v & 0xFFFF_FC00u32 == w && v
                            & 0xFFFC == f) by (bit_vector)
                            requires
                                v == w | f,
                                w & 0xFFFF_FC00u32 == w,
                                f < 0x10000,
                                f % 4 == 0,
                                (f >> 10) == (w >> 10) & 0x3f,
                        ;
                        assert(spec_keystream_byte(v) == spec_keystream_byte(f));
                    }
                    let ghost old_next = next@;
                    next.push(v);
                    proof {
                        assert forall|p1: int, p2: int|
                            0 <= p1 < p2 < next@.len() implies (#[trigger] next@[p1]) != (
                        #[trigger] next@[p2]) by {
                            if p2 == next@.len() - 1 {
                                let e = old_next[p1];
                                if exists|q: int|
                                    0 <= q < j && #[trigger] highs@[q] == e & MASK_10_32 {
                                    let q = choose|q: int|
                                        0 <= q < j && #[trigger] highs@[q] == e & MASK_10_32;
                                    assert(highs@[q] >> 10 != highs@[j as int] >> 10);
                                    let hq = highs@[q];
                                    assert(hq != w) by (bit_vector)
                                        requires
                                            hq >> 10 != w >> 10,
                                    ;
                                    assert(e & MASK_10_32 != v & MASK_10_32);
                                } else {
                                    let q2 = choose|q2: int|
                                        0 <= q2 < jf && #[trigger] frags@[q2] == e & 0xFFFC;
                                    assert(frags@[q2] != frags@[jf as int]);
                                    assert(e & 0xFFFC != v & 0xFFFC);
                                }
                            }
                        }
                        assert forall|ww: u32, jj: int|
                            0 <= jj < j && #[trigger] highs@[jj] == ww & MASK_10_32
                                && #[trigger] spec_keystream_byte(ww) == kb implies next@.contains(
                            ww & MASK_2_32,
                        ) by {
                            assert(old_next.contains(ww & MASK_2_32));
                            let p = choose|p: int|
                                0 <= p < old_next.len() && old_next[p] == ww & MASK_2_32;
                            assert(next@[p] == ww & MASK_2_32);
                        }
                        assert forall|q: int| 0 <= q < jf + 1 implies next@.contains(
                            w | (#[trigger] frags@[q]),
                        ) by {
                            if q < jf {
                                assert(old_next.contains(w | frags@[q]));
                                let p = choose|p: int|
                                    0 <= p < old_next.len() && old_next[p] == (w | frags@[q]);
                                assert(next@[p] == (w | frags@[q]));
                            } else {
                                assert(next@[next@.len() - 1] == (w | frags@[q]));
                            }
                        }
                    }
                    jf = jf + 1;
                }
                proof {
                    assert forall|ww: u32, jj: int|
                        0 <= jj < j + 1 && #[trigger] highs@[jj] == ww & MASK_10_32
                            && #[trigger] spec_keystream_byte(ww) == kb implies next@.contains(
                        ww & MASK_2_32,
                    ) by {
                        if jj == j {
                            let ff: u32 = ww & 0xFFFC;
                            assert(ff < 0x10000 && ff % 4 == 0 && (ff & 0xffff) | 3 == (ww
                                & 0xffff) | 3 && (ff >> 10) == (ww >> 10) & 0x3f && (w | ff) == ww
                                & 0xFFFF_FFFCu32) by (bit_vector)
                                requires
                                    ff == ww & 0xFFFC,
                                    w == ww & 0xFFFF_FC00u32,
                            ;
                            assert((ff >> 10) == (w >> 10) & 0x3f) by (bit_vector)
                                requires
                                    (ff >> 10) == (ww >> 10) & 0x3f,
                                    w == ww & 0xFFFF_FC00u32,
                            ;
                            assert(spec_keystream_byte(ff) == spec_keystream_byte(ww));
                            assert(is_fragment(ff) && spec_keystream_byte(ff) == kb);
                            assert(frags@.contains(ff));
                            let q = choose|q: int| 0 <= q < frags@.len() && frags@[q] == ff;
                            assert(next@.contains(w | frags@[q]));
                        }
                    }
                }
                j = j + 1;
            }

            // every surviving run keeps its masked value in the new set
            proof {
                assert forall|zr: Seq<u32>|
                    #[trigger] is_zrun(zr, ks0) && cands0.contains(run_at(zr, n - 1)) implies next@
                    .contains(run_at(zr, i - 1)) by {
                    assert(self.zi_2_32_vector@.contains(run_at(zr, i as int)));
                    let jj = choose|jj: int|
                        0 <= jj < self.zi_2_32_vector@.len() && self.zi_2_32_vector@[jj] == run_at(
                            zr,
                            i as int,
                        );
                    let wt: u32 = zr[i - 1];
                    assert(exists|b: u8| #[trigger] spec_crc32(zr[i - 1], b) == zr[i as int]);
                    let b = choose|b: u8| #[trigger] spec_crc32(zr[i - 1], b) == zr[i as int];
                    let zi: u32 = zr[i as int];
                    assert((zi & MASK_2_32) & MASK_2_32 == zi & MASK_2_32) by (bit_vector);
                    assert(spec_crc32(wt, b) & MASK_2_32 == self.zi_2_32_vector@[jj] & MASK_2_32);
                    assert(spec_keystream_byte(wt) == kb);
                    assert(highs@.contains(wt & MASK_10_32));
                    let p = choose|p: int|
                        0 <= p < highs@.len() && highs@[p] == wt & MASK_10_32;
                    assert(next@.contains(wt & MASK_2_32));
                }
            }

            // keep track of the smallest candidate set seen so far
            if next.len() <= best_size {
                tracking = true;
                best_index = i - 1;
                best_size = next.len();
                waiting = false;
                best_copy = crate::keystream_tab::copy_words(&next);
                if best_size <= WAIT_SIZE {
                    waiting = true;
                    wait = best_size * 4;
                    if wait == 0 {
                        wait = 1;
                    }
                }
            } else if tracking && waiting {
                wait = wait - 1;
                if wait == 0 {
                    waiting = false;
                    break ;
                }
            }

            self.zi_2_32_vector = next;
            i = i - 1;
        }

        if tracking {
            self.zi_2_32_vector = best_copy;
            self.index = best_index;
        } else {
            self.index = i;
        }
        proof {
            assert(final(self).spec_candidates() == self.zi_2_32_vector@);
            assert(final(self).spec_keystream() == self.keystream@);
        }
    }

    /// Number of candidates currently held.
    pub fn size(&self) -> (r: usize)
        ensures
            r == self.spec_candidates().len(),
    {
        self.zi_2_32_vector.len()
    }

    /// The stream index at which the kept candidates live.
    pub fn get_index(&self) -> (r: usize)
        ensures
            r == self.spec_index(),
    {
        self.index
    }

    /// The kept candidates for the Z register's bits 2..32.
    pub fn get_zi_2_32_vector(&self) -> (r: &Vec<u32>)
        ensures
            r@ == self.spec_candidates(),
    {
        &self.zi_2_32_vector
    }
}

} // verus!
