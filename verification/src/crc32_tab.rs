//! Forward and inverse CRC-32 byte tables.
//!
//! A forward step mixes one byte into the 32-bit state. Because the 256
//! table entries have pairwise distinct high bytes, the high byte of a
//! post-update state identifies the table entry that was XOR-ed in, which
//! lets a backward step recover the full predecessor when the consumed byte
//! is known, and the predecessor's bits 10..32 when it is not.

use vstd::prelude::*;

verus! {

/// Reflected CRC-32 polynomial.
pub const CRC_POLY: u32 = 0xEDB8_8320;
/// Bits 2..32 of a word.
pub const MASK_2_32: u32 = 0xFFFF_FFFC;
/// Bits 10..32 of a word.
pub const MASK_10_32: u32 = 0xFFFF_FC00;

/// One shift of the reflected CRC-32 polynomial division.
pub open spec fn crc_shift(z: u32) -> u32 {
    if z & 1 == 1 {
        (z >> 1) ^ CRC_POLY
    } else {
        z >> 1
    }
}

/// `n` shifts of the reflected CRC-32 polynomial division.
pub open spec fn crc_iter(z: u32, n: nat) -> u32
    decreases n,
{
    if n == 0 {
        z
    } else {
        crc_shift(crc_iter(z, (n - 1) as nat))
    }
}

/// Entry `i & 0xff` of the standard CRC-32 byte table.
pub open spec fn crc_entry(i: u32) -> u32 {
    crc_iter(i & 0xff, 8)
}

/// One forward CRC-32 step: absorb byte `b` into state `z`.
pub open spec fn spec_crc32(z: u32, b: u8) -> u32 {
    (z >> 8) ^ crc_entry((z ^ (b as u32)) & 0xff)
}

/// The 256 table entries have pairwise distinct high bytes.
pub open spec fn crc_msbs_distinct() -> bool {
    forall|i: u32, j: u32|
        i < 256 && j < 256 && i != j ==> #[trigger] (crc_entry(i) >> 24) != #[trigger] (crc_entry(
            j,
        ) >> 24)
}

/// Some table entry with index below `n` has high byte `m`.
pub open spec fn has_msb_below(m: u32, n: u32) -> bool {
    exists|i: u32| i < n && #[trigger] (crc_entry(i) >> 24) == m
}

/// Some table entry has high byte `m`.
pub open spec fn has_entry_with_msb(m: u32) -> bool {
    has_msb_below(m, 256)
}

/// Slot `m` of the inverse table holds the pair of the entry with high
/// byte `m` and its index.
pub open spec fn inv_slot_ok(v: Seq<u32>, m: int) -> bool {
    exists|i: u32|
        i < 256 && #[trigger] (crc_entry(i) >> 24) == m && v[m] == (crc_entry(i) << 8) ^ i
}

/// Every byte is the high byte of some table entry.
pub open spec fn crc_msbs_onto() -> bool {
    forall|m: u32| m < 256 ==> #[trigger] has_entry_with_msb(m)
}

/// Forward table and, keyed by the leaking high byte, the data needed to
/// undo a step: `inv[crc_entry(i) >> 24] == (crc_entry(i) << 8) ^ i`.
pub struct Crc32Tab {
    tab: Vec<u32>,
    inv: Vec<u32>,
}

impl Crc32Tab {
    pub closed spec fn wf(self) -> bool {
        &&& self.tab@.len() == 256
        &&& self.inv@.len() == 256
        &&& forall|i: int| 0 <= i < 256 ==> self.tab@[i] == crc_entry(i as u32)
        &&& forall|m: int| 0 <= m < 256 ==> #[trigger] inv_slot_ok(self.inv@, m)
        &&& crc_msbs_distinct()
    }

    /// Builds both tables. The inverse table is only meaningful when the
    /// entries' high bytes form a permutation of the 256 bytes, which the
    /// constructor checks while filling it; it reports failure otherwise.
    pub fn new() -> (r: Option<Crc32Tab>)
        ensures
            r is Some <==> crc_msbs_distinct() && crc_msbs_onto(),
            r matches Some(t) ==> t.wf(),
    {
        let mut tab: Vec<u32> = Vec::new();
        let mut i: u32 = 0;
        while i < 256
            invariant
                i <= 256,
                tab@.len() == i,
                forall|k: int| 0 <= k < i ==> tab@[k] == crc_entry(k as u32),
            decreases 256 - i,
        {
            let mut z: u32 = i;
            let mut n: u32 = 0;
            assert(i & 0xff == i) by (bit_vector)
                requires
                    i < 256,
            ;
            while n < 8
                invariant
                    n <= 8,
                    i < 256,
                    z == crc_iter(i & 0xff, n as nat),
                decreases 8 - n,
            {
                if z & 1 == 1 {
                    z = (z >> 1) ^ CRC_POLY;
                } else {
                    z = z >> 1;
                }
                n = n + 1;
            }
            tab.push(z);
            i = i + 1;
        }

        let mut inv: Vec<u32> = Vec::new();
        let mut seen: Vec<bool> = Vec::new();
        let mut m: usize = 0;
        while m < 256
            invariant
                m <= 256,
                inv@.len() == m,
                seen@.len() == m,
                forall|k: int| 0 <= k < m ==> !seen@[k],
            decreases 256 - m,
        {
            inv.push(0);
            seen.push(false);
            m = m + 1;
        }

        let mut i: u32 = 0;
        while i < 256
            invariant
                i <= 256,
                tab@.len() == 256,
                inv@.len() == 256,
                seen@.len() == 256,
                forall|k: int| 0 <= k < 256 ==> tab@[k] == crc_entry(k as u32),
                forall|i1: u32, i2: u32|
                    i1 < i && i2 < i && i1 != i2 ==> #[trigger] (crc_entry(i1) >> 24)
                        != #[trigger] (crc_entry(i2) >> 24),
                forall|mm: u32| mm < 256 ==> (seen@[mm as int] <==> #[trigger] has_msb_below(mm, i)),
                forall|mm: int| 0 <= mm < 256 && seen@[mm] ==> #[trigger] inv_slot_ok(inv@, mm),
            decreases 256 - i,
        {
            let e = tab[i as usize];
            assert(e >> 24 < 256) by (bit_vector);
            let hi = (e >> 24) as usize;
            if seen[hi] {
                // two entries share a high byte: the step cannot be undone
                proof {
                    assert(has_msb_below((e >> 24) as u32, i));
                    let ii = choose|ii: u32| ii < i && #[trigger] (crc_entry(ii) >> 24) == e >> 24;
                    assert(ii < 256 && i < 256 && ii != i && crc_entry(ii) >> 24 == crc_entry(i)
                        >> 24);
                    assert(!crc_msbs_distinct());
                }
                return None;
            }
            let ghost old_seen = seen@;
            let ghost old_inv = inv@;
            seen.set(hi, true);
            inv.set(hi, (e << 8) ^ i);
            proof {
                assert(e == crc_entry(i));
                assert forall|i1: u32, i2: u32|
                    i1 < i + 1 && i2 < i + 1 && i1 != i2 implies #[trigger] (crc_entry(i1) >> 24)
                    != #[trigger] (crc_entry(i2) >> 24) by {
                    if crc_entry(i1) >> 24 == crc_entry(i2) >> 24 {
                        if i1 == i && i2 < i {
                            assert(crc_entry(i2) >> 24 == e >> 24);
                            assert(has_msb_below(e >> 24, i));
                            assert(old_seen[(e >> 24) as int]);
                            assert(false);
                        } else if i2 == i && i1 < i {
                            assert(crc_entry(i1) >> 24 == e >> 24);
                            assert(has_msb_below(e >> 24, i));
                            assert(old_seen[(e >> 24) as int]);
                            assert(false);
                        }
                    }
                }
                assert forall|mm: u32| mm < 256 implies (seen@[mm as int]
                    <==> #[trigger] has_msb_below(mm, (i + 1) as u32)) by {
                    if mm == e >> 24 {
                        assert(crc_entry(i) >> 24 == mm && i < i + 1);
                        assert(has_msb_below(mm, (i + 1) as u32));
                    } else {
                        if has_msb_below(mm, (i + 1) as u32) {
                            let ii = choose|ii: u32|
                                ii < i + 1 && #[trigger] (crc_entry(ii) >> 24) == mm;
                            assert(ii != i && ii < i);
                            assert(has_msb_below(mm, i));
                        }
                        if has_msb_below(mm, i) {
                            let ii = choose|ii: u32| ii < i && #[trigger] (crc_entry(ii) >> 24)
                                == mm;
                            assert(has_msb_below(mm, (i + 1) as u32));
                        }
                    }
                }
                assert forall|mm: int| 0 <= mm < 256 && seen@[mm] implies #[trigger] inv_slot_ok(
                    inv@,
                    mm,
                ) by {
                    if mm == hi as int {
                        assert(crc_entry(i) >> 24 == mm && inv@[mm] == (crc_entry(i) << 8) ^ i);
                        assert(inv_slot_ok(inv@, mm));
                    } else {
                        assert(old_seen[mm] && inv_slot_ok(old_inv, mm));
                        let ii = choose|ii: u32|
                            ii < 256 && #[trigger] (crc_entry(ii) >> 24) == mm && old_inv[mm] == (
                            crc_entry(ii) << 8) ^ ii;
                        assert(inv@[mm] == old_inv[mm]);
                        assert(inv_slot_ok(inv@, mm));
                    }
                }
            }
            i = i + 1;
        }

        let mut m: usize = 0;
        while m < 256
            invariant
                m <= 256,
                seen@.len() == 256,
                forall|i1: u32, i2: u32|
                    i1 < 256 && i2 < 256 && i1 != i2 ==> #[trigger] (crc_entry(i1) >> 24)
                        != #[trigger] (crc_entry(i2) >> 24),
                forall|mm: u32|
                    mm < 256 ==> (seen@[mm as int] <==> #[trigger] has_msb_below(mm, 256)),
                forall|mm: int| 0 <= mm < 256 && seen@[mm] ==> #[trigger] inv_slot_ok(inv@, mm),
                forall|k: int| 0 <= k < m ==> seen@[k],
                inv@.len() == 256,
                tab@.len() == 256,
                forall|k: int| 0 <= k < 256 ==> tab@[k] == crc_entry(k as u32),
            decreases 256 - m,
        {
            if !seen[m] {
                // some byte is the high byte of no entry
                proof {
                    assert(!has_entry_with_msb(m as u32));
                    assert(!crc_msbs_onto());
                }
                return None;
            }
            m = m + 1;
        }
        assert(crc_msbs_onto()) by {
            assert forall|mm: u32| mm < 256 implies #[trigger] has_entry_with_msb(mm) by {
                assert(seen@[mm as int]);
            }
        }
        let r = Crc32Tab { tab, inv };
        assert forall|mm: int| 0 <= mm < 256 implies #[trigger] inv_slot_ok(r.inv@, mm) by {
            assert(seen@[mm]);
        }
        Some(r)
    }

    /// One forward step.
    pub fn crc32(&self, z: u32, b: u8) -> (r: u32)
        requires
            self.wf(),
        ensures
            r == spec_crc32(z, b),
    {
        let idx = ((z ^ (b as u32)) & 0xff) as usize;
        assert((z ^ (b as u32)) & 0xff < 256) by (bit_vector);
        (z >> 8) ^ self.tab[idx]
    }

    /// One backward step given the byte that was absorbed; the result is
    /// the unique state the forward step maps to `z`.
    pub fn crc32inv(&self, z: u32, b: u8) -> (r: u32)
        requires
            self.wf(),
        ensures
            spec_crc32(r, b) == z,
            forall|w: u32| spec_crc32(w, b) == z ==> w == r,
    {
        let hi = (z >> 24) as usize;
        assert(z >> 24 < 256) by (bit_vector);
        let r = (z << 8) ^ self.inv[hi] ^ (b as u32);
        proof {
            assert(inv_slot_ok(self.inv@, hi as int));
            let i = choose|i: u32|
                i < 256 && #[trigger] (crc_entry(i) >> 24) == hi as int && self.inv@[hi as int]
                    == (crc_entry(i) << 8) ^ i;
            let e = crc_entry(i);
            assert((r ^ (b as u32)) & 0xff == i && i & 0xff == i) by (bit_vector)
                requires
                    i < 256,
                    r == (z << 8) ^ ((e << 8) ^ i) ^ (b as u32),
            ;
            assert(crc_entry((r ^ (b as u32)) & 0xff) == e);
            assert((r >> 8) ^ e == z) by (bit_vector)
                requires
                    i < 256,
                    e >> 24 == z >> 24,
                    r == (z << 8) ^ ((e << 8) ^ i) ^ (b as u32),
            ;
            assert forall|w: u32| spec_crc32(w, b) == z implies w == r by {
                let iw = (w ^ (b as u32)) & 0xff;
                let ew = crc_entry(iw);
                assert((w ^ (b as u32)) & 0xff < 256 && ((w >> 8) ^ ew) >> 24 == ew >> 24) by (
                bit_vector);
                assert(ew >> 24 == e >> 24);
                assert(iw == i) by {
                    if iw != i {
                        assert(crc_entry(iw) >> 24 != crc_entry(i) >> 24);
                    }
                }
                assert(w == r) by (bit_vector)
                    requires
                        i < 256,
                        (w >> 8) ^ e == z,
                        (w ^ (b as u32)) & 0xff == i,
                        r == (z << 8) ^ ((e << 8) ^ i) ^ (b as u32),
                ;
            }
        }
        r
    }

    /// Bits 10..32 of any predecessor of a Z value known in bits 2..32:
    /// every state whose forward step agrees with `z` on bits 2..32 has
    /// exactly these bits 10..32, and conversely every completion of the
    /// result by a fragment of bits 2..16 that agrees with it on bits
    /// 10..16 does step forward onto `z`'s bits 2..32 for some byte.
    pub fn get_zim1_10_32(&self, z: u32) -> (r: u32)
        requires
            self.wf(),
        ensures
            r & MASK_10_32 == r,
            forall|w: u32, b: u8|
                #[trigger] (spec_crc32(w, b) & MASK_2_32) == z & MASK_2_32 ==> w & MASK_10_32 == r,
            forall|f: u32|
                f < 0x10000 && f & 3 == 0 && (f & 0xFC00) == (r & 0xFC00) ==> exists|b: u8|
                    #[trigger] (spec_crc32(r | f, b) & MASK_2_32) == z & MASK_2_32,
    {
        let hi = (z >> 24) as usize;
        assert(z >> 24 < 256) by (bit_vector);
        let r = ((z << 8) ^ self.inv[hi]) & MASK_10_32;
        proof {
            assert(inv_slot_ok(self.inv@, hi as int));
            let i = choose|i: u32|
                i < 256 && #[trigger] (crc_entry(i) >> 24) == hi as int && self.inv@[hi as int]
                    == (crc_entry(i) << 8) ^ i;
            let e = crc_entry(i);
            assert(r & 0xFFFF_FC00u32 == r) by (bit_vector)
                requires
                    r == ((z << 8) ^ ((e << 8) ^ i)) & 0xFFFF_FC00u32,
            ;
            assert forall|w: u32, b: u8|
                #[trigger] (spec_crc32(w, b) & MASK_2_32) == z & MASK_2_32 implies w & MASK_10_32
                == r by {
                let iw = (w ^ (b as u32)) & 0xff;
                let ew = crc_entry(iw);
                assert((w ^ (b as u32)) & 0xff < 256 && (((w >> 8) ^ ew) & 0xFFFF_FFFCu32) >> 24
                    == ew >> 24) by (bit_vector);
                assert((z & 0xFFFF_FFFCu32) >> 24 == z >> 24) by (bit_vector);
                assert(ew >> 24 == e >> 24);
                assert(iw == i) by {
                    if iw != i {
                        assert(crc_entry(iw) >> 24 != crc_entry(i) >> 24);
                    }
                }
                assert(w & 0xFFFF_FC00u32 == r) by (bit_vector)
                    requires
                        i < 256,
                        ((w >> 8) ^ e) & 0xFFFF_FFFCu32 == z & 0xFFFF_FFFCu32,
                        r == ((z << 8) ^ ((e << 8) ^ i)) & 0xFFFF_FC00u32,
                ;
            }
            assert forall|f: u32|
                f < 0x10000 && f & 3 == 0 && (f & 0xFC00) == (r & 0xFC00) implies exists|b: u8|
                #[trigger] (spec_crc32(r | f, b) & MASK_2_32) == z & MASK_2_32 by {
                assert(((r | f) ^ i) & 0xff < 256) by (bit_vector);
                let b = ((((r | f) ^ i) & 0xff) as u8);
                assert(((r | f) ^ (b as u32)) & 0xff == i && i & 0xff == i) by (bit_vector)
                    requires
                        i < 256,
                        b == (((r | f) ^ i) & 0xff) as u8,
                ;
                assert(crc_entry(((r | f) ^ (b as u32)) & 0xff) == e);
                assert((((r | f) >> 8) ^ e) & 0xFFFF_FFFCu32 == z & 0xFFFF_FFFCu32) by (bit_vector)
                    requires
                        i < 256,
                        e >> 24 == z >> 24,
                        f < 0x10000,
                        f & 3 == 0,
                        (f & 0xFC00) == (r & 0xFC00),
                        r == ((z << 8) ^ ((e << 8) ^ i)) & 0xFFFF_FC00u32,
                ;
                assert(spec_crc32(r | f, b) & MASK_2_32 == z & MASK_2_32);
            }
        }
        r
    }
}

/// A forward step determines its input: two states that one byte maps to
/// the same value are equal.
pub proof fn lemma_crc32_injective(w1: u32, w2: u32, b: u8)
    requires
        crc_msbs_distinct(),
        spec_crc32(w1, b) == spec_crc32(w2, b),
    ensures
        w1 == w2,
{
    let i1 = (w1 ^ (b as u32)) & 0xff;
    let i2 = (w2 ^ (b as u32)) & 0xff;
    let e1 = crc_entry(i1);
    let e2 = crc_entry(i2);
    assert((w1 ^ (b as u32)) & 0xff < 256 && (w2 ^ (b as u32)) & 0xff < 256 && ((w1 >> 8) ^ e1)
        >> 24 == e1 >> 24 && ((w2 >> 8) ^ e2) >> 24 == e2 >> 24) by (bit_vector);
    assert(i1 == i2) by {
        if i1 != i2 {
            assert(crc_entry(i1) >> 24 != crc_entry(i2) >> 24);
        }
    }
    assert(w1 == w2) by (bit_vector)
        requires
            (w1 >> 8) ^ e1 == (w2 >> 8) ^ e1,
            (w1 ^ (b as u32)) & 0xff == (w2 ^ (b as u32)) & 0xff,
    ;
}

} // verus!
