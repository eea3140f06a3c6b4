//! Keystream table: maps a keystream byte to the 16-bit state fragments
//! that can emit it, with indexed lookup by the fragment's bits 10..16.
//!
//! A fragment is a Z value reduced to bits 2..16: the emitted byte depends
//! only on those bits, because bits 0 and 1 are forced before the multiply.

use vstd::prelude::*;

verus! {

/// Keystream byte emitted by state `z`; only bits 2..16 of `z` matter.
pub open spec fn spec_keystream_byte(z: u32) -> u8 {
    let t: u32 = (z & 0xffff) | 3;
    (((t * (t | 1)) / 256) % 256) as u8
}

/// A Z value reduced to bits 2..16.
pub open spec fn is_fragment(f: u32) -> bool {
    f < 0x10000 && f % 4 == 0
}

/// Emit the keystream byte of state `z`.
pub fn keystream_byte(z: u32) -> (r: u8)
    ensures
        r == spec_keystream_byte(z),
{
    let t: u32 = (z & 0xffff) | 3;
    let u: u32 = t | 1;
    assert(t < 0x10000 && u < 0x10000) by (bit_vector)
        requires
            t == (z & 0xffff) | 3,
            u == t | 1,
    ;
    proof {
        assert((t as int) * (u as int) < 0x1_0000_0000) by (nonlinear_arith)
            requires
                t < 0x10000,
                u < 0x10000,
        ;
    }
    let p: u64 = (t as u64) * (u as u64);
    proof {
        assert((p >> 8) & 0xff == (p / 256) % 256) by (bit_vector);
        assert((p >> 8) & 0xff < 256) by (bit_vector);
    }
    ((p >> 8) & 0xff) as u8
}

/// For each byte, all fragments that emit it; and the same fragments keyed
/// additionally by their bits 10..16 for prefix lookup.
pub struct KeystreamTab {
    arrays: Vec<Vec<u32>>,
    buckets: Vec<Vec<u32>>,
}

impl KeystreamTab {
    pub closed spec fn wf(self) -> bool {
        &&& self.arrays@.len() == 256
        &&& self.buckets@.len() == 0x4000
        &&& forall|k: int, j: int|
            0 <= k < 256 && 0 <= j < self.arrays@[k]@.len() ==> is_fragment(
                #[trigger] self.arrays@[k]@[j],
            ) && spec_keystream_byte(self.arrays@[k]@[j]) == k
        &&& forall|f: u32|
            is_fragment(f) ==> #[trigger] self.arrays@[spec_keystream_byte(f) as int]@.contains(f)
        &&& forall|b: int, j: int|
            0 <= b < 0x4000 && 0 <= j < self.buckets@[b]@.len() ==> is_fragment(
                #[trigger] self.buckets@[b]@[j],
            ) && spec_keystream_byte(self.buckets@[b]@[j]) as int * 64 + (self.buckets@[b]@[j]
                >> 10) == b
        &&& forall|f: u32|
            is_fragment(f) ==> #[trigger] self.buckets@[spec_keystream_byte(f) as int * 64 + (f
                >> 10) as int]@.contains(f)
        &&& forall|k: int, j1: int, j2: int|
            0 <= k < 256 && 0 <= j1 < j2 < self.arrays@[k]@.len() ==> (#[trigger] self.arrays@[k]@[j1])
                < (#[trigger] self.arrays@[k]@[j2])
        &&& forall|b: int, j1: int, j2: int|
            0 <= b < 0x4000 && 0 <= j1 < j2 < self.buckets@[b]@.len() ==> (
            #[trigger] self.buckets@[b]@[j1]) < (#[trigger] self.buckets@[b]@[j2])
    }

    /// Enumerates the 2^14 fragments into both indexes.
    pub fn new() -> (r: KeystreamTab)
        ensures
            r.wf(),
    {
        let mut arrays: Vec<Vec<u32>> = Vec::new();
        let mut k: u32 = 0;
        while k < 256
            invariant
                k <= 256,
                arrays@.len() == k,
                forall|kk: int, j: int|
                    0 <= kk < k && 0 <= j < arrays@[kk]@.len() ==> is_fragment(
                        #[trigger] arrays@[kk]@[j],
                    ) && spec_keystream_byte(arrays@[kk]@[j]) == kk,
                forall|f: u32|
                    is_fragment(f) && spec_keystream_byte(f) < k
                        ==> #[trigger] arrays@[spec_keystream_byte(f) as int]@.contains(f),
                forall|kk: int, j1: int, j2: int|
                    0 <= kk < k && 0 <= j1 < j2 < arrays@[kk]@.len() ==> (
                    #[trigger] arrays@[kk]@[j1]) < (#[trigger] arrays@[kk]@[j2]),
            decreases 256 - k,
        {
            let mut a: Vec<u32> = Vec::new();
            let mut f: u32 = 0;
            while f < 0x10000
                invariant
                    f <= 0x10000,
                    f % 4 == 0,
                    k < 256,
                    forall|j: int|
                        0 <= j < a@.len() ==> is_fragment(#[trigger] a@[j]) && spec_keystream_byte(
                            a@[j],
                        ) == k,
                    forall|g: u32|
                        is_fragment(g) && g < f && spec_keystream_byte(g) == k ==> a@.contains(g),
                    forall|j: int| 0 <= j < a@.len() ==> (#[trigger] a@[j]) < f,
                    forall|j1: int, j2: int|
                        0 <= j1 < j2 < a@.len() ==> (#[trigger] a@[j1]) < (#[trigger] a@[j2]),
                decreases 0x10000 - f,
            {
                if keystream_byte(f) as u32 == k {
                    let ghost olda = a@;
                    a.push(f);
                    proof {
                        assert forall|g: u32|
                            is_fragment(g) && g < f + 4 && spec_keystream_byte(g) == k implies a@
                            .contains(g) by {
                            if g < f {
                                assert(olda.contains(g));
                                let jj = choose|jj: int| 0 <= jj < olda.len() && olda[jj] == g;
                                assert(a@[jj] == g);
                            } else {
                                assert(g == f);
                                assert(a@[a@.len() - 1] == g);
                            }
                        }
                    }
                } else {
                    assert forall|g: u32|
                        is_fragment(g) && g < f + 4 && spec_keystream_byte(g) == k implies a@
                        .contains(g) by {
                        assert(g != f);
                        assert(g < f);
                    }
                }
                f = f + 4;
            }
            arrays.push(a);
            k = k + 1;
        }

        let mut buckets: Vec<Vec<u32>> = Vec::new();
        let mut b: u32 = 0;
        while b < 0x4000
            invariant
                b <= 0x4000,
                buckets@.len() == b,
                forall|bb: int, j: int|
                    0 <= bb < b && 0 <= j < buckets@[bb]@.len() ==> is_fragment(
                        #[trigger] buckets@[bb]@[j],
                    ) && spec_keystream_byte(buckets@[bb]@[j]) as int * 64 + (buckets@[bb]@[j]
                        >> 10) == bb,
                forall|f: u32|
                    is_fragment(f) && spec_keystream_byte(f) as int * 64 + (f >> 10) < b
                        ==> #[trigger] buckets@[spec_keystream_byte(f) as int * 64 + (f
                        >> 10) as int]@.contains(f),
                forall|bb: int, j1: int, j2: int|
                    0 <= bb < b && 0 <= j1 < j2 < buckets@[bb]@.len() ==> (
                    #[trigger] buckets@[bb]@[j1]) < (#[trigger] buckets@[bb]@[j2]),
            decreases 0x4000 - b,
        {
            let kk: u32 = b / 64;
            let hh: u32 = b % 64;
            let mut v: Vec<u32> = Vec::new();
            let mut f: u32 = hh * 1024;
            let hi: u32 = hh * 1024 + 1024;
            proof {
                assert forall|g: u32|
                    is_fragment(g) && g >> 10 == hh implies hh * 1024 <= g < hh * 1024 + 1024 by {
                    assert(g < 0x10000 && g >> 10 == hh ==> hh * 1024 <= g < hh * 1024 + 1024) by (
                    bit_vector);
                }
            }
            while f < hi
                invariant
                    hh < 64,
                    kk < 256,
                    hi == hh * 1024 + 1024,
                    hh * 1024 <= f <= hi,
                    f % 4 == 0,
                    forall|j: int|
                        0 <= j < v@.len() ==> is_fragment(#[trigger] v@[j]) && spec_keystream_byte(
                            v@[j],
                        ) == kk && (v@[j] >> 10) == hh,
                    forall|g: u32|
                        is_fragment(g) && g < f && spec_keystream_byte(g) == kk && g >> 10 == hh
                            ==> v@.contains(g),
                    forall|j: int| 0 <= j < v@.len() ==> (#[trigger] v@[j]) < f,
                    forall|j1: int, j2: int|
                        0 <= j1 < j2 < v@.len() ==> (#[trigger] v@[j1]) < (#[trigger] v@[j2]),
                decreases hi - f,
            {
                assert(f < 0x10000 && f >> 10 == hh) by (bit_vector)
                    requires
                        hh < 64,
                        hh * 1024 <= f,
                        f < hh * 1024 + 1024,
                ;
                if keystream_byte(f) as u32 == kk {
                    let ghost oldv = v@;
                    v.push(f);
                    proof {
                        assert forall|g: u32|
                            is_fragment(g) && g < f + 4 && spec_keystream_byte(g) == kk && g >> 10
                                == hh implies v@.contains(g) by {
                            if g < f {
                                assert(oldv.contains(g));
                                let jj = choose|jj: int| 0 <= jj < oldv.len() && oldv[jj] == g;
                                assert(v@[jj] == g);
                            } else {
                                assert(g == f);
                                assert(v@[v@.len() - 1] == g);
                            }
                        }
                    }
                } else {
                    assert forall|g: u32|
                        is_fragment(g) && g < f + 4 && spec_keystream_byte(g) == kk && g >> 10 == hh
                        implies v@.contains(g) by {
                        assert(g != f);
                        assert(g < f);
                    }
                }
                f = f + 4;
            }
            proof {
                assert forall|g: u32|
                    is_fragment(g) && spec_keystream_byte(g) == kk && g >> 10 == hh implies v@
                    .contains(g) by {
                    assert(g < hi);
                }
            }
            buckets.push(v);
            proof {
                assert forall|g: u32|
                    is_fragment(g) && spec_keystream_byte(g) as int * 64 + (g >> 10) < b + 1
                    implies #[trigger] buckets@[spec_keystream_byte(g) as int * 64 + (g
                    >> 10) as int]@.contains(g) by {
                    if spec_keystream_byte(g) as int * 64 + (g >> 10) == b {
                        assert(g >> 10 < 64) by (bit_vector)
                            requires
                                g < 0x10000,
                        ;
                        assert(spec_keystream_byte(g) == kk && g >> 10 == hh);
                    }
                }
            }
            b = b + 1;
        }
        proof {
            assert forall|f: u32| is_fragment(f) implies spec_keystream_byte(f) as int * 64 + (f
                >> 10) < 0x4000 by {
                assert(f < 0x10000 ==> f >> 10 < 64) by (bit_vector);
            }
        }
        KeystreamTab { arrays, buckets }
    }

    /// Keystream byte of state `z`.
    pub fn get_byte(&self, z: u32) -> (r: u8)
        ensures
            r == spec_keystream_byte(z),
    {
        keystream_byte(z)
    }

    /// All fragments that emit byte `k`.
    pub fn get_zi_2_16_array(&self, k: u8) -> (r: Vec<u32>)
        requires
            self.wf(),
        ensures
            forall|j: int|
                0 <= j < r@.len() ==> is_fragment(#[trigger] r@[j]) && spec_keystream_byte(r@[j])
                    == k,
            forall|f: u32| is_fragment(f) && spec_keystream_byte(f) == k ==> r@.contains(f),
            forall|j1: int, j2: int|
                0 <= j1 < j2 < r@.len() ==> (#[trigger] r@[j1]) != (#[trigger] r@[j2]),
    {
        copy_words(&self.arrays[k as usize])
    }

    /// Does some fragment with bits 10..16 taken from `zhigh` emit `k`?
    pub fn has_zi_2_16(&self, k: u8, zhigh: u32) -> (r: bool)
        requires
            self.wf(),
        ensures
            r <==> exists|f: u32|
                is_fragment(f) && spec_keystream_byte(f) == k && #[trigger] (f >> 10) == (zhigh
                    >> 10) & 0x3f,
    {
        assert((zhigh >> 10) & 0x3f < 64) by (bit_vector);
        let h = ((zhigh >> 10) & 0x3f) as usize;
        let idx = (k as usize) * 64 + h;
        let r = self.buckets[idx].len() > 0;
        proof {
            if r {
                let g = self.buckets@[idx as int]@[0];
                assert(g >> 10 < 64) by (bit_vector)
                    requires
                        g < 0x10000,
                ;
                assert(g >> 10 == (zhigh >> 10) & 0x3f);
            } else {
                if exists|f: u32|
                    is_fragment(f) && spec_keystream_byte(f) == k && #[trigger] (f >> 10) == (zhigh
                        >> 10) & 0x3f {
                    let f = choose|f: u32|
                        is_fragment(f) && spec_keystream_byte(f) == k && #[trigger] (f >> 10) == (
                        zhigh >> 10) & 0x3f;
                    assert(self.buckets@[k as int * 64 + (f >> 10) as int]@.contains(f));
                    assert(false);
                }
            }
        }
        r
    }

    /// The fragments with bits 10..16 taken from `zhigh` that emit `k`.
    pub fn get_zi_2_16_vector(&self, k: u8, zhigh: u32) -> (r: Vec<u32>)
        requires
            self.wf(),
        ensures
            forall|j: int|
                0 <= j < r@.len() ==> is_fragment(#[trigger] r@[j]) && spec_keystream_byte(r@[j])
                    == k && (r@[j] >> 10) == (zhigh >> 10) & 0x3f,
            forall|f: u32|
                is_fragment(f) && spec_keystream_byte(f) == k && #[trigger] (f >> 10) == (zhigh
                    >> 10) & 0x3f ==> r@.contains(f),
            forall|j1: int, j2: int|
                0 <= j1 < j2 < r@.len() ==> (#[trigger] r@[j1]) != (#[trigger] r@[j2]),
    {
        let h = ((zhigh >> 10) & 0x3f) as usize;
        assert((zhigh >> 10) & 0x3f < 64) by (bit_vector);
        let idx = (k as usize) * 64 + h;
        let r = copy_words(&self.buckets[idx]);
        proof {
            assert forall|j: int| 0 <= j < r@.len() implies is_fragment(#[trigger] r@[j])
                && spec_keystream_byte(r@[j]) == k && (r@[j] >> 10) == (zhigh >> 10) & 0x3f by {
                let e = r@[j];
                assert(e >> 10 < 64) by (bit_vector)
                    requires
                        e < 0x10000,
                ;
            }
            assert forall|f: u32|
                is_fragment(f) && spec_keystream_byte(f) == k && #[trigger] (f >> 10) == (zhigh
                    >> 10) & 0x3f implies r@.contains(f) by {
                assert(self.buckets@[k as int * 64 + (f >> 10) as int]@.contains(f));
            }
        }
        r
    }
}

/// Copies a vector of bytes.
pub fn copy_bytes(v: &Vec<u8>) -> (r: Vec<u8>)
    ensures
        r@ == v@,
{
    let mut r: Vec<u8> = Vec::new();
    let mut i: usize = 0;
    while i < v.len()
        invariant
            i <= v@.len(),
            r@ == v@.subrange(0, i as int),
        decreases v@.len() - i,
    {
        r.push(v[i]);
        proof {
            assert(r@ =~= v@.subrange(0, i + 1));
        }
        i = i + 1;
    }
    proof {
        assert(r@ =~= v@);
    }
    r
}

/// Copies a vector of words.
pub fn copy_words(v: &Vec<u32>) -> (r: Vec<u32>)
    ensures
        r@ == v@,
{
    let mut r: Vec<u32> = Vec::new();
    let mut i: usize = 0;
    while i < v.len()
        invariant
            i <= v@.len(),
            r@ == v@.subrange(0, i as int),
        decreases v@.len() - i,
    {
        r.push(v[i]);
        proof {
            assert(r@ =~= v@.subrange(0, i + 1));
        }
        i = i + 1;
    }
    proof {
        assert(r@ =~= v@);
    }
    r
}

} // verus!
