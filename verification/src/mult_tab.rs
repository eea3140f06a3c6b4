//! The PKZIP linear-congruential multiplier, its inverse modulo 2^32, and
//! fibers of the inverse product's high byte, used when guessing the top
//! byte of a Y-register step.

use vstd::prelude::*;

verus! {

/// PKZIP LCG multiplier.
pub const MULT: u32 = 0x0808_8405;

/// Multiplicative inverse of `MULT` modulo 2^32.
pub const MULT_INV: u32 = 0xD94F_A8CD;

/// `x * MULT_INV` modulo 2^32.
pub open spec fn spec_mulinv(x: u32) -> u32 {
    vstd::wrapping::u32_specs::wrapping_mul(x, MULT_INV)
}

/// The two constants really are inverse to each other.
pub proof fn lemma_mult_inverse()
    ensures
        ((MULT as int) * (MULT_INV as int)) % 0x1_0000_0000 == 1,
{
    assert((MULT as int) * (MULT_INV as int) == 0x0808_8405 * 0xD94F_A8CD) by (nonlinear_arith);
}

/// Multiplies by the inverse of `MULT`, modulo 2^32: this undoes the
/// multiplication of a Y-register step.
pub fn mul_by_mult_inv(x: u32) -> (r: u32)
    ensures
        r == spec_mulinv(x),
{
    x.wrapping_mul(MULT_INV)
}

/// Is `x` in the fiber of `m`: does `x * MULT_INV` have high byte `m`, one
/// below it, or one above it (modulo 256)? The slack of one on either side
/// absorbs the carries that a later addition or subtraction of a byte-sized
/// term can cause.
pub open spec fn in_fiber(x: u32, m: int) -> bool {
    let h = (spec_mulinv(x) >> 24) as int;
    h == m || (h + 1) % 256 == m || (h + 255) % 256 == m
}

/// For each byte `m`, the bytes `x` whose product `x * MULT_INV` has a
/// high byte within one of `m`.
pub struct MultTab {
    fibers: Vec<Vec<u32>>,
}

impl MultTab {
    pub closed spec fn wf(self) -> bool {
        &&& self.fibers@.len() == 256
        &&& forall|m: int, j: int|
            0 <= m < 256 && 0 <= j < self.fibers@[m]@.len() ==> (#[trigger] self.fibers@[m]@[j])
                < 256 && in_fiber(self.fibers@[m]@[j], m)
        &&& forall|m: int, x: u32|
            0 <= m < 256 && x < 256 && in_fiber(x, m) ==> #[trigger] self.fibers@[m]@.contains(x)
    }

    /// Enumerates the 256 byte values into their fibers.
    pub fn new() -> (r: MultTab)
        ensures
            r.wf(),
    {
        let mut fibers: Vec<Vec<u32>> = Vec::new();
        let mut m: u32 = 0;
        while m < 256
            invariant
                m <= 256,
                fibers@.len() == m,
                forall|mm: int, j: int|
                    0 <= mm < m && 0 <= j < fibers@[mm]@.len() ==> (#[trigger] fibers@[mm]@[j])
                        < 256 && in_fiber(fibers@[mm]@[j], mm),
                forall|mm: int, x: u32|
                    0 <= mm < m && x < 256 && in_fiber(x, mm) ==> #[trigger] fibers@[mm]@.contains(
                        x,
                    ),
            decreases 256 - m,
        {
            let mut v: Vec<u32> = Vec::new();
            let mut x: u32 = 0;
            while x < 256
                invariant
                    x <= 256,
                    m < 256,
                    forall|j: int|
                        0 <= j < v@.len() ==> (#[trigger] v@[j]) < 256 && in_fiber(
                            v@[j],
                            m as int,
                        ),
                    forall|g: u32| g < x && in_fiber(g, m as int) ==> v@.contains(g),
                decreases 256 - x,
            {
                let p = mul_by_mult_inv(x);
                assert(p >> 24 < 256) by (bit_vector);
                let h: u32 = p >> 24;
                if h == m || (h + 1) % 256 == m || (h + 255) % 256 == m {
                    let ghost oldv = v@;
                    v.push(x);
                    proof {
                        assert forall|g: u32| g < x + 1 && in_fiber(g, m as int) implies v@
                            .contains(g) by {
                            if g < x {
                                assert(oldv.contains(g));
                                let jj = choose|jj: int| 0 <= jj < oldv.len() && oldv[jj] == g;
                                assert(v@[jj] == g);
                            } else {
                                assert(v@[v@.len() - 1] == g);
                            }
                        }
                    }
                } else {
                    assert(!in_fiber(x, m as int));
                    assert forall|g: u32| g < x + 1 && in_fiber(g, m as int) implies v@.contains(
                        g,
                    ) by {
                        assert(g != x);
                    }
                }
                x = x + 1;
            }
            fibers.push(v);
            m = m + 1;
        }
        MultTab { fibers }
    }

    /// The candidate bytes whose inverse product can reach high byte `m`.
    pub fn get_msb_prod_fiber(&self, m: u8) -> (r: Vec<u32>)
        requires
            self.wf(),
        ensures
            forall|j: int| 0 <= j < r@.len() ==> (#[trigger] r@[j]) < 256 && in_fiber(r@[j], m as int),
            forall|x: u32| x < 256 && in_fiber(x, m as int) ==> r@.contains(x),
    {
        crate::keystream_tab::copy_words(&self.fibers[m as usize])
    }
}

} // verus!
