//! The three-word cipher state `(X, Y, Z)` with its forward update and,
//! with help from the tables, the backward update.

use crate::crc32_tab::{crc_msbs_distinct, lemma_crc32_injective, spec_crc32, Crc32Tab};
use crate::keystream_tab::spec_keystream_byte;
use crate::mult_tab::{lemma_mult_inverse, MULT, MULT_INV};
use vstd::arithmetic::div_mod::{lemma_mul_mod_noop_left, lemma_mul_mod_noop_right};
use vstd::arithmetic::mul::{lemma_mul_is_associative, lemma_mul_is_commutative};
use vstd::prelude::*;
use vstd::wrapping::u32_specs;

verus! {

/// High byte of a word.
pub open spec fn spec_msb(v: u32) -> u8 {
    ((v >> 24) & 0xff) as u8
}

/// High byte of a word.
pub fn msb_byte(v: u32) -> (r: u8)
    ensures
        r == spec_msb(v),
{
    assert(v >> 24 < 256 && (v >> 24) & 0xff == v >> 24) by (bit_vector);
    ((v >> 24) & 0xff) as u8
}

/// The Y-register step: add the low byte of the new X, multiply, add one,
/// all modulo 2^32.
pub open spec fn spec_update_y(y: u32, xp: u32) -> u32 {
    u32_specs::wrapping_add(u32_specs::wrapping_mul(u32_specs::wrapping_add(y, xp & 0xff), MULT), 1)
}

/// The internal cipher state.
#[derive(Clone, Copy, Debug)]
pub struct Keys {
    pub x: u32,
    pub y: u32,
    pub z: u32,
}

/// One forward update of the whole state on plaintext byte `p`.
pub open spec fn spec_update(k: Keys, p: u8) -> Keys {
    let x2 = spec_crc32(k.x, p);
    let y2 = spec_update_y(k.y, x2);
    let z2 = spec_crc32(k.z, spec_msb(y2));
    Keys { x: x2, y: y2, z: z2 }
}

impl Keys {
    /// The standard initial state of the cipher, before any password byte
    /// or header byte has been absorbed.
    pub fn new() -> (r: Keys)
        ensures
            r.x == 0x12345678u32 && r.y == 0x23456789u32 && r.z == 0x34567890u32,
    {
        Keys { x: 0x12345678, y: 0x23456789, z: 0x34567890 }
    }

    /// Sets the state directly, as when keys are supplied on the command line.
    pub fn set_keys(&mut self, x: u32, y: u32, z: u32)
        ensures
            final(self).x == x && final(self).y == y && final(self).z == z,
    {
        self.x = x;
        self.y = y;
        self.z = z;
    }

    pub fn get_x(&self) -> (r: u32)
        ensures
            r == self.x,
    {
        self.x
    }

    pub fn get_y(&self) -> (r: u32)
        ensures
            r == self.y,
    {
        self.y
    }

    pub fn get_z(&self) -> (r: u32)
        ensures
            r == self.z,
    {
        self.z
    }

    /// One forward update on plaintext byte `p`.
    pub fn update(&mut self, t: &Crc32Tab, p: u8)
        requires
            t.wf(),
        ensures
            *final(self) == spec_update(*old(self), p),
    {
        self.x = t.crc32(self.x, p);
        let lx: u32 = self.x & 0xff;
        self.y = self.y.wrapping_add(lx).wrapping_mul(MULT).wrapping_add(1);
        let zb = msb_byte(self.y);
        self.z = t.crc32(self.z, zb);
    }

    /// One backward update given ciphertext byte `c`. The new state is
    /// characterized through the forward maps: its Z and X step forward
    /// onto the old ones, and its Y runs the Y-step forward onto the old
    /// Y; together with the injectivity of those maps this pins the state.
    pub fn update_backward(&mut self, t: &Crc32Tab, c: u8)
        requires
            t.wf(),
        ensures
            spec_crc32(final(self).z, spec_msb(old(self).y)) == old(self).z,
            spec_update_y(final(self).y, old(self).x) == old(self).y,
            spec_crc32(final(self).x, c ^ spec_keystream_byte(final(self).z)) == old(self).x,
    {
        let ghost oy = self.y;
        self.z = t.crc32inv(self.z, msb_byte(self.y));
        let ym1: u32 = self.y.wrapping_sub(1);
        let prod: u32 = ym1.wrapping_mul(MULT_INV);
        let lx: u32 = self.x & 0xff;
        let yp: u32 = prod.wrapping_sub(lx);
        proof {
            assert(u32_specs::wrapping_add(yp, self.x & 0xff) == prod);
            lemma_wrapping_mul_inverse(ym1);
            assert(u32_specs::wrapping_add(ym1, 1) == oy);
        }
        self.y = yp;
        let ks = crate::keystream_tab::keystream_byte(self.z);
        let p: u8 = c ^ ks;
        self.x = t.crc32inv(self.x, p);
    }
}

/// Law: applying the forward update on plaintext byte `p` and then any
/// state `b` that satisfies the backward update's contract for the
/// ciphertext byte the forward step produced must be the original state:
/// the forward-then-backward round trip is the identity.
pub proof fn lemma_update_roundtrip(s: Keys, p: u8, b: Keys, c: u8)
    requires
        crc_msbs_distinct(),
        c == p ^ spec_keystream_byte(s.z),
        spec_crc32(b.z, spec_msb(spec_update(s, p).y)) == spec_update(s, p).z,
        spec_update_y(b.y, spec_update(s, p).x) == spec_update(s, p).y,
        spec_crc32(b.x, c ^ spec_keystream_byte(b.z)) == spec_update(s, p).x,
    ensures
        b == s,
{
    let f = spec_update(s, p);
    assert(spec_crc32(s.z, spec_msb(f.y)) == f.z);
    lemma_crc32_injective(b.z, s.z, spec_msb(f.y));
    assert(b.z == s.z);
    lemma_update_y_injective(b.y, s.y, f.x);
    assert(b.y == s.y);
    let ksb = spec_keystream_byte(b.z);
    let kss = spec_keystream_byte(s.z);
    assert(ksb == kss);
    assert(c ^ ksb == p) by (bit_vector)
        requires
            c == p ^ kss,
            ksb == kss,
    ;
    assert(spec_crc32(s.x, p) == f.x);
    lemma_crc32_injective(b.x, s.x, p);
}

/// Multiplying by `b` and then by `c` modulo 2^32 is the identity when
/// `b * c` is 1 modulo 2^32.
pub proof fn lemma_wrapping_mul_cancel(a: u32, b: u32, c: u32)
    requires
        ((b as int) * (c as int)) % 0x1_0000_0000 == 1,
    ensures
        u32_specs::wrapping_mul(u32_specs::wrapping_mul(a, b), c) == a,
{
    let m: int = 0x1_0000_0000;
    let ab: int = (a as int) * (b as int);
    let w1: int = u32_specs::wrapping_mul(a, b) as int;
    assert(w1 == ab % m);
    let w2: int = u32_specs::wrapping_mul(u32_specs::wrapping_mul(a, b), c) as int;
    assert(w2 == (w1 * (c as int)) % m);
    lemma_mul_mod_noop_left(ab, c as int, m);
    assert(w2 == (ab * (c as int)) % m);
    lemma_mul_is_associative(a as int, b as int, c as int);
    assert(ab * (c as int) == (a as int) * ((b as int) * (c as int)));
    lemma_mul_mod_noop_right(a as int, (b as int) * (c as int), m);
    assert(w2 == ((a as int) * (((b as int) * (c as int)) % m)) % m);
    assert(w2 == (a as int) % m);
    vstd::arithmetic::div_mod::lemma_small_mod(a as nat, m as nat);
}

/// Undoing the Y-multiplication with the inverse multiplier and redoing it
/// restores the word, and the other way round.
pub proof fn lemma_wrapping_mul_inverse(a: u32)
    ensures
        u32_specs::wrapping_mul(u32_specs::wrapping_mul(a, MULT_INV), MULT) == a,
        u32_specs::wrapping_mul(u32_specs::wrapping_mul(a, MULT), MULT_INV) == a,
{
    lemma_mult_inverse();
    lemma_mul_is_commutative(MULT as int, MULT_INV as int);
    lemma_wrapping_mul_cancel(a, MULT_INV, MULT);
    lemma_wrapping_mul_cancel(a, MULT, MULT_INV);
}

/// The Y-register step determines its input: the multiplier is invertible.
pub proof fn lemma_update_y_injective(y1: u32, y2: u32, xp: u32)
    requires
        spec_update_y(y1, xp) == spec_update_y(y2, xp),
    ensures
        y1 == y2,
{
    let lx = xp & 0xff;
    let u1 = u32_specs::wrapping_add(y1, lx);
    let u2 = u32_specs::wrapping_add(y2, lx);
    let m1 = u32_specs::wrapping_mul(u1, MULT);
    let m2 = u32_specs::wrapping_mul(u2, MULT);
    assert(u32_specs::wrapping_add(m1, 1) == u32_specs::wrapping_add(m2, 1));
    assert(m1 == m2);
    lemma_wrapping_mul_inverse(u1);
    lemma_wrapping_mul_inverse(u2);
    assert(u1 == u2);
    assert(y1 == y2);
}

} // verus!
