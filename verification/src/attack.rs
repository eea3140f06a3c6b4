//! The attack: promote one surviving Z candidate into a full key triple.
//!
//! From a candidate for bits 2..32 of Z at the chosen stream index, the
//! search walks the Z register backwards over a 12-byte window, recovers
//! the high bytes of the Y register along the way, reconstructs Y and then
//! X from them, and finally accepts a state only after running it forward
//! over the whole known plaintext and matching every keystream byte.

use crate::crc32_tab::Crc32Tab;
use crate::data::Data;
use crate::keys::{msb_byte, spec_update, Keys};
use crate::keystream_tab::{spec_keystream_byte, KeystreamTab};
use crate::mult_tab::{MultTab, MULT_INV};
use vstd::prelude::*;

verus! {

/// Minimum number of keystream bytes the attack needs.
pub const SIZE: usize = 12;

/// The state after `n` forward updates from `s` on the plaintext.
pub open spec fn spec_run(s: Keys, plain: Seq<u8>, n: int) -> Keys
    decreases n,
{
    if n <= 0 {
        s
    } else {
        spec_update(spec_run(s, plain, n - 1), plain[n - 1])
    }
}

/// Running forward from `s` over the plaintext emits exactly `ks`.
pub open spec fn forward_emits(s: Keys, plain: Seq<u8>, ks: Seq<u8>) -> bool {
    forall|i: int|
        0 <= i < ks.len() ==> spec_keystream_byte(#[trigger] spec_run(s, plain, i).z) == ks[i]
}

/// The state after stepping forward over the ciphertext bytes in
/// positions `lo..hi`: each step XORs the keystream byte into the
/// ciphertext byte and absorbs the recovered plaintext byte, exactly as
/// decryption does.
pub open spec fn spec_cipher_steps(s: Keys, c: Seq<u8>, lo: int, hi: int) -> Keys
    decreases hi - lo,
{
    if lo >= hi {
        s
    } else {
        spec_cipher_steps(spec_update(s, c[lo] ^ spec_keystream_byte(s.z)), c, lo + 1, hi)
    }
}

/// One backward state step when the consumed plaintext byte is known.
fn backward_plain(crc: &Crc32Tab, s: Keys, p: u8) -> (r: Keys)
    requires
        crc.wf(),
{
    let z = crc.crc32inv(s.z, msb_byte(s.y));
    let y = s.y.wrapping_sub(1).wrapping_mul(MULT_INV).wrapping_sub(s.x & 0xff);
    let x = crc.crc32inv(s.x, p);
    Keys { x, y, z }
}

/// Runs `s0` forward over the whole plaintext and accepts only when every
/// emitted keystream byte matches.
fn verify_forward(crc: &Crc32Tab, kst: &KeystreamTab, s0: Keys, plain: &Vec<u8>, ks: &Vec<u8>) -> (r:
    bool)
    requires
        crc.wf(),
        kst.wf(),
        plain@.len() == ks@.len(),
    ensures
        r ==> forward_emits(s0, plain@, ks@),
{
    let mut cur = s0;
    let mut i: usize = 0;
    while i < ks.len()
        invariant
            crc.wf(),
            kst.wf(),
            i <= ks@.len(),
            plain@.len() == ks@.len(),
            cur == spec_run(s0, plain@, i as int),
            forall|j: int|
                0 <= j < i ==> spec_keystream_byte(#[trigger] spec_run(s0, plain@, j).z) == ks@[j],
        decreases ks@.len() - i,
    {
        if kst.get_byte(cur.get_z()) != ks[i] {
            return false;
        }
        cur.update(crc, plain[i]);
        i = i + 1;
    }
    true
}

/// The attack over one window of the keystream.
pub struct Attack {
    plaintext: Vec<u8>,
    keystream: Vec<u8>,
    ciphertext: Vec<u8>,
    cipher_start: usize,
    index: usize,
    keys: Keys,
    state0: Keys,
    found: bool,
}

impl Attack {
    pub closed spec fn spec_plaintext(self) -> Seq<u8> {
        self.plaintext@
    }

    pub closed spec fn spec_keystream(self) -> Seq<u8> {
        self.keystream@
    }

    pub closed spec fn spec_ciphertext(self) -> Seq<u8> {
        self.ciphertext@
    }

    pub closed spec fn spec_cipher_start(self) -> int {
        self.cipher_start as int
    }

    pub closed spec fn spec_index(self) -> int {
        self.index as int
    }

    pub closed spec fn spec_state0(self) -> Keys {
        self.state0
    }

    pub closed spec fn spec_keys(self) -> Keys {
        self.keys
    }

    pub closed spec fn spec_found(self) -> bool {
        self.found
    }

    pub closed spec fn wf(self) -> bool {
        &&& self.plaintext@.len() == self.keystream@.len()
        &&& self.keystream@.len() <= usize::MAX
        &&& self.index + 12 <= self.keystream@.len()
        &&& self.cipher_start <= self.ciphertext@.len()
    }

    /// Prepares the attack over the window of 12 keystream bytes that
    /// starts at `index`.
    pub fn new(data: &Data, index: usize) -> (r: Attack)
        requires
            data.wf(),
            index + 12 <= data.keystream@.len(),
        ensures
            r.wf(),
            r.spec_plaintext() == data.plaintext@,
            r.spec_keystream() == data.keystream@,
            r.spec_ciphertext() == data.ciphertext@,
            r.spec_cipher_start() == data.cipher_start,
            r.spec_index() == index,
            !r.spec_found(),
    {
        let n_exec: usize = data.keystream.len();
        assert(data.keystream@.len() == n_exec);
        assert(data.keystream@.len() <= usize::MAX);
        Attack {
            plaintext: crate::keystream_tab::copy_bytes(&data.plaintext),
            keystream: crate::keystream_tab::copy_bytes(&data.keystream),
            ciphertext: crate::keystream_tab::copy_bytes(&data.ciphertext),
            cipher_start: data.cipher_start,
            index,
            keys: Keys::new(),
            state0: Keys::new(),
            found: false,
        }
    }

    /// Tries one candidate for bits 2..32 of Z at the end of the window.
    /// Returning true means a full state was found whose forward run from
    /// the start of the known plaintext reproduces the observed keystream
    /// exactly; the stored keys are that state stepped back through the
    /// ciphertext prefix to the very start of the stream.
    pub fn carry_out(&mut self, crc: &Crc32Tab, kst: &KeystreamTab, mt: &MultTab, zi_2_32: u32) -> (
        r: bool)
        requires
            crc.wf(),
            kst.wf(),
            mt.wf(),
            old(self).wf(),
        ensures
            final(self).wf(),
            final(self).spec_plaintext() == old(self).spec_plaintext(),
            final(self).spec_keystream() == old(self).spec_keystream(),
            final(self).spec_ciphertext() == old(self).spec_ciphertext(),
            final(self).spec_cipher_start() == old(self).spec_cipher_start(),
            final(self).spec_index() == old(self).spec_index(),
            r ==> final(self).spec_found() && forward_emits(
                final(self).spec_state0(),
                final(self).spec_plaintext(),
                final(self).spec_keystream(),
            ) && final(self).spec_state0() == spec_cipher_steps(
                final(self).spec_keys(),
                final(self).spec_ciphertext(),
                0,
                final(self).spec_cipher_start(),
            ),
            !r ==> final(self).spec_keys() == old(self).spec_keys() && final(self).spec_state0()
                == old(self).spec_state0() && final(self).spec_found() == old(self).spec_found(),
    {
        let mut zs: Vec<u32> = Vec::new();
        let mut ms: Vec<u8> = Vec::new();
        let mut xs: Vec<u32> = Vec::new();
        let mut j: usize = 0;
        while j < 12
            invariant
                zs@.len() == j,
                ms@.len() == j,
                xs@.len() == j,
                j <= 12,
            decreases 12 - j,
        {
            zs.push(0);
            ms.push(0);
            xs.push(0);
            j = j + 1;
        }
        let mut low2: u32 = 0;
        let mut result: Option<Keys> = None;
        while low2 < 4
            invariant
                crc.wf(),
                kst.wf(),
                mt.wf(),
                self.wf(),
                zs@.len() == 12,
                ms@.len() == 12,
                xs@.len() == 12,
                low2 <= 4,
                self.plaintext@ == old(self).spec_plaintext(),
                self.keystream@ == old(self).spec_keystream(),
                self.ciphertext@ == old(self).ciphertext@,
                self.cipher_start == old(self).cipher_start,
                self.index == old(self).index,
                result matches Some(k) ==> forward_emits(k, self.plaintext@, self.keystream@),
            decreases 4 - low2,
        {
            zs.set(11, (zi_2_32 & 0xFFFF_FFFC) | low2);
            let r = search_z(
                crc,
                kst,
                mt,
                &self.plaintext,
                &self.keystream,
                self.index,
                &mut zs,
                &mut ms,
                &mut xs,
                11,
            );
            if r.is_some() {
                result = r;
                break ;
            }
            low2 = low2 + 1;
        }
        match result {
            Some(k0) => {
                self.state0 = k0;
                // step the recovered state back through the ciphertext
                // bytes that precede the known plaintext, header included;
                // stepping the result forward again reaches the verified
                // state, which ties the returned keys to it
                let cs = self.cipher_start;
                let mut s = k0;
                let mut t: usize = cs;
                while t > 0
                    invariant
                        crc.wf(),
                        cs <= self.ciphertext@.len(),
                        t <= cs,
                        spec_cipher_steps(s, self.ciphertext@, t as int, cs as int) == k0,
                    decreases t,
                {
                    let cb = self.ciphertext[t - 1];
                    let ghost prev = s;
                    s.update_backward(crc, cb);
                    proof {
                        let p = cb ^ spec_keystream_byte(s.z);
                        assert(spec_update(s, p) == prev);
                        assert(spec_cipher_steps(s, self.ciphertext@, t - 1, cs as int)
                            == spec_cipher_steps(prev, self.ciphertext@, t as int, cs as int));
                    }
                    t = t - 1;
                }
                self.keys = s;
                self.found = true;
                true
            },
            None => { false },
        }
    }

    /// The recovered keys, stepped back to the start of the cipher stream.
    pub fn get_keys(&self) -> (r: Keys)
        ensures
            r == self.spec_keys(),
    {
        Keys { x: self.keys.x, y: self.keys.y, z: self.keys.z }
    }
}

/// Walks the Z register backwards over the window, enumerating at each
/// step the byte that the CRC step absorbed; that byte is the high byte of
/// the Y register there.
fn search_z(
    crc: &Crc32Tab,
    kst: &KeystreamTab,
    mt: &MultTab,
    plain: &Vec<u8>,
    ks: &Vec<u8>,
    idx: usize,
    zs: &mut Vec<u32>,
    ms: &mut Vec<u8>,
    xs: &mut Vec<u32>,
    j: usize,
) -> (r: Option<Keys>)
    requires
        crc.wf(),
        kst.wf(),
        mt.wf(),
        plain@.len() == ks@.len(),
        idx + 12 <= ks@.len(),
        ks@.len() <= usize::MAX,
        old(zs)@.len() == 12,
        old(ms)@.len() == 12,
        old(xs)@.len() == 12,
        1 <= j <= 11,
    ensures
        final(zs)@.len() == 12,
        final(ms)@.len() == 12,
        final(xs)@.len() == 12,
        r matches Some(k) ==> forward_emits(k, plain@, ks@),
    decreases j,
{
    let zj = zs[j];
    let mut b: u32 = 0;
    while b < 256
        invariant
            crc.wf(),
            kst.wf(),
            mt.wf(),
            plain@.len() == ks@.len(),
            idx + 12 <= ks@.len(),
        ks@.len() <= usize::MAX,
            zs@.len() == 12,
            ms@.len() == 12,
            xs@.len() == 12,
            1 <= j <= 11,
            b <= 256,
        decreases 256 - b,
    {
        let zp = crc.crc32inv(zj, b as u8);
        if kst.get_byte(zp) == ks[idx + j - 1] {
            zs.set(j - 1, zp);
            ms.set(j, b as u8);
            let r = if j == 1 {
                search_y(crc, kst, mt, plain, ks, idx, zs, ms, xs)
            } else {
                search_z(crc, kst, mt, plain, ks, idx, zs, ms, xs, j - 1)
            };
            if r.is_some() {
                return r;
            }
        }
        b = b + 1;
    }
    None
}

/// Enumerates the middle bytes of the Y register at the end of the window
/// and preselects its low byte through the fiber table; each candidate is
/// filtered against the recovered high bytes one step at a time.
fn search_y(
    crc: &Crc32Tab,
    kst: &KeystreamTab,
    mt: &MultTab,
    plain: &Vec<u8>,
    ks: &Vec<u8>,
    idx: usize,
    zs: &mut Vec<u32>,
    ms: &mut Vec<u8>,
    xs: &mut Vec<u32>,
) -> (r: Option<Keys>)
    requires
        crc.wf(),
        kst.wf(),
        mt.wf(),
        plain@.len() == ks@.len(),
        idx + 12 <= ks@.len(),
        ks@.len() <= usize::MAX,
        old(zs)@.len() == 12,
        old(ms)@.len() == 12,
        old(xs)@.len() == 12,
    ensures
        final(zs)@.len() == 12,
        final(ms)@.len() == 12,
        final(xs)@.len() == 12,
        r matches Some(k) ==> forward_emits(k, plain@, ks@),
{
    let m11: u32 = ms[11] as u32;
    let m10: u32 = ms[10] as u32;
    let mut mid: u32 = 0;
    while mid < 0x10000
        invariant
            crc.wf(),
            kst.wf(),
            mt.wf(),
            plain@.len() == ks@.len(),
            idx + 12 <= ks@.len(),
        ks@.len() <= usize::MAX,
            zs@.len() == 12,
            ms@.len() == 12,
            xs@.len() == 12,
            mid <= 0x10000,
        decreases 0x10000 - mid,
    {
        let base: u32 = (m11 << 24) | (mid << 8);
        let prodbase: u32 = base.wrapping_sub(1).wrapping_mul(MULT_INV);
        let dm: u32 = m10.wrapping_sub(prodbase >> 24) & 0xff;
        assert(m10.wrapping_sub(prodbase >> 24) & 0xff < 256) by (bit_vector);
        let fib = mt.get_msb_prod_fiber(dm as u8);
        let mut jf: usize = 0;
        while jf < fib.len()
            invariant
                crc.wf(),
                kst.wf(),
                mt.wf(),
                plain@.len() == ks@.len(),
                idx + 12 <= ks@.len(),
        ks@.len() <= usize::MAX,
                zs@.len() == 12,
                ms@.len() == 12,
                xs@.len() == 12,
                jf <= fib@.len(),
            decreases fib@.len() - jf,
        {
            let low = fib[jf];
            let y11: u32 = base | low;
            let r = search_y_level(crc, kst, mt, plain, ks, idx, zs, ms, xs, 11, y11, y11);
            if r.is_some() {
                return r;
            }
            jf = jf + 1;
        }
        mid = mid + 1;
    }
    None
}

/// One backward Y step: the low byte of the X register there is bounded,
/// so only a small range of subtractions can land on the recovered high
/// byte of the previous Y.
fn search_y_level(
    crc: &Crc32Tab,
    kst: &KeystreamTab,
    mt: &MultTab,
    plain: &Vec<u8>,
    ks: &Vec<u8>,
    idx: usize,
    zs: &mut Vec<u32>,
    ms: &mut Vec<u8>,
    xs: &mut Vec<u32>,
    j: usize,
    yj: u32,
    y11: u32,
) -> (r: Option<Keys>)
    requires
        crc.wf(),
        kst.wf(),
        mt.wf(),
        plain@.len() == ks@.len(),
        idx + 12 <= ks@.len(),
        ks@.len() <= usize::MAX,
        old(zs)@.len() == 12,
        old(ms)@.len() == 12,
        old(xs)@.len() == 12,
        4 <= j <= 11,
    ensures
        final(zs)@.len() == 12,
        final(ms)@.len() == 12,
        final(xs)@.len() == 12,
        r matches Some(k) ==> forward_emits(k, plain@, ks@),
    decreases j,
{
    let fy: u32 = yj.wrapping_sub(1).wrapping_mul(MULT_INV);
    let mj1: u32 = ms[j - 1] as u32;
    let d: u32 = fy.wrapping_sub(mj1 << 24);
    let lo: u32;
    let hi: u32;
    if d <= 255 {
        lo = 0;
        hi = d;
    } else if d < 0x100_0000 {
        lo = 0;
        hi = 255;
    } else if d <= 0x100_0000 + 254 {
        lo = d - 0x100_0000 + 1;
        hi = 255;
    } else {
        return None;
    }
    // preselect the low byte of X there through the fiber of the next
    // backward product: only a handful of bytes can reach the high byte
    // recovered two steps down
    let ffy: u32 = fy.wrapping_sub(1).wrapping_mul(MULT_INV);
    let mj2: u32 = ms[j - 2] as u32;
    let dm2: u32 = (ffy >> 24).wrapping_sub(mj2).wrapping_sub(1) & 0xff;
    assert((ffy >> 24).wrapping_sub(mj2).wrapping_sub(1) & 0xff < 256) by (bit_vector);
    let fib = mt.get_msb_prod_fiber(dm2 as u8);
    let mut jx: usize = 0;
    while jx < fib.len()
        invariant
            crc.wf(),
            kst.wf(),
            mt.wf(),
            plain@.len() == ks@.len(),
            idx + 12 <= ks@.len(),
            ks@.len() <= usize::MAX,
            zs@.len() == 12,
            ms@.len() == 12,
            xs@.len() == 12,
            4 <= j <= 11,
            hi <= 255,
            jx <= fib@.len(),
        decreases fib@.len() - jx,
    {
        let x: u32 = fib[jx];
        if x < lo || x > hi {
            jx = jx + 1;
            continue ;
        }
        let yjm1: u32 = fy.wrapping_sub(x);
        if yjm1 >> 24 == mj1 {
            xs.set(j, x);
            let r = if j == 4 {
                search_x(crc, kst, plain, ks, idx, zs, xs, y11)
            } else {
                search_y_level(crc, kst, mt, plain, ks, idx, zs, ms, xs, j - 1, yjm1, y11)
            };
            if r.is_some() {
                return r;
            }
        }
        jx = jx + 1;
    }
    None
}

/// Rebuilds the X register from its recovered low bytes: four patched
/// forward CRC steps pin it exactly, and the remaining low bytes serve as
/// independent checks. A surviving state is accepted only after the full
/// forward verification, stepped back to the start of the known plaintext.
fn search_x(
    crc: &Crc32Tab,
    kst: &KeystreamTab,
    plain: &Vec<u8>,
    ks: &Vec<u8>,
    idx: usize,
    zs: &mut Vec<u32>,
    xs: &mut Vec<u32>,
    y11: u32,
) -> (r: Option<Keys>)
    requires
        crc.wf(),
        kst.wf(),
        plain@.len() == ks@.len(),
        idx + 12 <= ks@.len(),
        ks@.len() <= usize::MAX,
        old(zs)@.len() == 12,
        old(xs)@.len() == 12,
    ensures
        final(zs)@.len() == 12,
        final(xs)@.len() == 12,
        r matches Some(k) ==> forward_emits(k, plain@, ks@),
{
    let mut xv: u32 = xs[4] & 0xff;
    let mut t: usize = 0;
    while t < 4
        invariant
            crc.wf(),
            zs@.len() == 12,
            xs@.len() == 12,
            idx + 12 <= plain@.len(),
            plain@.len() <= usize::MAX,
            t <= 4,
        decreases 4 - t,
    {
        xv = crc.crc32(xv, plain[idx + 4 + t]);
        xv = (xv & 0xFFFF_FF00) | (xs[5 + t] & 0xff);
        t = t + 1;
    }
    let mut t: usize = 0;
    while t < 3
        invariant
            crc.wf(),
            zs@.len() == 12,
            xs@.len() == 12,
            idx + 12 <= plain@.len(),
            plain@.len() <= usize::MAX,
            t <= 3,
        decreases 3 - t,
    {
        xv = crc.crc32(xv, plain[idx + 8 + t]);
        if xv & 0xff != xs[9 + t] & 0xff {
            return None;
        }
        t = t + 1;
    }
    let cand = Keys { x: xv, y: y11, z: zs[11] };
    // step back to the start of the known plaintext
    let mut s = cand;
    let mut t: usize = idx + 11;
    while t > 0
        invariant
            crc.wf(),
            t <= plain@.len(),
        decreases t,
    {
        s = backward_plain(crc, s, plain[t - 1]);
        t = t - 1;
    }
    if verify_forward(crc, kst, s, plain, ks) {
        Some(s)
    } else {
        None
    }
}

} // verus!
