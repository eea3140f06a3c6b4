//! Recovery of the three 32-bit internal keys of the legacy ZIP stream
//! cipher from a known-plaintext pair, and decryption with the recovered
//! keys. The engine follows the classical Biham-Kocher attack: precomputed
//! tables invert the per-byte state update under the CRC-32 recurrence, a
//! Z-reduction pass narrows the candidate state words at a chosen stream
//! index, and a recursive attack promotes each surviving candidate into a
//! full key triple verified against the whole keystream.

use crate::attack::{forward_emits, spec_cipher_steps};
use crate::data::{spec_aligned_plain, spec_derived_keystream, spec_overlap, spec_plain_start};
use crate::keys::spec_update;
use crate::keystream_tab::spec_keystream_byte;
use vstd::prelude::*;

pub mod attack;
pub mod crc32_tab;
pub mod data;
pub mod keys;
pub mod keystream_tab;
pub mod mult_tab;
pub mod zip;
pub mod zreduction;

pub use crate::attack::Attack;
pub use crate::crc32_tab::Crc32Tab;
pub use crate::data::Data;
pub use crate::data::Error;
pub use crate::keys::Keys;
pub use crate::keystream_tab::KeystreamTab;
pub use crate::mult_tab::MultTab;
pub use crate::zreduction::Zreduction;

verus! {

/// Command-line surface of the tool, as plain data. The binary fills it
/// from the arguments; the library only reads it.
#[derive(Debug, Default)]
pub struct Arguments {
    /// File containing the ciphertext
    pub cipherfile: String,
    /// File containing the known plaintext
    pub plainfile: Option<String>,
    /// Internal password representation as three 32-bit integers (requires a deciphered file)
    pub key: Vec<u32>,
    /// Zip archive containing the cipher entry
    pub encryptedzip: Option<String>,
    /// Zip archive containing the plain entry
    pub plainzip: Option<String>,
    /// Known plaintext offset relative to ciphertext without encryption header (may be negative)
    pub offset: Option<i32>,
    /// Maximum number of bytes of plaintext to read
    pub plainsize: Option<usize>,
    /// Exhaustively try all the keys remaining after Z reduction
    pub exhaustive: bool,
    /// File to write the deciphered text
    pub decipheredfile: Option<String>,
    /// Not only decipher but also inflate
    pub unzip: bool,
}

/// Runs the whole key search: aligns the plaintext, generates and reduces
/// the Z candidates, and attacks each surviving candidate in stored order;
/// under `exhaustive` every candidate is tried and the keys of the last
/// success are kept. On success the returned keys, stepped forward through
/// the ciphertext prefix up to the known plaintext, reach a state whose
/// forward run reproduces the derived keystream exactly.
pub fn recover_keys(
    crc: &crc32_tab::Crc32Tab,
    kst: &keystream_tab::KeystreamTab,
    mt: &mult_tab::MultTab,
    plain: Vec<u8>,
    cipher: Vec<u8>,
    offset: i32,
    exhaustive: bool,
) -> (r: Result<Keys, Error>)
    requires
        crc.wf(),
        kst.wf(),
        mt.wf(),
        plain@.len() < 0x8000_0000_0000_0000,
        cipher@.len() < 0x8000_0000_0000_0000,
    ensures
        r matches Err(e) ==> (e is InputTooShort || e is KeysNotFound),
        (r matches Err(e) && e is InputTooShort) <==> spec_overlap(
            plain@.len() as int,
            cipher@.len() as int,
            offset as int,
        ) < 12,
        r matches Ok(k) ==> exists|s: Keys|
            #[trigger] forward_emits(
                s,
                spec_aligned_plain(plain@, cipher@, offset as int),
                spec_derived_keystream(plain@, cipher@, offset as int),
            ) && s == spec_cipher_steps(
                k,
                cipher@,
                0,
                12 + offset + spec_plain_start(offset as int),
            ),
{
    let ghost p0 = plain@;
    let ghost c0 = cipher@;
    let data = match Data::new(plain, cipher, offset) {
        Ok(d) => d,
        Err(e) => {
            return Err(e);
        },
    };
    let mut zr = Zreduction::new(&data.keystream);
    zr.generate(kst);
    zr.reduce(crc, kst);
    let index = zr.get_index();
    let mut attack = Attack::new(&data, index - 11);
    let cands = zr.get_zi_2_32_vector();
    let mut found = false;
    let mut ci: usize = 0;
    while ci < cands.len()
        invariant
            crc.wf(),
            kst.wf(),
            mt.wf(),
            attack.wf(),
            ci <= cands@.len(),
            attack.spec_plaintext() == spec_aligned_plain(p0, c0, offset as int),
            attack.spec_keystream() == spec_derived_keystream(p0, c0, offset as int),
            attack.spec_ciphertext() == c0,
            attack.spec_cipher_start() == 12 + offset + spec_plain_start(offset as int),
            found ==> attack.spec_found() && forward_emits(
                attack.spec_state0(),
                attack.spec_plaintext(),
                attack.spec_keystream(),
            ) && attack.spec_state0() == spec_cipher_steps(
                attack.spec_keys(),
                attack.spec_ciphertext(),
                0,
                attack.spec_cipher_start(),
            ),
        decreases cands@.len() - ci,
    {
        let c = cands[ci];
        if attack.carry_out(crc, kst, mt, c) {
            found = true;
            if !exhaustive {
                break ;
            }
        }
        ci = ci + 1;
    }
    if found {
        let k = attack.get_keys();
        proof {
            let s = attack.spec_state0();
            assert(forward_emits(
                s,
                spec_aligned_plain(p0, c0, offset as int),
                spec_derived_keystream(p0, c0, offset as int),
            ));
        }
        Ok(k)
    } else {
        Err(Error::KeysNotFound)
    }
}

/// The state after deciphering `n` leading bytes of the ciphertext:
/// each step XORs the keystream byte into the ciphertext byte and absorbs
/// the recovered plaintext byte.
pub open spec fn spec_decipher_state(s: keys::Keys, c: Seq<u8>, n: int) -> keys::Keys
    decreases n,
{
    if n <= 0 {
        s
    } else {
        let sp = spec_decipher_state(s, c, n - 1);
        spec_update(sp, c[n - 1] ^ spec_keystream_byte(sp.z))
    }
}

/// Decrypts a whole encrypted entry: the 12-byte encryption header is
/// consumed and discarded, and every later byte is XOR-ed with the
/// keystream byte of the state reached at that position.
pub fn decipher_bytes(
    crc: &crc32_tab::Crc32Tab,
    kst: &keystream_tab::KeystreamTab,
    keys: &mut keys::Keys,
    cipher: &Vec<u8>,
) -> (r: Vec<u8>)
    requires
        crc.wf(),
        kst.wf(),
        cipher@.len() >= 12,
    ensures
        r@.len() == cipher@.len() - 12,
        forall|i: int|
            0 <= i < r@.len() ==> #[trigger] r@[i] == cipher@[12 + i] ^ spec_keystream_byte(
                spec_decipher_state(*old(keys), cipher@, 12 + i).z,
            ),
        *final(keys) == spec_decipher_state(*old(keys), cipher@, cipher@.len() as int),
{
    let mut out: Vec<u8> = Vec::new();
    let mut i: usize = 0;
    let n = cipher.len();
    while i < n
        invariant
            crc.wf(),
            kst.wf(),
            i <= n,
            n == cipher@.len(),
            n >= 12,
            *keys == spec_decipher_state(*old(keys), cipher@, i as int),
            out@.len() == (if i <= 12 {
                0int
            } else {
                i - 12
            }),
            forall|j: int|
                0 <= j < out@.len() ==> #[trigger] out@[j] == cipher@[12 + j]
                    ^ spec_keystream_byte(spec_decipher_state(*old(keys), cipher@, 12 + j).z),
        decreases n - i,
    {
        let p: u8 = cipher[i] ^ kst.get_byte(keys.get_z());
        if i >= 12 {
            out.push(p);
        }
        keys.update(crc, p);
        i = i + 1;
    }
    out
}

} // verus!
