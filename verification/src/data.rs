//! Preparation of the keystream: XOR of the known plaintext against the
//! aligned ciphertext region, after the 12-byte encryption header.

use vstd::prelude::*;

verus! {

/// Length of the encryption header that precedes each encrypted entry.
pub const HEADER_SIZE: usize = 12;

/// The ways preparing or attacking the data can fail.
#[derive(Debug, Clone, Copy, PartialEq, Eq, Structural)]
pub enum Error {
    /// Fewer than 12 bytes of plaintext overlap the ciphertext payload.
    InputTooShort,
    /// A ZIP local file header could not be read.
    ArchiveMalformed,
    /// The requested entry is not in the archive.
    EntryNotFound,
    /// The search exhausted every candidate without a consistent key triple.
    KeysNotFound,
    /// An underlying file operation failed.
    IoError,
}

/// Index of the first plaintext byte that aligns with a ciphertext byte.
pub open spec fn spec_plain_start(off: int) -> int {
    if off + 12 < 0 {
        -(off + 12)
    } else {
        0
    }
}

/// Number of plaintext bytes that align with ciphertext payload bytes.
pub open spec fn spec_overlap(pl: int, cl: int, off: int) -> int {
    let sp = spec_plain_start(off);
    let cs = 12 + off + sp;
    let a = pl - sp;
    let b = cl - cs;
    if a <= b {
        a
    } else {
        b
    }
}

/// The plaintext bytes that align with ciphertext payload bytes.
pub open spec fn spec_aligned_plain(p: Seq<u8>, c: Seq<u8>, off: int) -> Seq<u8> {
    let ov = spec_overlap(p.len() as int, c.len() as int, off);
    if ov <= 0 {
        Seq::empty()
    } else {
        Seq::new(ov as nat, |i: int| p[i + spec_plain_start(off)])
    }
}

/// The keystream: XOR of the aligned plaintext and ciphertext bytes.
pub open spec fn spec_derived_keystream(p: Seq<u8>, c: Seq<u8>, off: int) -> Seq<u8> {
    let ov = spec_overlap(p.len() as int, c.len() as int, off);
    if ov <= 0 {
        Seq::empty()
    } else {
        Seq::new(
            ov as nat,
            |i: int| p[i + spec_plain_start(off)] ^ c[12 + off + spec_plain_start(off) + i],
        )
    }
}

/// The attack's working set: the aligned plaintext, the whole ciphertext,
/// and their XOR, the keystream.
pub struct Data {
    /// Whole ciphertext, 12-byte encryption header included.
    pub ciphertext: Vec<u8>,
    /// The plaintext bytes that align with the ciphertext payload.
    pub plaintext: Vec<u8>,
    /// XOR of the aligned plaintext and ciphertext.
    pub keystream: Vec<u8>,
    /// Requested plaintext offset relative to the ciphertext payload.
    pub offset: i32,
    /// Ciphertext index that the first keystream byte aligns with.
    pub cipher_start: usize,
}

impl Data {
    pub open spec fn wf(self) -> bool {
        &&& self.keystream@.len() == self.plaintext@.len()
        &&& self.keystream@.len() >= 12
        &&& self.cipher_start + self.keystream@.len() <= self.ciphertext@.len()
        &&& forall|i: int|
            0 <= i < self.keystream@.len() ==> #[trigger] self.keystream@[i] == self.plaintext@[i]
                ^ self.ciphertext@[self.cipher_start + i]
    }

    /// Aligns the plaintext against the ciphertext payload at the given
    /// offset and XORs the overlap into a keystream. Fails exactly when
    /// fewer than 12 bytes overlap.
    pub fn new(plaintext: Vec<u8>, ciphertext: Vec<u8>, offset: i32) -> (r: Result<Data, Error>)
        requires
            plaintext@.len() < 0x8000_0000_0000_0000,
            ciphertext@.len() < 0x8000_0000_0000_0000,
        ensures
            r is Ok <==> spec_overlap(
                plaintext@.len() as int,
                ciphertext@.len() as int,
                offset as int,
            ) >= 12,
            r matches Ok(d) ==> d.wf() && d.ciphertext@ == ciphertext@ && d.offset == offset
                && d.cipher_start == 12 + offset + spec_plain_start(offset as int)
                && d.keystream@.len() == spec_overlap(
                plaintext@.len() as int,
                ciphertext@.len() as int,
                offset as int,
            ) && (forall|i: int|
                0 <= i < d.keystream@.len() ==> d.plaintext@[i] == plaintext@[i + spec_plain_start(
                    offset as int,
                )]) && d.plaintext@ == spec_aligned_plain(plaintext@, ciphertext@, offset as int)
                && d.keystream@ == spec_derived_keystream(plaintext@, ciphertext@, offset as int),
            r matches Err(e) ==> e is InputTooShort,
    {
        let pl_exec: usize = plaintext.len();
        let cl_exec: usize = ciphertext.len();
        assert(plaintext@.len() == pl_exec && ciphertext@.len() == cl_exec);
        assert(plaintext@.len() <= usize::MAX && ciphertext@.len() <= usize::MAX);
        let off: i64 = offset as i64;
        let sp: i64 = if off + 12 < 0 {
            -(off + 12)
        } else {
            0
        };
        let cs: i64 = 12 + off + sp;
        let a: i64 = (plaintext.len() as i64) - sp;
        let b: i64 = (ciphertext.len() as i64) - cs;
        let ov: i64 = if a <= b {
            a
        } else {
            b
        };
        if ov < 12 {
            return Err(Error::InputTooShort);
        }
        proof {
            assert(0 <= sp);
            assert(cs == 12 + off + sp && 0 <= cs);
            assert(sp + ov <= plaintext@.len());
            assert(cs + ov <= ciphertext@.len());
        }
        let start: usize = sp as usize;
        let cstart: usize = cs as usize;
        let n: usize = ov as usize;
        assert(start + n <= plaintext@.len());
        assert(cstart + n <= ciphertext@.len());
        let mut plain: Vec<u8> = Vec::new();
        let mut keystream: Vec<u8> = Vec::new();
        let mut i: usize = 0;
        while i < n
            invariant
                i <= n,
                start + n <= plaintext@.len(),
                cstart + n <= ciphertext@.len(),
                plaintext@.len() <= usize::MAX,
                ciphertext@.len() <= usize::MAX,
                plain@.len() == i,
                keystream@.len() == i,
                forall|j: int| 0 <= j < i ==> #[trigger] plain@[j] == plaintext@[start + j],
                forall|j: int|
                    0 <= j < i ==> #[trigger] keystream@[j] == plaintext@[start + j]
                        ^ ciphertext@[cstart + j],
            decreases n - i,
        {
            assert(start + i < plaintext@.len());
            assert(cstart + i < ciphertext@.len());
            let p = plaintext[start + i];
            let c = ciphertext[cstart + i];
            plain.push(p);
            keystream.push(p ^ c);
            i = i + 1;
        }
        proof {
            assert(plain@ =~= spec_aligned_plain(plaintext@, ciphertext@, offset as int));
            assert(keystream@ =~= spec_derived_keystream(plaintext@, ciphertext@, offset as int));
        }
        Ok(Data { ciphertext, plaintext: plain, keystream, offset, cipher_start: cstart })
    }
}

} // verus!
