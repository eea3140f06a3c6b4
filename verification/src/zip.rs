//! ZIP local-file-header walk: locate a named entry and hand back its
//! compressed bytes. Only local headers are read, as the tool's archive
//! handling asks: no central directory, no ZIP64.

use crate::data::Error;
use vstd::prelude::*;

verus! {

/// Little-endian 16-bit field at offset `i`.
pub open spec fn spec_le16(b: Seq<u8>, i: int) -> int {
    b[i] + 256 * b[i + 1]
}

/// Little-endian 32-bit field at offset `i`.
pub open spec fn spec_le32(b: Seq<u8>, i: int) -> int {
    b[i] + 256 * b[i + 1] + 0x1_0000 * b[i + 2] + 0x100_0000 * b[i + 3]
}

/// A well-formed local file header for the named entry sits at `pos`, and
/// its data region lies inside the buffer.
pub open spec fn header_at(b: Seq<u8>, pos: int, name: Seq<u8>) -> bool {
    &&& 0 <= pos
    &&& pos + 30 <= b.len()
    &&& spec_le32(b, pos) == 0x0403_4b50
    &&& pos + 30 + spec_le16(b, pos + 26) <= b.len()
    &&& name == b.subrange(pos + 30, pos + 30 + spec_le16(b, pos + 26))
    &&& pos + 30 + spec_le16(b, pos + 26) + spec_le16(b, pos + 28) + spec_le32(b, pos + 18)
        <= b.len()
}

/// The compressed bytes of the header at `pos`.
pub open spec fn entry_data_at(b: Seq<u8>, pos: int) -> Seq<u8> {
    let ds = pos + 30 + spec_le16(b, pos + 26) + spec_le16(b, pos + 28);
    b.subrange(ds, ds + spec_le32(b, pos + 18))
}

fn read_le16(b: &Vec<u8>, i: usize) -> (r: u64)
    requires
        i + 2 <= b@.len(),
        b@.len() <= usize::MAX,
    ensures
        r == spec_le16(b@, i as int),
{
    (b[i] as u64) + 256 * (b[i + 1] as u64)
}

fn read_le32(b: &Vec<u8>, i: usize) -> (r: u64)
    requires
        i + 4 <= b@.len(),
        b@.len() <= usize::MAX,
    ensures
        r == spec_le32(b@, i as int),
{
    (b[i] as u64) + 256 * (b[i + 1] as u64) + 0x1_0000 * (b[i + 2] as u64) + 0x100_0000 * (b[i
        + 3] as u64)
}

/// Walks the local file headers of an archive and returns the compressed
/// bytes of the entry with the given name. A successful result always
/// comes from a well-formed header whose name matches.
pub fn zip_entry_data(bytes: &Vec<u8>, name: &Vec<u8>) -> (r: Result<Vec<u8>, Error>)
    ensures
        r matches Ok(v) ==> exists|pos: int|
            #[trigger] header_at(bytes@, pos, name@) && v@ == entry_data_at(bytes@, pos),
        r matches Err(e) ==> (e is ArchiveMalformed || e is EntryNotFound),
{
    let n: usize = bytes.len();
    let mut pos: usize = 0;
    loop
        invariant
            pos <= n,
            n == bytes@.len(),
        decreases n - pos,
    {
        if n < 30 || pos > n - 30 {
            return Err(Error::EntryNotFound);
        }
        let sig = read_le32(bytes, pos);
        if sig != 0x0403_4b50 {
            if pos == 0 {
                return Err(Error::ArchiveMalformed);
            }
            return Err(Error::EntryNotFound);
        }
        let compressed: u128 = read_le32(bytes, pos + 18) as u128;
        let name_len: u128 = read_le16(bytes, pos + 26) as u128;
        let extra_len: u128 = read_le16(bytes, pos + 28) as u128;
        let name_end: u128 = (pos as u128) + 30 + name_len;
        if name_end > (n as u128) {
            return Err(Error::ArchiveMalformed);
        }
        let data_start: u128 = name_end + extra_len;
        let data_end: u128 = data_start + compressed;
        if data_end > (n as u128) {
            return Err(Error::ArchiveMalformed);
        }
        let nl: usize = name_len as usize;
        let mut matched = name.len() == nl;
        let mut q: usize = 0;
        while matched && q < nl
            invariant
                n == bytes@.len(),
                pos + 30 + nl <= n,
                nl == spec_le16(bytes@, pos + 26),
                q <= nl,
                matched ==> name@.len() == nl && (forall|t: int|
                    0 <= t < q ==> name@[t] == bytes@[pos + 30 + t]),
            decreases nl - q + (if matched {
                1int
            } else {
                0int
            }),
        {
            if name[q] != bytes[pos + 30 + q] {
                matched = false;
            } else {
                q = q + 1;
            }
        }
        if matched {
            let ds: usize = data_start as usize;
            let de: usize = data_end as usize;
            let mut v: Vec<u8> = Vec::new();
            let mut t: usize = ds;
            while t < de
                invariant
                    ds <= t <= de,
                    de <= bytes@.len(),
                    v@ == bytes@.subrange(ds as int, t as int),
                decreases de - t,
            {
                v.push(bytes[t]);
                proof {
                    assert(v@ =~= bytes@.subrange(ds as int, t + 1));
                }
                t = t + 1;
            }
            proof {
                assert(name@ =~= bytes@.subrange(
                    pos + 30,
                    pos + 30 + spec_le16(bytes@, pos as int + 26),
                ));
                assert(header_at(bytes@, pos as int, name@));
                assert(v@ =~= entry_data_at(bytes@, pos as int));
            }
            return Ok(v);
        }
        let next: u128 = data_end;
        if next <= pos as u128 {
            return Err(Error::ArchiveMalformed);
        }
        pos = next as usize;
    }
}

} // verus!
