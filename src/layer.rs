use crate::endian::{le_bytes, le_u32, lemma_le_round_trip, read_le_u32, write_le_u32};
use vstd::prelude::*;

verus! {

/// Bytes in one sector.
pub const SECTOR_SIZE: usize = 512;

/// Bytes in one sector, as a file offset.
pub const SECTOR_SIZE_64: u64 = 512;

/// The offset recorded for a sector that has never been written.
pub const NO_VALUE: u32 = 0xffff_ffff;

/// `NO_VALUE` as a file offset.
pub const NO_VALUE_64: u64 = 0xffff_ffff;

/// A store of fixed-size sectors addressed by number.
pub trait Layer {
    /// The content of each sector, by sector number. Verified callers know of
    /// it only what the contracts of `read` and `write` say; the body here is
    /// a placeholder for implementations written outside verified code.
    closed spec fn contents(&self) -> Seq<Seq<u8>> {
        Seq::empty()
    }

    /// Fills `buffer` with the content of `sector`.
    fn read(&mut self, sector: u32, buffer: &mut [u8; SECTOR_SIZE])
        requires
            sector < old(self).contents().len(),
        ensures
            final(self).contents() == old(self).contents(),
            final(buffer)@ == old(self).contents()[sector as int],
    ;

    /// Stores `buffer` as the content of `sector`.
    fn write(&mut self, sector: u32, buffer: &[u8; SECTOR_SIZE])
        requires
            sector < old(self).contents().len(),
        ensures
            final(self).contents() == old(self).contents().update(sector as int, buffer@),
    ;

    /// Persists the index of the store.
    fn flush(&mut self)
        ensures
            final(self).contents() == old(self).contents(),
    ;
}

} // verus!

verus! {

/// Why the sector index could not be built or extended.
#[derive(Debug, Clone, Copy, PartialEq, Eq, Structural)]
pub enum LayerError {
    /// The meta file holds fewer than four bytes per sector.
    ShortMeta,
    /// The end of the blob lies at or beyond the largest offset an index entry can hold.
    BlobFull,
}

/// The file work that one sector read or write needs.
#[derive(Debug, Clone, Copy, PartialEq, Eq, Structural)]
pub struct Access {
    /// Where the sector lies in the blob.
    pub offset: u64,
    /// Whether the blob must be positioned at `offset` first.
    pub seek: bool,
}

/// The offset table of a fresh store: no sector written.
pub open spec fn fresh_offsets(n: nat) -> Seq<u32> {
    Seq::new(n, |i: int| NO_VALUE)
}

/// The on-disk form of an offset table: four little-endian bytes per entry.
pub open spec fn meta_encoding(offsets: Seq<u32>) -> Seq<u8> {
    Seq::new(4 * offsets.len(), |j: int| le_bytes(offsets[j / 4])[j % 4])
}

/// The offset table of `n` entries that a meta file starting with `bytes` holds.
pub open spec fn meta_decoding(bytes: Seq<u8>, n: nat) -> Seq<u32> {
    Seq::new(n, |i: int| le_u32(bytes.subrange(4 * i, 4 * i + 4)))
}

/// The index of a sparse sector store: the blob offset of each sector, and the
/// position of the blob file as last left by a sector access.
pub struct SectorIndex {
    offsets: Vec<u32>,
    pos: u64,
}

impl SectorIndex {
    /// The blob offset of each sector, `NO_VALUE` where none.
    pub closed spec fn offsets(&self) -> Seq<u32> {
        self.offsets@
    }

    /// The blob position as last left by a sector access.
    pub closed spec fn cursor(&self) -> u64 {
        self.pos
    }

    /// An index of `sectors` unwritten sectors, over a blob positioned at `pos`.
    pub fn new(sectors: usize, pos: u64) -> (r: Self)
        ensures
            r.offsets() == fresh_offsets(sectors as nat),
            r.cursor() == pos,
    {
        let offsets = vec![NO_VALUE; sectors];
        assert(offsets@ =~= fresh_offsets(sectors as nat));
        SectorIndex { offsets, pos }
    }

    /// The index of `sectors` sectors stored in the meta file `meta`, over a
    /// blob positioned at `pos`. Bytes past the table are ignored.
    pub fn from_meta(meta: &[u8], sectors: usize, pos: u64) -> (r: Result<Self, LayerError>)
        ensures
            r is Ok <==> meta@.len() >= 4 * sectors,
            r matches Ok(x) ==> x.offsets() == meta_decoding(meta@, sectors as nat) && x.cursor()
                == pos,
            r matches Err(e) ==> e == LayerError::ShortMeta,
    {
        let len = meta.len();
        if len / 4 < sectors {
            return Err(LayerError::ShortMeta);
        }
        let mut offsets: Vec<u32> = Vec::with_capacity(sectors);
        let mut i: usize = 0;
        while i < sectors
            invariant
                i <= sectors,
                4 * sectors <= len == meta@.len(),
                offsets@ =~= meta_decoding(meta@, i as nat),
            decreases sectors - i,
        {
            assert(4 * i + 4 <= 4 * sectors) by (nonlinear_arith)
                requires
                    i < sectors,
            ;
            let v = read_le_u32(meta, 4 * i);
            offsets.push(v);
            i = i + 1;
            assert(offsets@ =~= meta_decoding(meta@, i as nat));
        }
        Ok(SectorIndex { offsets, pos })
    }

    /// The number of sectors.
    pub fn sectors(&self) -> (r: usize)
        ensures
            r == self.offsets().len(),
    {
        self.offsets.len()
    }

    /// The blob position as last left by a sector access.
    pub fn pos(&self) -> (r: u64)
        ensures
            r == self.cursor(),
    {
        self.pos
    }

    /// The blob offset recorded for `sector`, `NO_VALUE` if it was never written.
    pub fn offset(&self, sector: u32) -> (r: u32)
        requires
            sector < self.offsets().len(),
        ensures
            r == self.offsets()[sector as int],
    {
        self.offsets[sector as usize]
    }

    /// Whether `sector` has a place in the blob.
    pub fn is_placed(&self, sector: u32) -> (r: bool)
        requires
            sector < self.offsets().len(),
        ensures
            r == (self.offsets()[sector as int] != NO_VALUE),
    {
        self.offsets[sector as usize] != NO_VALUE
    }

    /// Starts a read of `sector`. `None` when it was never written: its content
    /// is all zeros and the blob is not touched. Otherwise the access to make,
    /// seeking only where the blob is not already there; the cursor then
    /// stands past the sector.
    pub fn begin_read(&mut self, sector: u32) -> (r: Option<Access>)
        requires
            sector < old(self).offsets().len(),
        ensures
            final(self).offsets() == old(self).offsets(),
            old(self).offsets()[sector as int] == NO_VALUE ==> r is None && final(self).cursor()
                == old(self).cursor(),
            old(self).offsets()[sector as int] != NO_VALUE ==> r == Some(
                Access {
                    offset: old(self).offsets()[sector as int] as u64,
                    seek: old(self).cursor() != old(self).offsets()[sector as int] as u64,
                },
            ) && final(self).cursor() == old(self).offsets()[sector as int] + SECTOR_SIZE_64,
    {
        let offset = self.offsets[sector as usize] as u64;
        if offset == NO_VALUE_64 {
            None
        } else {
            let seek = self.pos != offset;
            self.pos = offset + SECTOR_SIZE_64;
            Some(Access { offset, seek })
        }
    }

    /// Gives the never-written `sector` its place at `end`, the current end of
    /// the blob, where the blob now stands. Fails, changing nothing, when `end`
    /// cannot be recorded as an offset.
    pub fn place(&mut self, sector: u32, end: u64) -> (r: Result<(), LayerError>)
        requires
            sector < old(self).offsets().len(),
            old(self).offsets()[sector as int] == NO_VALUE,
        ensures
            r is Ok <==> end < NO_VALUE_64,
            r is Ok ==> final(self).offsets() == old(self).offsets().update(sector as int, end as u32)
                && final(self).cursor() == end,
            r matches Err(e) ==> e == LayerError::BlobFull && *final(self) == *old(self),
    {
        if end >= NO_VALUE_64 {
            return Err(LayerError::BlobFull);
        }
        self.offsets.set(sector as usize, end as u32);
        self.pos = end;
        Ok(())
    }

    /// Starts a write of the placed `sector`: the access to make, seeking only
    /// where the blob is not already there; the cursor then stands past the
    /// sector. The sector keeps its place.
    pub fn begin_write(&mut self, sector: u32) -> (r: Access)
        requires
            sector < old(self).offsets().len(),
            old(self).offsets()[sector as int] != NO_VALUE,
        ensures
            final(self).offsets() == old(self).offsets(),
            r == (Access {
                offset: old(self).offsets()[sector as int] as u64,
                seek: old(self).cursor() != old(self).offsets()[sector as int] as u64,
            }),
            final(self).cursor() == old(self).offsets()[sector as int] + SECTOR_SIZE_64,
    {
        let offset = self.offsets[sector as usize] as u64;
        let seek = self.pos != offset;
        self.pos = offset + SECTOR_SIZE_64;
        Access { offset, seek }
    }

    /// The meta file content for this index.
    pub fn meta_bytes(&self) -> (r: Vec<u8>)
        requires
            4 * self.offsets().len() <= usize::MAX,
        ensures
            r@ == meta_encoding(self.offsets()),
            r@.len() == 4 * self.offsets().len(),
    {
        let n = self.offsets.len();
        let mut out: Vec<u8> = Vec::with_capacity(4 * n);
        let mut i: usize = 0;
        while i < n
            invariant
                n == self.offsets@.len(),
                4 * n <= usize::MAX,
                i <= n,
                out@ =~= meta_encoding(self.offsets@.subrange(0, i as int)),
            decreases n - i,
        {
            let b = write_le_u32(self.offsets[i]);
            proof {
                lemma_le_round_trip(self.offsets@[i as int]);
            }
            out.push(b[0]);
            out.push(b[1]);
            out.push(b[2]);
            out.push(b[3]);
            i = i + 1;
            proof {
                let s = self.offsets@.subrange(0, i as int);
                assert forall|j: int| 0 <= j < 4 * i implies #[trigger] out@[j] == le_bytes(
                    s[j / 4],
                )[j % 4] by {
                    if j < 4 * (i - 1) {
                        assert(j / 4 < i - 1);
                    } else {
                        assert(j / 4 == i - 1);
                    }
                }
                assert(out@ =~= meta_encoding(s));
            }
        }
        assert(self.offsets@.subrange(0, n as int) =~= self.offsets@);
        out
    }
}

} // verus!
