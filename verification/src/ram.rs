use crate::storage_io::{device_wf, is_block_size, StorageIo};
use vstd::prelude::*;
use vstd::slice::{slice_subrange, slice_to_vec};

verus! {

/// A block device held in memory.
///
/// It can be write-protected, and its sectors from some index on can be
/// marked as bad; a write to a protected disk fails, and so does any
/// transfer of a bad sector.
pub struct RamDisk {
    sectors: Vec<Vec<u8>>,
    block_size: u32,
    read_only: bool,
    bad_from: u32,
}

/// The sectors that a flat image of `image.len() / size` sectors holds.
pub open spec fn spec_sectors(image: Seq<u8>, size: int) -> Seq<Seq<u8>> {
    Seq::new((image.len() as int / size) as nat, |i: int| image.subrange(i * size, (i + 1) * size))
}

impl RamDisk {
    #[verifier::type_invariant]
    spec fn inv(self) -> bool {
        &&& is_block_size(self.block_size as int)
        &&& self.sectors@.len() <= u32::MAX
        &&& forall|i: int|
            0 <= i < self.sectors@.len() ==> (#[trigger] self.sectors@[i])@.len() == self.block_size
    }

    /// Writes to the disk fail.
    pub closed spec fn is_read_only(&self) -> bool {
        self.read_only
    }

    /// The index of the first bad sector; every sector from there on is
    /// bad.
    pub closed spec fn first_bad(&self) -> u32 {
        self.bad_from
    }

    /// A disk of `block_count` sectors of zeros, or `None` if `block_size`
    /// is no legal sector size.
    pub fn new(block_size: u32, block_count: u32) -> (r: Option<Self>)
        ensures
            r is Some <==> is_block_size(block_size as int),
            r matches Some(d) ==> {
                &&& device_wf(&d)
                &&& d.spec_block_size() == block_size
                &&& d.blocks().len() == block_count
                &&& forall|i: int, j: int|
                    0 <= i < block_count && 0 <= j < block_size ==> d.blocks()[i][j] == 0
                &&& !d.is_read_only()
                &&& d.first_bad() == u32::MAX
            },
    {
        if !(block_size == 512 || block_size == 1024 || block_size == 2048 || block_size == 4096) {
            return None;
        }
        let mut sectors: Vec<Vec<u8>> = Vec::new();
        let mut i: u32 = 0;
        while i < block_count
            invariant
                i <= block_count,
                sectors@.len() == i,
                forall|k: int|
                    0 <= k < i ==> (#[trigger] sectors@[k])@.len() == block_size && forall|j: int|
                        0 <= j < block_size ==> sectors@[k]@[j] == 0,
            decreases block_count - i,
        {
            sectors.push(vec![0u8; block_size as usize]);
            i += 1;
        }
        Some(RamDisk { sectors, block_size, read_only: false, bad_from: 0xFFFF_FFFF })
    }

    /// A disk that holds the bytes of `image`, cut into sectors; `None`
    /// if `block_size` is no legal sector size, if the image is no whole
    /// number of sectors, or if it has more sectors than 32 bits count.
    pub fn from_bytes(image: &[u8], block_size: u32) -> (r: Option<Self>)
        ensures
            r is Some <==> is_block_size(block_size as int) && (image@.len() as int) % (
            block_size as int) == 0 && (image@.len() as int) / (block_size as int) <= u32::MAX,
            r matches Some(d) ==> {
                &&& device_wf(&d)
                &&& d.spec_block_size() == block_size
                &&& d.blocks() == spec_sectors(image@, block_size as int)
                &&& !d.is_read_only()
                &&& d.first_bad() == u32::MAX
            },
    {
        if !(block_size == 512 || block_size == 1024 || block_size == 2048 || block_size == 4096) {
            return None;
        }
        let size = block_size as usize;
        if image.len() % size != 0 || image.len() / size > 0xFFFF_FFFF {
            return None;
        }
        let count = image.len() / size;
        let mut sectors: Vec<Vec<u8>> = Vec::new();
        let mut i: usize = 0;
        while i < count
            invariant
                i <= count,
                size == block_size,
                is_block_size(size as int),
                count == (image@.len() as int) / (size as int),
                image@.len() == image.len(),
                (image@.len() as int) % (size as int) == 0,
                sectors@.len() == i,
                forall|k: int|
                    0 <= k < i ==> (#[trigger] sectors@[k])@ == image@.subrange(
                        k * size,
                        (k + 1) * size,
                    ),
            decreases count - i,
        {
            proof {
                lemma_sector_bounds(image@.len() as int, size as int, i as int);
                assert((i + 1) * size <= image@.len());
                assert(i * size <= (i + 1) * size);
            }
            sectors.push(slice_to_vec(slice_subrange(image, i * size, (i + 1) * size)));
            i += 1;
        }
        proof {
            assert forall|k: int| 0 <= k < sectors@.len() implies (#[trigger] sectors@[k])@.len()
                == block_size by {
                lemma_sector_bounds(image@.len() as int, size as int, k);
            }
        }
        let d = RamDisk { sectors, block_size, read_only: false, bad_from: 0xFFFF_FFFF };
        assert(d.blocks() =~= spec_sectors(image@, block_size as int));
        Some(d)
    }

    /// The number of sectors.
    pub fn len(&self) -> (r: u32)
        ensures
            r == self.blocks().len(),
    {
        proof {
            use_type_invariant(self);
        }
        self.sectors.len() as u32
    }

    /// The bytes of sector `block`, if the disk has such a sector.
    pub fn sector(&self, block: u32) -> (r: Option<&[u8]>)
        ensures
            r is Some <==> block < self.blocks().len(),
            r matches Some(s) ==> s@ == self.blocks()[block as int],
    {
        if (block as usize) < self.sectors.len() {
            Some(self.sectors[block as usize].as_slice())
        } else {
            None
        }
    }

    /// Protects the disk against writes, or lifts the protection.
    pub fn set_read_only(&mut self, read_only: bool)
        ensures
            final(self).is_read_only() == read_only,
            final(self).first_bad() == old(self).first_bad(),
            final(self).blocks() == old(self).blocks(),
            final(self).spec_block_size() == old(self).spec_block_size(),
    {
        proof {
            use_type_invariant(&*self);
        }
        self.read_only = read_only;
    }

    /// Marks the sectors from `first` on as bad.
    pub fn set_first_bad(&mut self, first: u32)
        ensures
            final(self).first_bad() == first,
            final(self).is_read_only() == old(self).is_read_only(),
            final(self).blocks() == old(self).blocks(),
            final(self).spec_block_size() == old(self).spec_block_size(),
    {
        proof {
            use_type_invariant(&*self);
        }
        self.bad_from = first;
    }
}

/// Sector `k` of an image that is a whole number of sectors lies in the
/// image.
proof fn lemma_sector_bounds(len: int, size: int, k: int)
    requires
        size > 0,
        len >= 0,
        len % size == 0,
        0 <= k < len / size,
    ensures
        0 <= k * size,
        (k + 1) * size <= len,
        (k + 1) * size - k * size == size,
{
    vstd::arithmetic::div_mod::lemma_fundamental_div_mod(len, size);
    let q = len / size;
    assert(k * size >= 0) by (nonlinear_arith)
        requires
            k >= 0,
            size > 0,
    ;
    assert((k + 1) * size <= q * size) by (nonlinear_arith)
        requires
            k + 1 <= q,
            size > 0,
    ;
    assert(q * size == size * q) by (nonlinear_arith);
    assert((k + 1) * size == k * size + size) by (nonlinear_arith);
}

impl StorageIo for RamDisk {
    closed spec fn blocks(&self) -> Seq<Seq<u8>> {
        Seq::new(self.sectors@.len(), |i: int| self.sectors@[i]@)
    }

    closed spec fn spec_block_size(&self) -> nat {
        self.block_size as nat
    }

    fn block_size(&self) -> (r: u32) {
        self.block_size
    }

    fn block_count(&self) -> (r: u32) {
        proof {
            use_type_invariant(self);
        }
        self.sectors.len() as u32
    }

    fn read(&self, block: u32, data: &mut [u8]) -> (r: Result<(), bool>)
        ensures
            r is Ok <==> block < self.first_bad(),
    {
        proof {
            use_type_invariant(self);
        }
        if block >= self.bad_from {
            return Err(false);
        }
        let sector = &self.sectors[block as usize];
        let n = data.len();
        let mut i: usize = 0;
        while i < n
            invariant
                i <= n,
                n == data@.len(),
                n == sector@.len(),
                forall|j: int| 0 <= j < i ==> data@[j] == sector@[j],
            decreases n - i,
        {
            data[i] = sector[i];
            i += 1;
        }
        assert(data@ =~= self.blocks()[block as int]);
        Ok(())
    }

    fn write(&mut self, block: u32, data: &[u8]) -> (r: Result<(), bool>)
        ensures
            r is Ok <==> block < old(self).first_bad() && !old(self).is_read_only(),
            r is Err ==> final(self).blocks() == old(self).blocks(),
            final(self).first_bad() == old(self).first_bad(),
            final(self).is_read_only() == old(self).is_read_only(),
    {
        proof {
            use_type_invariant(&*self);
        }
        if self.read_only || block >= self.bad_from {
            return Err(false);
        }
        let mut sectors: Vec<Vec<u8>> = Vec::new();
        core::mem::swap(&mut self.sectors, &mut sectors);
        sectors[block as usize] = slice_to_vec(data);
        core::mem::swap(&mut self.sectors, &mut sectors);
        assert(self.blocks() =~= old(self).blocks().update(block as int, data@));
        Ok(())
    }
}

} // verus!
