use vstd::prelude::*;

verus! {

/// The sector sizes a block device may report: a power of two from 512 to 4096.
pub open spec fn is_block_size(n: int) -> bool {
    n == 512 || n == 1024 || n == 2048 || n == 4096
}

/// A block device supplied by the host.
///
/// The device is modelled by `blocks()`, the bytes of each of its sectors.
/// The contracts below are what the library relies on; an implementation
/// that does not meet them voids every guarantee stated over `blocks()`.
pub trait StorageIo {
    /// The bytes the device holds, one sequence per sector.
    spec fn blocks(&self) -> Seq<Seq<u8>>;

    /// The number of bytes in one sector.
    spec fn spec_block_size(&self) -> nat;

    fn block_size(&self) -> (r: u32)
        ensures
            r == self.spec_block_size(),
    ;

    fn block_count(&self) -> (r: u32)
        ensures
            r == self.blocks().len(),
    ;

    /// Fills `data` with the bytes of sector `block`. A failed read may
    /// leave anything in `data`.
    fn read(&self, block: u32, data: &mut [u8]) -> (r: Result<(), bool>)
        requires
            block < self.blocks().len(),
            old(data)@.len() == self.spec_block_size(),
        ensures
            final(data)@.len() == old(data)@.len(),
            r is Ok ==> final(data)@ == self.blocks()[block as int],
    ;

    /// Replaces the bytes of sector `block` by `data`. A failed write
    /// touches no other sector.
    fn write(&mut self, block: u32, data: &[u8]) -> (r: Result<(), bool>)
        requires
            block < old(self).blocks().len(),
            data@.len() == old(self).spec_block_size(),
            old(self).blocks()[block as int].len() == old(self).spec_block_size(),
        ensures
            final(self).spec_block_size() == old(self).spec_block_size(),
            final(self).blocks().len() == old(self).blocks().len(),
            forall|i: int|
                0 <= i < old(self).blocks().len() && i != block ==> final(self).blocks()[i] == old(
                    self,
                ).blocks()[i],
            final(self).blocks()[block as int].len() == old(self).spec_block_size(),
            r is Ok ==> final(self).blocks()[block as int] == data@,
    ;
}

/// The device reports a legal sector size and every sector has that size.
pub open spec fn device_wf<T: StorageIo>(io: &T) -> bool {
    &&& is_block_size(io.spec_block_size() as int)
    &&& forall|i: int| 0 <= i < io.blocks().len() ==> #[trigger] io.blocks()[i].len() == io.spec_block_size()
}

} // verus!
