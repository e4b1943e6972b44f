use crate::error::Error;
use crate::storage_io::{device_wf, is_block_size, StorageIo};
use vstd::prelude::*;

verus! {

/// The value of `cached_block` while no sector is resident.
const NO_BLOCK: u32 = 0xFFFF_FFFF;

/// `s` with the bytes starting at `offset` replaced by `bytes`.
pub open spec fn splice(s: Seq<u8>, offset: int, bytes: Seq<u8>) -> Seq<u8> {
    Seq::new(
        s.len(),
        |i: int|
            if offset <= i < offset + bytes.len() {
                bytes[i - offset]
            } else {
                s[i]
            },
    )
}

/// Byte-granular reads of a sector-addressed store. The view is what the
/// store holds as its users see it, one sequence of bytes per sector.
pub trait StorageRead: View<V = Seq<Seq<u8>>> + Sized {
    spec fn wf(&self) -> bool;

    spec fn spec_block_size(&self) -> nat;

    /// Sector `block` can be served without a device transfer.
    spec fn resident(&self, block: u32) -> bool;

    /// No sector is resident.
    spec fn idle(&self) -> bool;

    /// The store holds bytes that the device has not received.
    spec fn pending(&self) -> bool;

    proof fn lemma_shape(&self)
        requires
            self.wf(),
        ensures
            is_block_size(self.spec_block_size() as int),
            self@.len() <= u32::MAX,
            forall|i: int| 0 <= i < self@.len() ==> #[trigger] self@[i].len() == self.spec_block_size(),
            forall|b: u32| self.resident(b) ==> b < self@.len() && !self.idle(),
    ;

    /// Copies `buf.len()` bytes of sector `block`, from `offset` on, into
    /// `buf`. A resident sector is always served, and the store is then
    /// left as it was; any other sector may fail with `Io`. A failed read
    /// leaves `buf` as it was and the sector not resident: after `Io`
    /// either no sector is resident, or the bytes that were pending still
    /// are. A sector that the store does not have gives `OutOfRange` and
    /// changes nothing.
    fn read(&mut self, block: u32, offset: usize, buf: &mut [u8]) -> (r: Result<(), Error>)
        requires
            old(self).wf(),
            offset + old(buf)@.len() <= old(self).spec_block_size(),
        ensures
            final(self).wf(),
            final(self)@ == old(self)@,
            final(self).spec_block_size() == old(self).spec_block_size(),
            final(buf)@.len() == old(buf)@.len(),
            match r {
                Ok(()) => {
                    &&& block < old(self)@.len()
                    &&& final(buf)@ == old(self)@[block as int].subrange(
                        offset as int,
                        offset + old(buf)@.len(),
                    )
                    &&& final(self).resident(block)
                },
                Err(e) => {
                    &&& final(buf)@ == old(buf)@
                    &&& !old(self).resident(block)
                    &&& !final(self).resident(block)
                    &&& e == if block >= old(self)@.len() {
                        Error::OutOfRange
                    } else {
                        Error::Io
                    }
                    &&& e == Error::Io ==> final(self).idle() || final(self).pending()
                },
            },
            old(self).resident(block) || block >= old(self)@.len() ==> *final(self) == *old(self),
    ;
}

/// Byte-granular writes to a sector-addressed store.
pub trait StorageWrite: StorageRead {
    /// Replaces `buf.len()` bytes of sector `block`, from `offset` on, by
    /// `buf`. A failed write changes nothing that a reader can see, and
    /// leaves the sector not resident. A sector that the store does not
    /// have gives `OutOfRange` and changes nothing at all.
    fn write(&mut self, block: u32, offset: usize, buf: &[u8]) -> (r: Result<(), Error>)
        requires
            old(self).wf(),
            offset + buf@.len() <= old(self).spec_block_size(),
        ensures
            final(self).wf(),
            final(self).spec_block_size() == old(self).spec_block_size(),
            match r {
                Ok(()) => {
                    &&& block < old(self)@.len()
                    &&& final(self)@ == old(self)@.update(
                        block as int,
                        splice(old(self)@[block as int], offset as int, buf@),
                    )
                    &&& final(self).resident(block)
                },
                Err(e) => {
                    &&& final(self)@ == old(self)@
                    &&& !old(self).resident(block)
                    &&& !final(self).resident(block)
                    &&& e == if block >= old(self)@.len() {
                        Error::OutOfRange
                    } else {
                        Error::Io
                    }
                    &&& e == Error::Io ==> final(self).idle() || final(self).pending()
                },
            },
            block >= old(self)@.len() ==> *final(self) == *old(self),
    ;

    /// Hands every pending byte to the device.
    fn flush(&mut self) -> (r: Result<(), Error>)
        requires
            old(self).wf(),
        ensures
            final(self).wf(),
            final(self)@ == old(self)@,
            final(self).spec_block_size() == old(self).spec_block_size(),
            forall|b: u32| final(self).resident(b) == old(self).resident(b),
            final(self).idle() == old(self).idle(),
            r is Err ==> r == Err::<(), Error>(Error::Io) && final(self).pending(),
    ;
}

/// Room for the bytes of one sector, of one of the four legal sizes.
enum SectorBuf {
    B512([u8; 512]),
    B1024([u8; 1024]),
    B2048([u8; 2048]),
    B4096([u8; 4096]),
}

impl View for SectorBuf {
    type V = Seq<u8>;

    closed spec fn view(&self) -> Seq<u8> {
        match self {
            SectorBuf::B512(a) => a@,
            SectorBuf::B1024(a) => a@,
            SectorBuf::B2048(a) => a@,
            SectorBuf::B4096(a) => a@,
        }
    }
}

impl SectorBuf {
    /// A buffer of `size` zero bytes.
    fn new(size: usize) -> (b: Self)
        requires
            is_block_size(size as int),
        ensures
            b@.len() == size,
    {
        if size == 512 {
            SectorBuf::B512([0u8; 512])
        } else if size == 1024 {
            SectorBuf::B1024([0u8; 1024])
        } else if size == 2048 {
            SectorBuf::B2048([0u8; 2048])
        } else {
            SectorBuf::B4096([0u8; 4096])
        }
    }

    fn get(&self, i: usize) -> (r: u8)
        requires
            i < self@.len(),
        ensures
            r == self@[i as int],
    {
        match self {
            SectorBuf::B512(a) => a[i],
            SectorBuf::B1024(a) => a[i],
            SectorBuf::B2048(a) => a[i],
            SectorBuf::B4096(a) => a[i],
        }
    }

    fn set(&mut self, i: usize, v: u8)
        requires
            i < old(self)@.len(),
        ensures
            final(self)@ == old(self)@.update(i as int, v),
    {
        match self {
            SectorBuf::B512(a) => {
                a[i] = v;
            },
            SectorBuf::B1024(a) => {
                a[i] = v;
            },
            SectorBuf::B2048(a) => {
                a[i] = v;
            },
            SectorBuf::B4096(a) => {
                a[i] = v;
            },
        }
    }

    /// Has the device fill the buffer with the bytes of sector `block`.
    fn fill<T: StorageIo>(&mut self, io: &T, block: u32) -> (r: Result<(), bool>)
        requires
            block < io.blocks().len(),
            old(self)@.len() == io.spec_block_size(),
        ensures
            final(self)@.len() == old(self)@.len(),
            r is Ok ==> final(self)@ == io.blocks()[block as int],
    {
        match self {
            SectorBuf::B512(a) => io.read(block, a),
            SectorBuf::B1024(a) => io.read(block, a),
            SectorBuf::B2048(a) => io.read(block, a),
            SectorBuf::B4096(a) => io.read(block, a),
        }
    }

    /// Has the device take the bytes of the buffer as sector `block`.
    fn send<T: StorageIo>(&self, io: &mut T, block: u32) -> (r: Result<(), bool>)
        requires
            block < old(io).blocks().len(),
            self@.len() == old(io).spec_block_size(),
            old(io).blocks()[block as int].len() == old(io).spec_block_size(),
        ensures
            final(io).spec_block_size() == old(io).spec_block_size(),
            final(io).blocks().len() == old(io).blocks().len(),
            forall|i: int|
                0 <= i < old(io).blocks().len() && i != block ==> final(io).blocks()[i] == old(
                    io,
                ).blocks()[i],
            final(io).blocks()[block as int].len() == old(io).spec_block_size(),
            r is Ok ==> final(io).blocks()[block as int] == self@,
    {
        match self {
            SectorBuf::B512(a) => io.write(block, a),
            SectorBuf::B1024(a) => io.write(block, a),
            SectorBuf::B2048(a) => io.write(block, a),
            SectorBuf::B4096(a) => io.write(block, a),
        }
    }
}

/// A cache of one sector in front of a block device.
pub struct Storage<T: StorageIo> {
    io: T,
    cached_block: u32,
    data: SectorBuf,
    block_size: usize,
    block_count: u32,
    dirty: bool,
}

impl<T: StorageIo> View for Storage<T> {
    type V = Seq<Seq<u8>>;

    /// The device's sectors, with the resident sector as the cache holds it.
    closed spec fn view(&self) -> Seq<Seq<u8>> {
        if self.cached_block != NO_BLOCK {
            self.io.blocks().update(self.cached_block as int, self.data@)
        } else {
            self.io.blocks()
        }
    }
}

impl<T: StorageIo> Storage<T> {
    /// What the device itself holds.
    pub closed spec fn device(&self) -> Seq<Seq<u8>> {
        self.io.blocks()
    }

    /// The resident sector holds bytes that the device has not received.
    pub closed spec fn is_dirty(&self) -> bool {
        self.dirty
    }

    /// The index of the resident sector, if there is one.
    pub closed spec fn cached(&self) -> Option<u32> {
        if self.cached_block != NO_BLOCK {
            Some(self.cached_block)
        } else {
            None
        }
    }

    /// At most the resident sector is pending: every other sector of the
    /// device is what readers see, and so is the resident one once the
    /// cache is clean.
    pub proof fn lemma_pending(&self)
        requires
            self.wf(),
        ensures
            self.device().len() == self@.len(),
            forall|i: int|
                0 <= i < self@.len() && self.cached() != Some(i as u32) ==> self.device()[i]
                    == self@[i],
            self.is_dirty() ==> self.cached() is Some,
            !self.is_dirty() ==> self.device() == self@,
            forall|b: u32| self.resident(b) <==> self.cached() == Some(b),
            self.idle() <==> self.cached() is None,
            self.pending() <==> self.is_dirty(),
    {
        if !self.dirty {
            assert(self.device() =~= self@);
        }
    }

    /// An empty cache in front of `io`.
    pub fn new(io: T) -> (s: Self)
        requires
            device_wf(&io),
        ensures
            s.wf(),
            s@ == io.blocks(),
            s.device() == io.blocks(),
            s.spec_block_size() == io.spec_block_size(),
            !s.is_dirty(),
            s.cached() is None,
    {
        let block_size = io.block_size() as usize;
        let block_count = io.block_count();
        Storage {
            io,
            cached_block: NO_BLOCK,
            data: SectorBuf::new(block_size),
            block_size,
            block_count,
            dirty: false,
        }
    }

    /// The sector size of the device.
    pub fn block_size(&self) -> (r: usize)
        requires
            self.wf(),
        ensures
            r == self.spec_block_size(),
    {
        self.block_size
    }

    /// The device behind the cache.
    pub fn io(&self) -> (r: &T)
        ensures
            r.blocks() == self.device(),
    {
        &self.io
    }

    /// The number of sectors of the device.
    pub fn block_count(&self) -> (r: u32)
        requires
            self.wf(),
        ensures
            r == self@.len(),
    {
        self.block_count
    }

    /// Copies `len` bytes of sector `block`, from `offset` on, into `buf`
    /// from index `at` on. It does what `read` does, for a part of a
    /// buffer.
    pub fn read_into(
        &mut self,
        block: u32,
        offset: usize,
        buf: &mut [u8],
        at: usize,
        len: usize,
    ) -> (r: Result<(), Error>)
        requires
            old(self).wf(),
            offset + len <= old(self).spec_block_size(),
            at + len <= old(buf)@.len(),
        ensures
            final(self).wf(),
            final(self)@ == old(self)@,
            final(self).spec_block_size() == old(self).spec_block_size(),
            final(buf)@.len() == old(buf)@.len(),
            match r {
                Ok(()) => {
                    &&& block < old(self)@.len()
                    &&& final(buf)@ == splice(
                        old(buf)@,
                        at as int,
                        old(self)@[block as int].subrange(offset as int, offset + len),
                    )
                    &&& final(self).resident(block)
                    &&& final(self).device() == if old(self).cached() == Some(block) {
                        old(self).device()
                    } else {
                        old(self)@
                    }
                },
                Err(e) => {
                    &&& final(buf)@ == old(buf)@
                    &&& !old(self).resident(block)
                    &&& !final(self).resident(block)
                    &&& e == if block >= old(self)@.len() {
                        Error::OutOfRange
                    } else {
                        Error::Io
                    }
                    &&& e == Error::Io ==> final(self).idle() || final(self).pending()
                },
            },
            old(self).resident(block) || block >= old(self)@.len() ==> *final(self) == *old(self),
    {
        match self.sync(block) {
            Err(e) => {
                return Err(e);
            },
            Ok(()) => {},
        }
        let mut i: usize = 0;
        while i < len
            invariant
                i <= len,
                at + len <= buf.len(),
                buf@.len() == old(buf)@.len(),
                offset + len <= self.data@.len() <= 4096,
                forall|j: int| at <= j < at + i ==> buf@[j] == self.data@[offset + j - at],
                forall|j: int|
                    0 <= j < buf@.len() && !(at <= j < at + i) ==> buf@[j] == old(buf)@[j],
            decreases len - i,
        {
            buf[at + i] = self.data.get(offset + i);
            i += 1;
        }
        assert(buf@ =~= splice(
            old(buf)@,
            at as int,
            old(self)@[block as int].subrange(offset as int, offset + len),
        ));
        Ok(())
    }

    /// Makes `block` the resident sector, writing the one it replaces back
    /// first if it is dirty. A sector that is resident already, and one
    /// that the device does not have, leave cache and device as they are.
    fn sync(&mut self, block: u32) -> (r: Result<(), Error>)
        requires
            old(self).wf(),
        ensures
            final(self).wf(),
            final(self)@ == old(self)@,
            final(self).spec_block_size() == old(self).spec_block_size(),
            match r {
                Ok(()) => {
                    &&& block < old(self)@.len()
                    &&& final(self).cached_block == block
                    &&& final(self).device() == if old(self).cached_block == block {
                        old(self).device()
                    } else {
                        old(self)@
                    }
                    &&& final(self).dirty == (old(self).cached_block == block && old(self).dirty)
                },
                Err(e) => {
                    &&& !old(self).resident(block)
                    &&& !final(self).resident(block)
                    &&& e == if block >= old(self)@.len() {
                        Error::OutOfRange
                    } else {
                        Error::Io
                    }
                    &&& e == Error::Io ==> final(self).idle() || final(self).pending()
                },
            },
            old(self).resident(block) || block >= old(self)@.len() ==> *final(self) == *old(self),
    {
        if block >= self.block_count {
            return Err(Error::OutOfRange);
        }
        if block != self.cached_block {
            match self.flush() {
                Err(e) => {
                    return Err(e);
                },
                Ok(()) => {},
            }
            self.cached_block = NO_BLOCK;
            let res = self.data.fill(&self.io, block);
            match res {
                Ok(()) => {
                    self.cached_block = block;
                    assert(self@ =~= old(self)@);
                    Ok(())
                },
                Err(_) => Err(Error::Io),
            }
        } else {
            Ok(())
        }
    }
}

impl<T: StorageIo> StorageRead for Storage<T> {
    closed spec fn wf(&self) -> bool {
        &&& device_wf(&self.io)
        &&& self.block_size == self.io.spec_block_size()
        &&& self.block_count == self.io.blocks().len()
        &&& self.data@.len() == self.block_size
        &&& (self.cached_block == NO_BLOCK || self.cached_block < self.block_count)
        &&& (self.dirty ==> self.cached_block != NO_BLOCK)
        &&& (!self.dirty && self.cached_block != NO_BLOCK ==> self.data@
            == self.io.blocks()[self.cached_block as int])
    }

    closed spec fn spec_block_size(&self) -> nat {
        self.block_size as nat
    }

    closed spec fn resident(&self, block: u32) -> bool {
        block != NO_BLOCK && self.cached_block == block
    }

    closed spec fn idle(&self) -> bool {
        self.cached_block == NO_BLOCK
    }

    closed spec fn pending(&self) -> bool {
        self.dirty
    }

    proof fn lemma_shape(&self) {
    }

    fn read(&mut self, block: u32, offset: usize, buf: &mut [u8]) -> (r: Result<(), Error>)
        ensures
            r is Ok ==> final(self).device() == if old(self).cached() == Some(block) {
                old(self).device()
            } else {
                old(self)@
            },
    {
        let n = buf.len();
        match self.read_into(block, offset, buf, 0, n) {
            Ok(()) => {
                assert(buf@ =~= old(self)@[block as int].subrange(offset as int, offset + n));
                Ok(())
            },
            Err(e) => Err(e),
        }
    }
}

impl<T: StorageIo> StorageWrite for Storage<T> {
    fn write(&mut self, block: u32, offset: usize, buf: &[u8]) -> (r: Result<(), Error>)
        ensures
            r is Ok ==> final(self).is_dirty(),
            r is Ok ==> final(self).device() == if old(self).cached() == Some(block) {
                old(self).device()
            } else {
                old(self)@
            },
    {
        match self.sync(block) {
            Err(e) => {
                return Err(e);
            },
            Ok(()) => {},
        }
        self.dirty = true;
        let ghost mid = *self;
        let ghost before = self.data@;
        let n = buf.len();
        let mut i: usize = 0;
        while i < n
            invariant
                i <= n,
                n == buf@.len(),
                offset + n <= self.data@.len() <= 4096,
                self.data@.len() == before.len(),
                self.io == mid.io,
                self.cached_block == mid.cached_block,
                self.block_size == mid.block_size,
                self.block_count == mid.block_count,
                self.dirty == mid.dirty,
                forall|j: int|
                    0 <= j < self.data@.len() ==> self.data@[j] == if offset <= j < offset + i {
                        buf@[j - offset]
                    } else {
                        before[j]
                    },
            decreases n - i,
        {
            self.data.set(offset + i, buf[i]);
            i += 1;
        }
        assert(self.data@ =~= splice(before, offset as int, buf@));
        assert(self@ =~= old(self)@.update(
            block as int,
            splice(old(self)@[block as int], offset as int, buf@),
        ));
        Ok(())
    }

    fn flush(&mut self) -> (r: Result<(), Error>)
        ensures
            r is Ok ==> !final(self).is_dirty() && final(self).device() == final(self)@,
            !old(self).is_dirty() ==> r is Ok && final(self).device() == old(self).device(),
            final(self).cached() == old(self).cached(),
    {
        if self.dirty {
            let res = self.data.send(&mut self.io, self.cached_block);
            assert(self@ =~= old(self)@);
            match res {
                Ok(()) => {
                    self.dirty = false;
                    assert(self.device() =~= self@);
                    Ok(())
                },
                Err(_) => Err(Error::Io),
            }
        } else {
            assert(self.device() =~= self@);
            Ok(())
        }
    }
}

} // verus!
