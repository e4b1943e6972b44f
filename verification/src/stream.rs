use crate::error::Error;
use crate::storage::{splice, StorageRead, StorageWrite};
use crate::storage_io::StorageIo;
use crate::table::{lemma_block_of, FatValue};
use crate::{Fs, Volume};
use vstd::prelude::*;
use vstd::slice::slice_subrange;

verus! {

/// Where a seek goes: to an offset from the start, from the position, or
/// from the end.
#[derive(Clone, Copy, Debug, PartialEq, Eq, Structural)]
pub enum StreamPos {
    Start(u32),
    Current(i32),
    End(i32),
}

/// A position in the bytes of a cluster chain, or of the fixed root
/// directory region.
#[derive(Clone, Copy, Debug, PartialEq, Eq, Structural)]
pub struct Stream {
    pub first_cluster: u32,
    pub current_cluster: u32,
    pub sector_in_cluster: u32,
    pub offset_in_sector: usize,
    pub global_offset: u32,
    pub linear: bool,
}

/// The smaller of two numbers.
pub open spec fn spec_min(a: int, b: int) -> int {
    if a <= b {
        a
    } else {
        b
    }
}

impl Stream {
    /// The bytes between the start of the current cluster and the
    /// position; for a linear stream, between the start of the region and
    /// the position.
    pub open spec fn offset_in_cluster(self, vol: Volume) -> int {
        self.sector_in_cluster * vol.sector_size + self.offset_in_sector
    }

    /// The offsets fit the geometry of `vol`: the offset in the sector is
    /// at most a sector; in a chain the sector lies in the cluster, and
    /// the position is at least the offset in the cluster; in a linear
    /// stream the position is the offset in the region. A stream is
    /// linear exactly if it starts at cluster 0.
    pub open spec fn wf(self, vol: Volume) -> bool {
        &&& self.linear == (self.first_cluster == 0)
        &&& self.offset_in_sector <= vol.sector_size
        &&& self.offset_in_cluster(vol) <= self.global_offset
        &&& self.linear ==> self.offset_in_cluster(vol) == self.global_offset
        &&& !self.linear ==> self.sector_in_cluster < vol.sectors_in_cluster
    }

    /// How many clusters of the chain lie before the current one.
    pub open spec fn cluster_index(self, vol: Volume) -> int {
        (self.global_offset - self.offset_in_cluster(vol)) / vol.cluster_size()
    }

    /// The stream stands in the cluster that holds its position: the
    /// bytes before the current cluster are whole clusters, and following
    /// the chain from its first cluster over that many clusters leads to
    /// the current one.
    pub open spec fn on_chain(self, vol: Volume) -> bool {
        &&& !self.linear
        &&& (self.global_offset - self.offset_in_cluster(vol)) % vol.cluster_size() == 0
        &&& Self::spec_follow(vol, self.first_cluster, self.cluster_index(vol) as nat) == Ok::<
            FatValue,
            Error,
        >(FatValue::Next(self.current_cluster))
    }

    /// The position is at the end of a cluster, so that the successor has
    /// to be looked up before the next transfer.
    pub open spec fn needs_entry(self, vol: Volume) -> bool {
        &&& self.offset_in_sector >= vol.sector_size
        &&& !self.linear
        &&& self.sector_in_cluster + 1 >= vol.sectors_in_cluster
    }

    /// The stream after it has moved on from the end of a sector, where it
    /// stands at one: to the next sector of the cluster or region, or to
    /// the first sector of the successor that the table names.
    pub open spec fn spec_sync(self, vol: Volume) -> Result<Stream, Error> {
        if self.offset_in_sector < vol.sector_size {
            Ok(self)
        } else if !self.needs_entry(vol) {
            Ok(
                Stream {
                    sector_in_cluster: (self.sector_in_cluster + 1) as u32,
                    offset_in_sector: 0,
                    ..self
                },
            )
        } else {
            match vol.entry(self.current_cluster) {
                Ok(FatValue::Next(n)) => Ok(
                    Stream { current_cluster: n, sector_in_cluster: 0, offset_in_sector: 0, ..self },
                ),
                Ok(_) => Err(Error::EndOfStream),
                Err(e) => Err(e),
            }
        }
    }

    /// The stream `n` bytes further on in the same sector.
    pub open spec fn advance(self, n: int) -> Stream {
        Stream {
            offset_in_sector: (self.offset_in_sector + n) as usize,
            global_offset: (self.global_offset + n) as u32,
            ..self
        }
    }

    /// The sector that the next transfer touches, where it is one of the
    /// disk's.
    pub open spec fn spec_sector(self, vol: Volume) -> Option<u32> {
        match vol.sector(self.current_cluster, self.sector_in_cluster) {
            Some(s) => if s < vol.disk.len() {
                Some(s)
            } else {
                None
            },
            None => None,
        }
    }

    /// The number of bytes that one transfer of at most `want` bytes
    /// moves: it stops at the end of the sector.
    pub open spec fn run(self, vol: Volume, want: nat) -> int {
        spec_min(want as int, vol.sector_size - self.offset_in_sector)
    }

    /// The stream and the run of bytes that a transfer of at most `want`
    /// bytes would have to deal with: the stream moved on to the sector
    /// that holds the position, the sector, and the length of the run.
    pub open spec fn spec_locate(self, vol: Volume, want: nat) -> Result<(Stream, u32, int), Error> {
        match self.spec_sync(vol) {
            Err(e) => Err(e),
            Ok(s) => {
                let len = s.run(vol, want);
                if s.global_offset + len > u32::MAX {
                    Err(Error::EndOfStream)
                } else {
                    match s.spec_sector(vol) {
                        None => Err(Error::OutOfRange),
                        Some(sector) => Ok((s, sector, len)),
                    }
                }
            },
        }
    }

    /// A transfer of at most `want` bytes needs no device: no successor
    /// has to be looked up, and the sector it touches is resident.
    pub open spec fn served<T: StorageIo>(self, fs: &Fs<T>, want: nat) -> bool {
        &&& !self.needs_entry(fs@)
        &&& self.spec_locate(fs@, want) matches Ok((s, sector, len))
        &&& fs.storage.resident(sector)
    }

    /// What `read` does when the device does not fail: the stream after
    /// it, and the bytes it hands out.
    #[verifier::opaque]
    pub open spec fn spec_read(self, vol: Volume, want: nat) -> Result<(Stream, Seq<u8>), Error> {
        match self.spec_locate(vol, want) {
            Err(e) => Err(e),
            Ok((s, sector, len)) => Ok(
                (
                    s.advance(len),
                    vol.disk[sector as int].subrange(
                        s.offset_in_sector as int,
                        s.offset_in_sector + len,
                    ),
                ),
            ),
        }
    }

    /// What `write` does when the device does not fail: the stream and the
    /// volume after it, and the number of bytes of `data` it has taken.
    pub open spec fn spec_write(self, vol: Volume, data: Seq<u8>) -> Result<
        (Stream, Volume, int),
        Error,
    > {
        match self.spec_locate(vol, data.len()) {
            Err(e) => Err(e),
            Ok((s, sector, len)) => Ok(
                (
                    s.advance(len),
                    vol.with_disk(
                        vol.disk.update(
                            sector as int,
                            splice(
                                vol.disk[sector as int],
                                s.offset_in_sector as int,
                                data.subrange(0, len),
                            ),
                        ),
                    ),
                    len,
                ),
            ),
        }
    }

    /// The cluster reached from `cluster` after `skip` steps along the
    /// chain, as `Next`; or the entry that ends the chain before that.
    pub open spec fn spec_follow(vol: Volume, cluster: u32, skip: nat) -> Result<FatValue, Error>
        decreases skip,
    {
        if skip == 0 {
            Ok(FatValue::Next(cluster))
        } else {
            match vol.entry(cluster) {
                Ok(FatValue::Next(c)) => Self::spec_follow(vol, c, (skip - 1) as nat),
                Ok(v) => Ok(v),
                Err(e) => Err(e),
            }
        }
    }

    /// Following the chain from `cluster` for `skip` steps needs no device:
    /// every entry on the way can be read from the resident sector.
    pub open spec fn follow_served<T: StorageIo>(fs: &Fs<T>, cluster: u32, skip: nat) -> bool
        decreases skip,
    {
        skip == 0 || (fs.entry_served(cluster) && match fs@.entry(cluster) {
            Ok(FatValue::Next(c)) => Self::follow_served(fs, c, (skip - 1) as nat),
            _ => true,
        })
    }

    /// The absolute position that `pos` asks for.
    pub open spec fn spec_target(self, pos: StreamPos) -> Result<u32, Error> {
        match pos {
            StreamPos::Start(s) => Ok(s),
            StreamPos::Current(c) => if 0 <= self.global_offset + c <= u32::MAX {
                Ok((self.global_offset + c) as u32)
            } else {
                Err(Error::OutOfRange)
            },
            StreamPos::End(_) => Err(Error::Unimplemented),
        }
    }

    /// The seek has to follow the chain from its first cluster: the target
    /// lies in another cluster than the current one.
    pub open spec fn seek_walks(self, vol: Volume, pos: StreamPos) -> bool {
        &&& pos != StreamPos::Current(0)
        &&& !self.linear
        &&& self.spec_target(pos) matches Ok(p)
        &&& p as int / vol.cluster_size() != self.cluster_index(vol)
    }

    /// The stream placed at byte `p` of the current cluster or region.
    pub open spec fn place(self, vol: Volume, p: u32) -> Stream {
        if self.linear {
            Stream {
                sector_in_cluster: (p as int / (vol.sector_size as int)) as u32,
                offset_in_sector: (p as int % (vol.sector_size as int)) as usize,
                global_offset: p,
                ..self
            }
        } else {
            let within = p as int % vol.cluster_size();
            Stream {
                sector_in_cluster: (within / (vol.sector_size as int)) as u32,
                offset_in_sector: (within % (vol.sector_size as int)) as usize,
                global_offset: p,
                ..self
            }
        }
    }

    /// What `seek` does when the device does not fail.
    pub open spec fn spec_seek(self, vol: Volume, pos: StreamPos) -> Result<Stream, Error> {
        if pos == StreamPos::Current(0) {
            Ok(self)
        } else {
            match self.spec_target(pos) {
                Err(e) => Err(e),
                Ok(p) => if !self.seek_walks(vol, pos) {
                    Ok(self.place(vol, p))
                } else {
                    match Self::spec_follow(
                        vol,
                        self.first_cluster,
                        (p as int / vol.cluster_size()) as nat,
                    ) {
                        Ok(FatValue::Next(c)) => Ok(
                            Stream { current_cluster: c, ..self }.place(vol, p),
                        ),
                        Ok(_) => Err(Error::EndOfStream),
                        Err(e) => Err(e),
                    }
                },
            }
        }
    }

    /// A stream at the start of the chain of `cluster`; with cluster 0, at
    /// the start of the fixed root directory region.
    pub fn new<T: StorageIo>(fs: &Fs<T>, cluster: u32, linear: bool) -> (s: Stream)
        requires
            linear == (cluster == 0),
        ensures
            s == (Stream {
                first_cluster: cluster,
                current_cluster: cluster,
                sector_in_cluster: 0,
                offset_in_sector: 0,
                global_offset: 0,
                linear,
            }),
            fs@.wf() ==> s.wf(fs@),
    {
        Stream {
            first_cluster: cluster,
            current_cluster: cluster,
            sector_in_cluster: 0,
            offset_in_sector: 0,
            global_offset: 0,
            linear,
        }
    }

    /// Moves on from the end of a sector, if the stream stands at one.
    /// Only the step to another cluster consults the table, and so the
    /// device; a failure leaves the stream where it was.
    fn sync<T: StorageIo>(&mut self, fs: &mut Fs<T>) -> (r: Result<(), Error>)
        requires
            old(fs).wf(),
            old(self).wf(old(fs)@),
        ensures
            final(fs).wf(),
            final(fs)@ == old(fs)@,
            final(self).wf(final(fs)@),
            match r {
                Ok(()) => old(self).spec_sync(old(fs)@) == Ok::<Stream, Error>(*final(self)),
                Err(e) => {
                    &&& *final(self) == *old(self)
                    &&& old(self).needs_entry(old(fs)@)
                    &&& e == Error::Io || old(self).spec_sync(old(fs)@) == Err::<Stream, Error>(e)
                },
            },
            !old(self).needs_entry(old(fs)@) ==> *final(fs) == *old(fs),
            r is Ok ==> final(self).offset_in_sector < final(fs).sector_size,
            r == Err::<(), Error>(Error::Io) ==> final(fs).failed(),
    {
        proof {
            if old(self).spec_sync(old(fs)@) is Ok {
                lemma_sync(*old(self), old(fs)@);
            }
        }
        if self.offset_in_sector >= fs.sector_size as usize {
            proof {
                let n = self.sector_in_cluster as int;
                let size = fs.sector_size as int;
                assert(n * size >= n) by (nonlinear_arith)
                    requires
                        n >= 0,
                        size >= 1,
                ;
            }
            if !self.linear && self.sector_in_cluster + 1 >= fs.sectors_in_cluster {
                match fs.entry(self.current_cluster) {
                    Ok(FatValue::Next(next)) => {
                        self.current_cluster = next;
                        self.sector_in_cluster = 0;
                    },
                    Ok(_) => {
                        return Err(Error::EndOfStream);
                    },
                    Err(e) => {
                        return Err(e);
                    },
                }
            } else {
                self.sector_in_cluster += 1;
            }
            self.offset_in_sector = 0;
        }
        assert(old(self).spec_sync(old(fs)@) == Ok::<Stream, Error>(*self));
        Ok(())
    }

    /// Finds the sector and the length of the next transfer of at most
    /// `want` bytes, moving on from the end of a sector first.
    fn locate<T: StorageIo>(&mut self, fs: &mut Fs<T>, want: usize) -> (r: Result<
        (u32, usize),
        Error,
    >)
        requires
            old(fs).wf(),
            old(self).wf(old(fs)@),
        ensures
            final(fs).wf(),
            final(fs)@ == old(fs)@,
            match r {
                Ok((sector, len)) => {
                    &&& old(self).spec_locate(old(fs)@, want as nat) == Ok::<
                        (Stream, u32, int),
                        Error,
                    >((*final(self), sector, len as int))
                    &&& final(self).wf(final(fs)@)
                    &&& final(self).advance(len as int).wf(final(fs)@)
                    &&& final(self).offset_in_sector + len <= final(fs).sector_size
                    &&& final(self).global_offset + len <= u32::MAX
                    &&& len <= want
                    &&& sector < final(fs)@.disk.len()
                },
                Err(e) => {
                    &&& *final(self) == *old(self)
                    &&& e == Error::Io || old(self).spec_locate(old(fs)@, want as nat) == Err::<
                        (Stream, u32, int),
                        Error,
                    >(e)
                },
            },
            !old(self).needs_entry(old(fs)@) ==> *final(fs) == *old(fs),
            r == Err::<(u32, usize), Error>(Error::Io) ==> old(self).needs_entry(old(fs)@)
                && final(fs).failed(),
    {
        let ghost vol = fs@;
        let mut s = *self;
        match s.sync(fs) {
            Ok(()) => {},
            Err(e) => {
                return Err(e);
            },
        }
        let room = fs.sector_size as usize - s.offset_in_sector;
        let len = if want < room {
            want
        } else {
            room
        };
        if len > (0xFFFF_FFFF - s.global_offset) as usize {
            return Err(Error::EndOfStream);
        }
        let sector = match fs.sector(s.current_cluster, s.sector_in_cluster) {
            Some(sector) => sector,
            None => {
                return Err(Error::OutOfRange);
            },
        };
        if sector >= fs.storage.block_count() {
            return Err(Error::OutOfRange);
        }
        proof {
            lemma_advance(s, vol, len as int);
        }
        *self = s;
        Ok((sector, len))
    }

    /// Reads up to the end of the current sector, or `want` bytes if that
    /// is less, into `buf` from index `at` on.
    ///
    /// Returns the number of bytes read. The outcome is that of
    /// `spec_read`, unless the device fails; a failure leaves the stream
    /// and `buf` as they were. A read that the resident sector serves
    /// succeeds, and leaves the cache as it was; a read that has failed
    /// is not served by the cache as it then stands, and after `Io` the
    /// cache stands as `Fs::failed` says.
    pub fn read_at<T: StorageIo>(
        &mut self,
        fs: &mut Fs<T>,
        buf: &mut [u8],
        at: usize,
        want: usize,
    ) -> (r: Result<usize, Error>)
        requires
            old(fs).wf(),
            old(self).wf(old(fs)@),
            at + want <= old(buf)@.len(),
        ensures
            final(fs).wf(),
            final(fs)@ == old(fs)@,
            final(self).wf(final(fs)@),
            final(buf)@.len() == old(buf)@.len(),
            match r {
                Ok(n) => {
                    &&& old(self).spec_read(old(fs)@, want as nat) matches Ok((s, bytes))
                    &&& *final(self) == s
                    &&& n == bytes.len()
                    &&& n <= want
                    &&& n <= final(fs).sector_size
                    &&& final(self).offset_in_sector <= final(fs).sector_size
                    &&& final(self).offset_in_sector >= n
                    &&& final(buf)@ == splice(old(buf)@, at as int, bytes)
                },
                Err(e) => {
                    &&& *final(self) == *old(self)
                    &&& final(buf)@ == old(buf)@
                    &&& e == Error::Io || (old(self).spec_read(old(fs)@, want as nat) matches Err(
                        x,
                    ) && x == e)
                },
            },
            old(self).served(old(fs), want as nat) ==> r is Ok && *final(fs) == *old(fs),
            r is Err ==> !old(self).served(final(fs), want as nat),
            r == Err::<usize, Error>(Error::Io) ==> final(fs).failed(),
            r is Ok && old(self).on_chain(old(fs)@) ==> final(self).on_chain(final(fs)@),
    {
        proof {
            reveal(Stream::spec_read);
            if old(self).on_chain(old(fs)@) && old(self).spec_read(old(fs)@, want as nat) is Ok {
                lemma_read_on_chain(*old(self), old(fs)@, want as nat);
            }
        }
        let mut s = *self;
        let (sector, len) = match s.locate(fs, want) {
            Ok(found) => found,
            Err(e) => {
                return Err(e);
            },
        };
        match fs.storage.read_into(sector, s.offset_in_sector, buf, at, len) {
            Ok(()) => {},
            Err(e) => {
                return Err(e);
            },
        }
        s.offset_in_sector += len;
        s.global_offset += len as u32;
        *self = s;
        Ok(len)
    }

    /// Reads up to the end of the current sector, or as much as `buf`
    /// takes if that is less, into the front of `buf`.
    ///
    /// Returns the number of bytes read. The outcome is that of
    /// `spec_read`, unless the device fails; a failure leaves the stream
    /// and `buf` as they were. A read that the resident sector serves
    /// succeeds, and leaves the cache as it was; a read that has failed
    /// is not served by the cache as it then stands, and after `Io` the
    /// cache stands as `Fs::failed` says.
    pub fn read<T: StorageIo>(&mut self, fs: &mut Fs<T>, buf: &mut [u8]) -> (r: Result<
        usize,
        Error,
    >)
        requires
            old(fs).wf(),
            old(self).wf(old(fs)@),
        ensures
            final(fs).wf(),
            final(fs)@ == old(fs)@,
            final(self).wf(final(fs)@),
            final(buf)@.len() == old(buf)@.len(),
            match r {
                Ok(n) => {
                    &&& old(self).spec_read(old(fs)@, old(buf)@.len()) matches Ok((s, bytes))
                    &&& *final(self) == s
                    &&& n == bytes.len()
                    &&& n <= old(buf)@.len()
                    &&& n <= final(fs).sector_size
                    &&& final(self).offset_in_sector <= final(fs).sector_size
                    &&& final(self).offset_in_sector >= n
                    &&& final(buf)@ == bytes + old(buf)@.skip(n as int)
                },
                Err(e) => {
                    &&& *final(self) == *old(self)
                    &&& final(buf)@ == old(buf)@
                    &&& e == Error::Io || (old(self).spec_read(old(fs)@, old(buf)@.len())
                        matches Err(x) && x == e)
                },
            },
            old(self).served(old(fs), old(buf)@.len()) ==> r is Ok && *final(fs) == *old(fs),
            r is Err ==> !old(self).served(final(fs), old(buf)@.len()),
            r == Err::<usize, Error>(Error::Io) ==> final(fs).failed(),
            r is Ok && old(self).on_chain(old(fs)@) ==> final(self).on_chain(final(fs)@),
    {
        let want = buf.len();
        match self.read_at(fs, buf, 0, want) {
            Ok(n) => {
                proof {
                    let bytes = old(self).spec_read(old(fs)@, want as nat)->Ok_0.1;
                    assert(buf@ =~= bytes + old(buf)@.skip(n as int));
                }
                Ok(n)
            },
            Err(e) => Err(e),
        }
    }

    /// Writes the front of `buf`, up to the end of the current sector.
    ///
    /// Returns the number of bytes written. The outcome is that of
    /// `spec_write`, unless the device fails; a failure leaves the stream
    /// and the bytes of the volume as they were.
    pub fn write<T: StorageIo>(&mut self, fs: &mut Fs<T>, buf: &[u8]) -> (r: Result<usize, Error>)
        requires
            old(fs).wf(),
            old(self).wf(old(fs)@),
        ensures
            final(fs).wf(),
            final(self).wf(final(fs)@),
            match r {
                Ok(n) => {
                    &&& old(self).spec_write(old(fs)@, buf@) matches Ok((s, vol, len))
                    &&& *final(self) == s
                    &&& final(fs)@ == vol
                    &&& n == len
                },
                Err(e) => {
                    &&& *final(self) == *old(self)
                    &&& final(fs)@ == old(fs)@
                    &&& e == Error::Io || (old(self).spec_write(old(fs)@, buf@) matches Err(x) && x
                        == e)
                },
            },
            old(self).served(old(fs), buf@.len()) ==> r is Ok,
            r is Err ==> !old(self).served(final(fs), buf@.len()),
            r == Err::<usize, Error>(Error::Io) ==> final(fs).failed(),
    {
        let mut s = *self;
        let (sector, len) = match s.locate(fs, buf.len()) {
            Ok(found) => found,
            Err(e) => {
                return Err(e);
            },
        };
        proof {
            fs.storage.lemma_shape();
        }
        match fs.storage.write(sector, s.offset_in_sector, slice_subrange(buf, 0, len)) {
            Ok(()) => {},
            Err(e) => {
                return Err(e);
            },
        }
        proof {
            fs.storage.lemma_shape();
        }
        s.offset_in_sector += len;
        s.global_offset += len as u32;
        *self = s;
        Ok(len)
    }

    /// Follows the chain from `cluster` for `skip` steps.
    ///
    /// Returns the cluster reached, as `Next`, or the entry that ended the
    /// chain before that. Without a step the table is not asked; steps whose
    /// entries the resident sector serves do not fail, and leave the cache
    /// as it is.
    pub fn get_cluster<T: StorageIo>(fs: &mut Fs<T>, cluster: u32, skip: u32) -> (r: Result<
        FatValue,
        Error,
    >)
        requires
            old(fs).wf(),
        ensures
            final(fs).wf(),
            final(fs)@ == old(fs)@,
            match r {
                Ok(v) => Self::spec_follow(old(fs)@, cluster, skip as nat) == Ok::<FatValue, Error>(
                    v,
                ),
                Err(e) => e == Error::Io || Self::spec_follow(old(fs)@, cluster, skip as nat)
                    == Err::<FatValue, Error>(e),
            },
            skip == 0 ==> r == Ok::<FatValue, Error>(FatValue::Next(cluster)),
            Self::follow_served(old(fs), cluster, skip as nat) ==> *final(fs) == *old(fs)
                && r is Ok,
            r == Err::<FatValue, Error>(Error::Io) ==> final(fs).failed(),
    {
        let ghost vol = fs@;
        let ghost entry = *fs;
        let mut at = cluster;
        let mut left = skip;
        while left > 0
            invariant
                fs.wf(),
                fs@ == vol,
                vol == old(fs)@,
                entry == *old(fs),
                left <= skip,
                left == skip ==> *fs == *old(fs),
                Self::follow_served(&entry, cluster, skip as nat) ==> *fs == entry
                    && Self::follow_served(&entry, at, left as nat),
                Self::spec_follow(vol, at, left as nat) == Self::spec_follow(
                    vol,
                    cluster,
                    skip as nat,
                ),
            decreases left,
        {
            match fs.entry(at) {
                Ok(FatValue::Next(c)) => {
                    at = c;
                },
                Ok(v) => {
                    return Ok(v);
                },
                Err(e) => {
                    return Err(e);
                },
            }
            left -= 1;
        }
        Ok(FatValue::Next(at))
    }

    /// Moves the position.
    ///
    /// `Current(0)` reports the position and changes nothing. A target in
    /// the current cluster, or any target of a linear stream, is reached
    /// without the device. Any other is reached by following the chain
    /// from its first cluster, which does not fail with `Io` where the
    /// resident sector serves every entry on the way; a chain that ends
    /// before the target gives `EndOfStream`. A target below zero or above the 32-bit range gives
    /// `OutOfRange`, and `End` is `Unimplemented`. A failure leaves the
    /// stream where it was.
    pub fn seek<T: StorageIo>(&mut self, fs: &mut Fs<T>, pos: StreamPos) -> (r: Result<u32, Error>)
        requires
            old(fs).wf(),
            old(self).wf(old(fs)@),
        ensures
            final(fs).wf(),
            final(fs)@ == old(fs)@,
            final(self).wf(final(fs)@),
            match r {
                Ok(p) => {
                    &&& old(self).spec_seek(old(fs)@, pos) == Ok::<Stream, Error>(*final(self))
                    &&& p == final(self).global_offset
                },
                Err(e) => {
                    &&& *final(self) == *old(self)
                    &&& e == Error::Io || old(self).spec_seek(old(fs)@, pos) == Err::<
                        Stream,
                        Error,
                    >(e)
                },
            },
            !old(self).seek_walks(old(fs)@, pos) ==> *final(fs) == *old(fs) && r
                != Err::<u32, Error>(Error::Io),
            pos == StreamPos::Current(0) ==> r == Ok::<u32, Error>(old(self).global_offset)
                && *final(self) == *old(self),
            old(self).seek_walks(old(fs)@, pos) && Self::follow_served(
                old(fs),
                old(self).first_cluster,
                (old(self).spec_target(pos)->Ok_0 as int / old(fs)@.cluster_size()) as nat,
            ) ==> *final(fs) == *old(fs) && r != Err::<u32, Error>(Error::Io),
            r is Ok && old(self).on_chain(old(fs)@) ==> final(self).on_chain(final(fs)@),
    {
        proof {
            if old(self).on_chain(old(fs)@) && old(self).spec_seek(old(fs)@, pos) is Ok {
                lemma_seek_on_chain(*old(self), old(fs)@, pos);
            }
        }
        let target: i64 = match pos {
            StreamPos::Current(c) => {
                if c == 0 {
                    return Ok(self.global_offset);
                }
                self.global_offset as i64 + c as i64
            },
            StreamPos::Start(s) => s as i64,
            StreamPos::End(_) => {
                return Err(Error::Unimplemented);
            },
        };
        if target < 0 || target > 0xFFFF_FFFF {
            return Err(Error::OutOfRange);
        }
        let p = target as u32;
        let size = fs.sector_size;
        if self.linear {
            proof {
                lemma_split(p as int, size as int);
            }
            self.sector_in_cluster = p / size;
            self.offset_in_sector = (p % size) as usize;
            self.global_offset = p;
            return Ok(p);
        }
        proof {
            lemma_cluster_size(fs@);
        }
        let cluster_size = fs.sectors_in_cluster * size;
        let here = (self.global_offset - (self.sector_in_cluster * size
            + self.offset_in_sector as u32)) / cluster_size;
        let index = p / cluster_size;
        let mut cluster = self.current_cluster;
        if index != here {
            match Self::get_cluster(fs, self.first_cluster, index) {
                Ok(FatValue::Next(c)) => {
                    cluster = c;
                },
                Ok(_) => {
                    return Err(Error::EndOfStream);
                },
                Err(e) => {
                    return Err(e);
                },
            }
        }
        proof {
            lemma_place(fs@, p);
        }
        let within = p % cluster_size;
        self.current_cluster = cluster;
        self.sector_in_cluster = within / size;
        self.offset_in_sector = (within % size) as usize;
        self.global_offset = p;
        Ok(p)
    }
}

/// A cluster has between one and 255 sectors of a legal size.
pub proof fn lemma_cluster_size(vol: Volume)
    requires
        vol.wf(),
    ensures
        vol.sector_size <= vol.cluster_size() <= 255 * 4096,
        vol.cluster_size() == vol.sectors_in_cluster * vol.sector_size,
{
    let n = vol.sectors_in_cluster as int;
    let size = vol.sector_size as int;
    assert(size <= n * size <= 255 * 4096) by (nonlinear_arith)
        requires
            1 <= n <= 255,
            1 <= size <= 4096,
    ;
}

/// A number splits into a multiple of `size` and a rest below `size`.
pub proof fn lemma_split(x: int, size: int)
    requires
        x >= 0,
        size > 0,
    ensures
        0 <= x % size < size,
        0 <= x / size <= x,
        (x / size) * size + x % size == x,
{
    vstd::arithmetic::div_mod::lemma_fundamental_div_mod(x, size);
    vstd::arithmetic::div_mod::lemma_mod_bound(x, size);
    vstd::arithmetic::div_mod::lemma_div_pos_is_pos(x, size);
    let q = x / size;
    assert(q * size == size * q) by (nonlinear_arith);
    assert(q <= q * size) by (nonlinear_arith)
        requires
            q >= 0,
            size >= 1,
    ;
}

/// A position within a cluster splits into a sector of the cluster and an
/// offset in that sector.
pub proof fn lemma_place(vol: Volume, p: u32)
    requires
        vol.wf(),
    ensures
        ({
            let within = p as int % vol.cluster_size();
            let size = vol.sector_size as int;
            &&& 0 <= within <= p
            &&& 0 <= within / size < vol.sectors_in_cluster
            &&& 0 <= within % size < size
            &&& (within / size) * size + within % size == within
        }),
{
    lemma_cluster_size(vol);
    let n = vol.sectors_in_cluster as int;
    let size = vol.sector_size as int;
    let cs = vol.cluster_size();
    let within = p as int % cs;
    lemma_split(p as int, cs);
    lemma_split(within, size);
    let q = within / size;
    assert(q < n) by (nonlinear_arith)
        requires
            q * size <= within,
            within < n * size,
            size > 0,
    ;
}

/// Moving on from the end of a sector keeps the position and leaves room
/// in the sector.
pub proof fn lemma_sync(s: Stream, vol: Volume)
    requires
        vol.wf(),
        s.wf(vol),
        s.spec_sync(vol) is Ok,
    ensures
        ({
            let y = s.spec_sync(vol)->Ok_0;
            &&& y.wf(vol)
            &&& y.offset_in_sector < vol.sector_size
            &&& y.global_offset == s.global_offset
            &&& y.first_cluster == s.first_cluster
        }),
{
    let n = s.sector_in_cluster as int;
    let size = vol.sector_size as int;
    let y = s.spec_sync(vol)->Ok_0;
    assert((n + 1) * size == n * size + size) by (nonlinear_arith);
    assert(n * size >= n) by (nonlinear_arith)
        requires
            n >= 0,
            size >= 1,
    ;
    assert(0 * size == 0) by (nonlinear_arith);
    if s.offset_in_sector < vol.sector_size {
        assert(y == s);
    } else if !s.needs_entry(vol) {
        assert(s.offset_in_sector == size);
        assert(n + 1 <= u32::MAX);
        assert(y.sector_in_cluster == n + 1);
        assert(y.offset_in_cluster(vol) == (n + 1) * size);
        assert(s.offset_in_cluster(vol) == n * size + size);
    } else {
        assert(y.sector_in_cluster == 0 && y.offset_in_sector == 0);
        assert(y.offset_in_cluster(vol) == 0);
    }
}

/// One read moves the stream by the bytes it hands out: as many as were
/// asked for, or as the sector has left if that is less.
pub proof fn lemma_read(s: Stream, vol: Volume, want: nat)
    requires
        vol.wf(),
        s.wf(vol),
        s.spec_read(vol, want) is Ok,
    ensures
        s.spec_sync(vol) is Ok,
        ({
            let y = s.spec_sync(vol)->Ok_0;
            let (t, bytes) = s.spec_read(vol, want)->Ok_0;
            &&& t.wf(vol)
            &&& bytes.len() == spec_min(want as int, vol.sector_size - y.offset_in_sector)
            &&& t.global_offset == s.global_offset + bytes.len()
            &&& t.offset_in_sector == y.offset_in_sector + bytes.len()
            &&& want > 0 ==> bytes.len() > 0
        }),
{
    reveal(Stream::spec_read);
    lemma_sync(s, vol);
    let y = s.spec_sync(vol)->Ok_0;
    let len = y.run(vol, want);
    let sector = y.spec_sector(vol)->Some_0;
    assert(vol.disk[sector as int].len() == vol.sector_size);
    lemma_advance(y, vol, len);
}

/// Two reads that ask for different numbers of bytes and get the same
/// number do the same.
pub proof fn lemma_same_run(s: Stream, vol: Volume, a: nat, b: nat)
    requires
        s.spec_sync(vol) is Ok,
        s.spec_sync(vol)->Ok_0.run(vol, a) == s.spec_sync(vol)->Ok_0.run(vol, b),
    ensures
        s.spec_read(vol, a) == s.spec_read(vol, b),
{
    reveal(Stream::spec_read);
}

/// The chain that starts at `first` has more than `index` clusters.
pub open spec fn in_chain(vol: Volume, first: u32, index: nat) -> bool {
    Stream::spec_follow(vol, first, index) matches Ok(FatValue::Next(_))
}

/// A seek from the start to a position whose cluster the chain has
/// succeeds, and the position reported afterwards is that position.
pub proof fn lemma_seek_then_tell(s: Stream, vol: Volume, p: u32)
    requires
        vol.wf(),
        s.wf(vol),
        s.linear || in_chain(vol, s.first_cluster, (p as int / vol.cluster_size()) as nat),
    ensures
        s.spec_seek(vol, StreamPos::Start(p)) is Ok,
        ({
            let t = s.spec_seek(vol, StreamPos::Start(p))->Ok_0;
            &&& t.wf(vol)
            &&& t.global_offset == p
            &&& t.spec_seek(vol, StreamPos::Current(0)) == Ok::<Stream, Error>(t)
        }),
{
    lemma_place(vol, p);
    lemma_split(p as int, vol.sector_size as int);
}

/// A read that has to leave its cluster goes on in the one cluster that
/// the table names as its successor, at that cluster's first sector.
pub proof fn lemma_read_crosses_to_successor(s: Stream, vol: Volume, want: nat)
    requires
        s.needs_entry(vol),
        s.spec_read(vol, want) is Ok,
    ensures
        ({
            let t = s.spec_read(vol, want)->Ok_0.0;
            &&& vol.entry(s.current_cluster) == Ok::<FatValue, Error>(
                FatValue::Next(t.current_cluster),
            )
            &&& t.sector_in_cluster == 0
        }),
{
    reveal(Stream::spec_read);
}

/// One more step along the chain, taken behind `skip` steps.
pub proof fn lemma_follow_extend(vol: Volume, first: u32, skip: nat, at: u32, next: u32)
    requires
        Stream::spec_follow(vol, first, skip) == Ok::<FatValue, Error>(FatValue::Next(at)),
        vol.entry(at) == Ok::<FatValue, Error>(FatValue::Next(next)),
    ensures
        Stream::spec_follow(vol, first, skip + 1) == Ok::<FatValue, Error>(FatValue::Next(next)),
    decreases skip,
{
    reveal_with_fuel(Stream::spec_follow, 2);
    if skip > 0 {
        match vol.entry(first) {
            Ok(FatValue::Next(c)) => {
                lemma_follow_extend(vol, c, (skip - 1) as nat, at, next);
            },
            _ => {},
        }
    }
}

/// A stream that starts at a cluster of the data area stands on its
/// chain.
pub proof fn lemma_new_on_chain(vol: Volume, cluster: u32)
    requires
        vol.wf(),
        cluster != 0,
    ensures
        (Stream {
            first_cluster: cluster,
            current_cluster: cluster,
            sector_in_cluster: 0,
            offset_in_sector: 0,
            global_offset: 0,
            linear: false,
        }).on_chain(vol),
{
    lemma_cluster_size(vol);
    let size = vol.sector_size as int;
    assert(0 * size == 0) by (nonlinear_arith);
    lemma_block_of(0, vol.cluster_size(), 0, 0);
}

/// A stream on its chain stays on it when it moves on from the end of a
/// sector.
pub proof fn lemma_sync_on_chain(s: Stream, vol: Volume)
    requires
        vol.wf(),
        s.wf(vol),
        s.on_chain(vol),
        s.spec_sync(vol) is Ok,
    ensures
        s.spec_sync(vol)->Ok_0.on_chain(vol),
{
    lemma_sync(s, vol);
    lemma_cluster_size(vol);
    let y = s.spec_sync(vol)->Ok_0;
    let n = s.sector_in_cluster as int;
    let size = vol.sector_size as int;
    let cs = vol.cluster_size();
    assert((n + 1) * size == n * size + size) by (nonlinear_arith);
    assert(0 * size == 0) by (nonlinear_arith);
    if s.offset_in_sector < vol.sector_size {
    } else if !s.needs_entry(vol) {
        assert(y.offset_in_cluster(vol) == s.offset_in_cluster(vol));
    } else {
        let k = s.cluster_index(vol);
        let base = s.global_offset - s.offset_in_cluster(vol);
        assert(s.sector_in_cluster + 1 == vol.sectors_in_cluster);
        assert(s.offset_in_cluster(vol) == cs);
        vstd::arithmetic::div_mod::lemma_fundamental_div_mod(base, cs);
        assert(base == cs * k);
        vstd::arithmetic::div_mod::lemma_div_pos_is_pos(base, cs);
        assert(cs * (k + 1) == cs * k + cs) by (nonlinear_arith);
        lemma_block_of(s.global_offset as int, cs, k + 1, 0);
        assert(y.offset_in_cluster(vol) == 0);
        assert(y.cluster_index(vol) == k + 1);
        lemma_follow_extend(vol, s.first_cluster, k as nat, s.current_cluster, y.current_cluster);
    }
}

/// A stream on its chain stays on it when it reads.
pub proof fn lemma_read_on_chain(s: Stream, vol: Volume, want: nat)
    requires
        vol.wf(),
        s.wf(vol),
        s.on_chain(vol),
        s.spec_read(vol, want) is Ok,
    ensures
        s.spec_read(vol, want)->Ok_0.0.on_chain(vol),
{
    reveal(Stream::spec_read);
    lemma_sync(s, vol);
    lemma_sync_on_chain(s, vol);
    lemma_read(s, vol, want);
    let y = s.spec_sync(vol)->Ok_0;
    let t = s.spec_read(vol, want)->Ok_0.0;
    assert(t.offset_in_cluster(vol) - y.offset_in_cluster(vol) == t.global_offset
        - y.global_offset);
}

/// The byte at offset `p` of the chain that starts at cluster `first`, if
/// the chain reaches that far and the byte lies on the disk.
pub open spec fn chain_byte(vol: Volume, first: u32, p: int) -> Option<u8> {
    let within = p % vol.cluster_size();
    match Stream::spec_follow(vol, first, (p / vol.cluster_size()) as nat) {
        Ok(FatValue::Next(c)) => match vol.sector(c, (within / (vol.sector_size as int)) as u32) {
            Some(sector) => if sector < vol.disk.len() {
                Some(vol.disk[sector as int][within % (vol.sector_size as int)])
            } else {
                None
            },
            None => None,
        },
        _ => None,
    }
}

/// What a stream on its chain reads are the bytes of the chain from its
/// position on.
pub proof fn lemma_read_gives_chain_bytes(s: Stream, vol: Volume, want: nat, i: int)
    requires
        vol.wf(),
        s.wf(vol),
        s.on_chain(vol),
        s.spec_read(vol, want) is Ok,
        0 <= i < s.spec_read(vol, want)->Ok_0.1.len(),
    ensures
        chain_byte(vol, s.first_cluster, s.global_offset + i) == Some(
            s.spec_read(vol, want)->Ok_0.1[i],
        ),
{
    reveal(Stream::spec_read);
    lemma_sync(s, vol);
    lemma_sync_on_chain(s, vol);
    lemma_read(s, vol, want);
    lemma_cluster_size(vol);
    let y = s.spec_sync(vol)->Ok_0;
    let (t, bytes) = s.spec_read(vol, want)->Ok_0;
    let size = vol.sector_size as int;
    let n = vol.sectors_in_cluster as int;
    let cs = vol.cluster_size();
    let k = y.cluster_index(vol);
    let sic = y.sector_in_cluster as int;
    let inside = y.offset_in_cluster(vol);
    let base = y.global_offset - inside;
    assert(inside == sic * size + y.offset_in_sector);
    assert(sic * size + size <= n * size) by (nonlinear_arith)
        requires
            sic + 1 <= n,
            size > 0,
    ;
    assert(sic * size >= 0) by (nonlinear_arith)
        requires
            sic >= 0,
            size > 0,
    ;
    vstd::arithmetic::div_mod::lemma_fundamental_div_mod(base, cs);
    assert(base == cs * k);
    lemma_block_of(s.global_offset + i, cs, k, inside + i);
    assert(size * sic == sic * size) by (nonlinear_arith);
    lemma_block_of(inside + i, size, sic, y.offset_in_sector + i);
    let sector = y.spec_sector(vol)->Some_0;
    assert(vol.disk[sector as int].len() == size);
}

/// A seek in a chain leaves the stream on the chain: in the cluster that
/// holds the target.
pub proof fn lemma_seek_on_chain(s: Stream, vol: Volume, pos: StreamPos)
    requires
        vol.wf(),
        s.wf(vol),
        s.on_chain(vol),
        s.spec_seek(vol, pos) is Ok,
    ensures
        s.spec_seek(vol, pos)->Ok_0.on_chain(vol),
        pos != StreamPos::Current(0) ==> s.spec_seek(vol, pos)->Ok_0.cluster_index(vol)
            == s.spec_target(pos)->Ok_0 as int / vol.cluster_size(),
{
    if pos != StreamPos::Current(0) {
        let p = s.spec_target(pos)->Ok_0;
        let t = s.spec_seek(vol, pos)->Ok_0;
        let cs = vol.cluster_size();
        let size = vol.sector_size as int;
        lemma_cluster_size(vol);
        lemma_place(vol, p);
        lemma_split(p as int, cs);
        let within = p as int % cs;
        assert(t.sector_in_cluster == within / size);
        assert(t.offset_in_sector == within % size);
        assert(t.offset_in_cluster(vol) == within);
        assert((p as int / cs) * cs == cs * (p as int / cs)) by (nonlinear_arith);
        lemma_block_of(p - within, cs, p as int / cs, 0);
        assert(t.cluster_index(vol) == p as int / cs);
    }
}

/// A stream that has moved on within its sector is still well formed.
pub proof fn lemma_advance(s: Stream, vol: Volume, len: int)
    requires
        vol.wf(),
        s.wf(vol),
        0 <= len,
        s.offset_in_sector + len <= vol.sector_size,
        s.global_offset + len <= u32::MAX,
    ensures
        s.advance(len).wf(vol),
{
    assert(s.advance(len).offset_in_cluster(vol) == s.offset_in_cluster(vol) + len);
}

} // verus!
