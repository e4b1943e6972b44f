//! A reader for FAT12, FAT16 and FAT32 volumes on a block device, verified
//! with Verus.
//!
//! The device is any implementation of [`storage_io::StorageIo`]; the
//! library sees it through a cache of one sector, [`storage::Storage`].
//! [`Fs`] mounts a volume; [`dir::Dir`] walks a directory and opens files
//! and directories by path; [`file::File`] reads a file; and
//! [`stream::Stream`] is the seekable run of bytes over a cluster chain
//! that both rest on. [`table::FatTable`] reads and writes the entries of
//! the file allocation table.
//!
//! No handle keeps a reference to its volume: every operation names the
//! [`Fs`] it works on, and asks that the handle fits it (`wf`). Contracts
//! are stated over [`Volume`], the geometry of a volume together with the
//! bytes of its sectors as the users of the cache see them. Each
//! operation says what it returns and changes when the device does not
//! fail, as a function of that view, and that a device failure shows as
//! [`error::Error::Io`] and nothing else.

pub mod bpb;
pub mod bytes;
pub mod dir;
pub mod dir_entry;
pub mod error;
pub mod file;
pub mod path;
pub mod ram;
pub mod storage;
pub mod storage_io;
pub mod stream;
pub mod table;

use crate::bpb::{Bpb, Layout};
use crate::dir::Dir;
use crate::error::Error;
use crate::storage::{Storage, StorageRead};
use crate::storage_io::{device_wf, is_block_size, StorageIo};
use crate::table::{well_shaped, FatTable, FatType, FatValue};
use vstd::prelude::*;

verus! {

/// A mounted volume: its geometry, its table and the cache in front of its
/// device.
pub struct Fs<T: StorageIo> {
    pub storage: Storage<T>,
    pub table: FatTable,
    pub sector_size: u32,
    pub sectors_in_cluster: u32,
    pub data_area_first_sector: u32,
    pub root_directory_first_sector: u32,
    pub root_cluster: u32,
}

/// A volume as contracts speak of it: the geometry and the bytes of every
/// sector, as the users of the cache see them.
pub struct Volume {
    pub table: FatTable,
    pub sector_size: u32,
    pub sectors_in_cluster: u32,
    pub data_area_first_sector: u32,
    pub root_directory_first_sector: u32,
    pub root_cluster: u32,
    pub disk: Seq<Seq<u8>>,
}

impl Volume {
    /// The geometry is sound and every sector has the volume's sector
    /// size.
    pub open spec fn wf(self) -> bool {
        &&& is_block_size(self.sector_size as int)
        &&& self.table.block_size == self.sector_size
        &&& 1 <= self.sectors_in_cluster <= 255
        &&& well_shaped(self.disk, self.sector_size as int)
        &&& self.disk.len() <= u32::MAX
    }

    /// The number of bytes in one cluster.
    pub open spec fn cluster_size(self) -> int {
        self.sectors_in_cluster * self.sector_size
    }

    /// The first sector of `cluster`. Cluster 0 stands for the fixed root
    /// directory of a FAT12 or FAT16 volume.
    pub open spec fn cluster_to_sector(self, cluster: u32) -> int {
        if cluster != 0 {
            self.data_area_first_sector + (cluster - 2) * self.sectors_in_cluster
        } else {
            self.root_directory_first_sector as int
        }
    }

    /// Sector `index` of `cluster`, where such a sector can be numbered:
    /// cluster 1 does not exist, and a sector number has 32 bits.
    pub open spec fn sector(self, cluster: u32, index: u32) -> Option<u32> {
        if cluster == 1 || self.cluster_to_sector(cluster) + index > u32::MAX {
            None
        } else {
            Some((self.cluster_to_sector(cluster) + index) as u32)
        }
    }

    /// What the table says of `cluster`.
    #[verifier::opaque]
    pub open spec fn entry(self, cluster: u32) -> Result<FatValue, Error> {
        self.table.spec_get(self.disk, cluster)
    }

    /// The same volume holding other bytes.
    pub open spec fn with_disk(self, disk: Seq<Seq<u8>>) -> Volume {
        Volume { disk, ..self }
    }
}

impl<T: StorageIo> View for Fs<T> {
    type V = Volume;

    open spec fn view(&self) -> Volume {
        Volume {
            table: self.table,
            sector_size: self.sector_size,
            sectors_in_cluster: self.sectors_in_cluster,
            data_area_first_sector: self.data_area_first_sector,
            root_directory_first_sector: self.root_directory_first_sector,
            root_cluster: self.root_cluster,
            disk: self.storage@,
        }
    }
}

/// The layout that sector 0 of `disk` describes, for a device whose
/// sectors have `block_size` bytes.
pub open spec fn spec_mount(disk: Seq<Seq<u8>>, block_size: nat) -> Result<Layout, Error> {
    match Bpb::spec_parse(disk[0].subrange(0, 512)).spec_layout() {
        Ok(l) => if l.sector_size == block_size {
            Ok(l)
        } else {
            Err(Error::UnsupportedFatType)
        },
        Err(e) => Err(e),
    }
}

impl<T: StorageIo> Fs<T> {
    /// The cache is sound, sits on a device of the volume's sector size,
    /// and the volume is well formed.
    pub open spec fn wf(&self) -> bool {
        &&& self.storage.wf()
        &&& self.storage.spec_block_size() == self.sector_size
        &&& self@.wf()
    }

    /// The geometry is the one that `l` describes.
    pub open spec fn laid_out(&self, l: Layout) -> bool {
        &&& self.table == FatTable {
            fat_type: l.fat_type,
            first_block: l.reserved_sector_count,
            block_count: l.fat_size,
            block_size: l.sector_size,
        }
        &&& self.sector_size == l.sector_size
        &&& self.sectors_in_cluster == l.sectors_in_cluster
        &&& self.data_area_first_sector == l.data_area_first_sector
        &&& self.root_directory_first_sector == l.root_directory_first_sector
        &&& self.root_cluster == l.root_cluster
    }

    /// Mounts the volume on `storage_io`.
    ///
    /// Sector 0 is read through a fresh cache. A device without sectors
    /// gives `OutOfRange`; a boot sector that describes no volume, or one
    /// with another sector size than the device's, `UnsupportedFatType`.
    pub fn new(storage_io: T) -> (r: Result<Self, Error>)
        requires
            device_wf(&storage_io),
        ensures
            match r {
                Ok(fs) => {
                    &&& fs.wf()
                    &&& fs.storage@ == storage_io.blocks()
                    &&& storage_io.blocks().len() > 0
                    &&& spec_mount(storage_io.blocks(), storage_io.spec_block_size()) matches Ok(l)
                    &&& fs.laid_out(l)
                },
                Err(e) => if storage_io.blocks().len() == 0 {
                    e == Error::OutOfRange
                } else {
                    e == Error::Io || (e == Error::UnsupportedFatType && spec_mount(
                        storage_io.blocks(),
                        storage_io.spec_block_size(),
                    ) is Err)
                },
            },
    {
        let mut storage = Storage::new(storage_io);
        proof {
            storage.lemma_shape();
        }
        let mut sector = [0u8; 512];
        match storage.read(0, 0, &mut sector) {
            Ok(()) => {},
            Err(e) => {
                return Err(e);
            },
        }
        let layout = match Bpb::parse(&sector).layout() {
            Ok(l) => l,
            Err(e) => {
                return Err(e);
            },
        };
        if layout.sector_size as usize != storage.block_size() {
            return Err(Error::UnsupportedFatType);
        }
        proof {
            storage.lemma_shape();
        }
        Ok(
            Fs {
                storage,
                table: FatTable::new(
                    layout.fat_type,
                    layout.reserved_sector_count,
                    layout.fat_size,
                    layout.sector_size,
                ),
                sector_size: layout.sector_size,
                sectors_in_cluster: layout.sectors_in_cluster,
                data_area_first_sector: layout.data_area_first_sector,
                root_directory_first_sector: layout.root_directory_first_sector,
                root_cluster: layout.root_cluster,
            },
        )
    }

    /// The cache stands as a failed transfer leaves it: no sector is
    /// resident, or bytes that the device has not taken are pending.
    pub open spec fn failed(&self) -> bool {
        self.storage.idle() || self.storage.pending()
    }

    /// The entry of `cluster` can be read without a device transfer.
    pub open spec fn entry_served(&self, cluster: u32) -> bool {
        self.table.served(&self.storage, cluster)
    }

    /// Reads what the table says of `cluster`.
    ///
    /// The result is what `Volume::entry` gives: the entry, or `OutOfRange`
    /// if it lies outside the table or the disk; or `Io` if the device
    /// failed, and then the cache stands as `failed` says. A read that the
    /// resident sector serves does not fail; such a read, and one of an
    /// entry out of range, leave the cache as it is.
    pub fn entry(&mut self, cluster: u32) -> (r: Result<FatValue, Error>)
        requires
            old(self).wf(),
        ensures
            final(self).wf(),
            final(self)@ == old(self)@,
            match r {
                Ok(v) => old(self)@.entry(cluster) == Ok::<FatValue, Error>(v),
                Err(e) => {
                    &&& e == if old(self).table.in_range(old(self)@.disk, cluster) {
                        Error::Io
                    } else {
                        Error::OutOfRange
                    }
                    &&& e == Error::Io || old(self)@.entry(cluster) == Err::<FatValue, Error>(e)
                },
            },
            old(self).entry_served(cluster) ==> r is Ok,
            old(self).entry_served(cluster) || !old(self).table.in_range(old(self)@.disk, cluster)
                ==> *final(self) == *old(self),
            r == Err::<FatValue, Error>(Error::Io) ==> final(self).failed(),
    {
        proof {
            reveal(Volume::entry);
        }
        let table = self.table;
        table.get(&mut self.storage, cluster)
    }

    /// A walk at the start of the root directory: over its cluster chain on
    /// FAT32, over the fixed region on FAT12 and FAT16.
    pub fn root_dir(&self) -> (d: Dir)
        ensures
            d == Dir::spec_new(
                if self.table.fat_type == FatType::Fat32 {
                    self.root_cluster
                } else {
                    0
                },
            ),
            self.wf() ==> d.wf(self@),
    {
        match self.table.fat_type {
            FatType::Fat32 => Dir::new(self, self.root_cluster),
            _ => Dir::new(self, 0),
        }
    }

    /// The cluster where the root directory starts, or 0 where it is the
    /// fixed region of a FAT12 or FAT16 volume.
    pub fn root_dir_cluster(&self) -> (r: u32)
        ensures
            r == if self.table.fat_type == FatType::Fat32 {
                self.root_cluster
            } else {
                0
            },
    {
        match self.table.fat_type {
            FatType::Fat32 => self.root_cluster,
            _ => 0,
        }
    }

    /// The first sector of `cluster`.
    pub fn cluster_to_sector(&self, cluster: u32) -> (r: u32)
        requires
            cluster != 1,
            self@.cluster_to_sector(cluster) <= u32::MAX,
        ensures
            r == self@.cluster_to_sector(cluster),
            cluster >= 2 ==> r == self.data_area_first_sector + (cluster - 2)
                * self.sectors_in_cluster,
            cluster == 0 ==> r == self.root_directory_first_sector,
    {
        if cluster != 0 {
            assert((cluster - 2) * self.sectors_in_cluster >= 0) by (nonlinear_arith)
                requires
                    cluster >= 2,
                    self.sectors_in_cluster >= 0,
            ;
            self.data_area_first_sector + (cluster - 2) * self.sectors_in_cluster
        } else {
            self.root_directory_first_sector
        }
    }

    /// Sector `index` of `cluster`, or `None` where no 32-bit number names
    /// it.
    pub fn sector(&self, cluster: u32, index: u32) -> (r: Option<u32>)
        ensures
            r == self@.sector(cluster, index),
    {
        if cluster == 1 {
            return None;
        }
        let first: u64 = if cluster != 0 {
            assert((cluster - 2) * self.sectors_in_cluster <= 0xFFFF_FFFF * 0xFFFF_FFFF
                && (cluster - 2) * self.sectors_in_cluster >= 0) by (nonlinear_arith)
                requires
                    2 <= cluster <= 0xFFFF_FFFF,
                    0 <= self.sectors_in_cluster <= 0xFFFF_FFFF,
            ;
            self.data_area_first_sector as u64 + (cluster - 2) as u64
                * self.sectors_in_cluster as u64
        } else {
            self.root_directory_first_sector as u64
        };
        let sector = first + index as u64;
        if sector > 0xFFFF_FFFF {
            None
        } else {
            Some(sector as u32)
        }
    }
}

} // verus!
