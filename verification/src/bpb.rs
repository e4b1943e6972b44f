use crate::bytes::{le16_at, le32_at, u16_at, u32_at};
use crate::error::Error;
use crate::storage_io::is_block_size;
use crate::table::FatType;
use vstd::prelude::*;

verus! {

/// The fields of the boot sector that the library reads.
#[derive(Clone, Copy, Debug, PartialEq, Eq, Structural)]
pub struct Bpb {
    pub bytes_per_sector: u16,
    pub sectors_per_cluster: u8,
    pub reserved_sector_count: u16,
    pub num_fats: u8,
    pub root_entry_count: u16,
    /// The 16-bit count of sectors, or the 32-bit one where that is zero.
    pub total_sectors: u32,
    /// The 16-bit size of one table, or the 32-bit one where that is zero.
    pub fat_size: u32,
    /// The 32-bit field that names the root directory's cluster on FAT32.
    pub root_cluster: u32,
}

/// Where the regions of a volume lie, and how its table is encoded.
#[derive(Clone, Copy, Debug, PartialEq, Eq, Structural)]
pub struct Layout {
    pub fat_type: FatType,
    pub sector_size: u32,
    pub sectors_in_cluster: u32,
    pub reserved_sector_count: u32,
    pub fat_size: u32,
    pub root_dir_sectors: u32,
    pub root_directory_first_sector: u32,
    pub data_area_first_sector: u32,
    pub count_of_clusters: u32,
    /// The cluster of the root directory; zero where the root directory
    /// is the fixed region of a FAT12 or FAT16 volume.
    pub root_cluster: u32,
}

impl Bpb {
    /// The fields as they stand in the first 48 bytes of sector 0.
    pub open spec fn spec_parse(s: Seq<u8>) -> Bpb {
        Bpb {
            bytes_per_sector: le16_at(s, 11) as u16,
            sectors_per_cluster: s[13],
            reserved_sector_count: le16_at(s, 14) as u16,
            num_fats: s[16],
            root_entry_count: le16_at(s, 17) as u16,
            total_sectors: if le16_at(s, 19) != 0 {
                le16_at(s, 19) as u32
            } else {
                le32_at(s, 32) as u32
            },
            fat_size: if le16_at(s, 22) != 0 {
                le16_at(s, 22) as u32
            } else {
                le32_at(s, 36) as u32
            },
            root_cluster: le32_at(s, 44) as u32,
        }
    }

    /// Reads the fields from the start of sector 0.
    pub fn parse(sector: &[u8]) -> (b: Bpb)
        requires
            sector@.len() >= 48,
        ensures
            b == Self::spec_parse(sector@),
    {
        let total_sectors_16 = u16_at(sector, 19);
        let fat_size_16 = u16_at(sector, 22);
        Bpb {
            bytes_per_sector: u16_at(sector, 11),
            sectors_per_cluster: sector[13],
            reserved_sector_count: u16_at(sector, 14),
            num_fats: sector[16],
            root_entry_count: u16_at(sector, 17),
            total_sectors: if total_sectors_16 != 0 {
                total_sectors_16 as u32
            } else {
                u32_at(sector, 32)
            },
            fat_size: if fat_size_16 != 0 {
                fat_size_16 as u32
            } else {
                u32_at(sector, 36)
            },
            root_cluster: u32_at(sector, 44),
        }
    }

    /// The sectors that the fixed root directory takes, rounded up.
    pub open spec fn root_dir_sectors(self) -> int {
        (self.root_entry_count * 32 + (self.bytes_per_sector - 1)) / (self.bytes_per_sector as int)
    }

    /// The sector behind the reserved sectors and all copies of the table.
    pub open spec fn root_directory_first_sector(self) -> int {
        self.reserved_sector_count + self.num_fats * self.fat_size
    }

    /// The sector behind the fixed root directory, where cluster 2 starts.
    pub open spec fn data_area_first_sector(self) -> int {
        self.root_directory_first_sector() + self.root_dir_sectors()
    }

    /// The sectors of the volume from the data area on.
    pub open spec fn data_sectors(self) -> int {
        self.total_sectors - self.data_area_first_sector()
    }

    /// The whole clusters that the data area holds.
    pub open spec fn count_of_clusters(self) -> int {
        self.data_sectors() / (self.sectors_per_cluster as int)
    }

    /// The type of the table, which the count of clusters alone decides.
    pub open spec fn fat_type(self) -> FatType {
        if self.count_of_clusters() < 4085 {
            FatType::Fat12
        } else if self.count_of_clusters() < 65525 {
            FatType::Fat16
        } else {
            FatType::Fat32
        }
    }

    /// The fields describe a volume: a legal sector size, clusters of at
    /// least one sector, regions that fit into the volume, and a table
    /// whose sectors can be numbered.
    pub open spec fn valid(self) -> bool {
        &&& is_block_size(self.bytes_per_sector as int)
        &&& self.sectors_per_cluster >= 1
        &&& self.data_area_first_sector() <= self.total_sectors
        &&& self.reserved_sector_count + self.fat_size <= u32::MAX
    }

    /// The layout that the fields describe, if they describe a volume.
    pub open spec fn spec_layout(self) -> Result<Layout, Error> {
        if self.valid() {
            Ok(
                Layout {
                    fat_type: self.fat_type(),
                    sector_size: self.bytes_per_sector as u32,
                    sectors_in_cluster: self.sectors_per_cluster as u32,
                    reserved_sector_count: self.reserved_sector_count as u32,
                    fat_size: self.fat_size,
                    root_dir_sectors: self.root_dir_sectors() as u32,
                    root_directory_first_sector: self.root_directory_first_sector() as u32,
                    data_area_first_sector: self.data_area_first_sector() as u32,
                    count_of_clusters: self.count_of_clusters() as u32,
                    root_cluster: if self.fat_type() == FatType::Fat32 {
                        self.root_cluster
                    } else {
                        0
                    },
                },
            )
        } else {
            Err(Error::UnsupportedFatType)
        }
    }

    /// Derives the layout of the volume, or refuses fields that describe
    /// none.
    pub fn layout(&self) -> (r: Result<Layout, Error>)
        ensures
            r == self.spec_layout(),
            r matches Ok(l) ==> {
                &&& is_block_size(l.sector_size as int)
                &&& 1 <= l.sectors_in_cluster <= 255
                &&& l.root_directory_first_sector == self.root_directory_first_sector()
                &&& l.data_area_first_sector == self.data_area_first_sector()
                &&& l.root_dir_sectors == self.root_dir_sectors()
                &&& l.reserved_sector_count + l.fat_size <= u32::MAX
            },
    {
        let size = self.bytes_per_sector as u64;
        if !(size == 512 || size == 1024 || size == 2048 || size == 4096) {
            return Err(Error::UnsupportedFatType);
        }
        if self.sectors_per_cluster == 0 {
            return Err(Error::UnsupportedFatType);
        }
        let root_dir_sectors = (self.root_entry_count as u64 * 32 + (size - 1)) / size;
        assert(self.num_fats * self.fat_size <= 255 * 0xFFFF_FFFF) by (nonlinear_arith)
            requires
                0 <= self.num_fats <= 255,
                0 <= self.fat_size <= 0xFFFF_FFFF,
        ;
        let root_first = self.reserved_sector_count as u64 + self.num_fats as u64
            * self.fat_size as u64;
        let data_first = root_first + root_dir_sectors;
        if data_first > self.total_sectors as u64 {
            return Err(Error::UnsupportedFatType);
        }
        if self.reserved_sector_count as u64 + self.fat_size as u64 > 0xFFFF_FFFF {
            return Err(Error::UnsupportedFatType);
        }
        let data_sectors = self.total_sectors as u64 - data_first;
        let count = data_sectors / self.sectors_per_cluster as u64;
        let fat_type = if count < 4085 {
            FatType::Fat12
        } else if count < 65525 {
            FatType::Fat16
        } else {
            FatType::Fat32
        };
        Ok(
            Layout {
                fat_type,
                sector_size: self.bytes_per_sector as u32,
                sectors_in_cluster: self.sectors_per_cluster as u32,
                reserved_sector_count: self.reserved_sector_count as u32,
                fat_size: self.fat_size,
                root_dir_sectors: root_dir_sectors as u32,
                root_directory_first_sector: root_first as u32,
                data_area_first_sector: data_first as u32,
                count_of_clusters: count as u32,
                root_cluster: match fat_type {
                    FatType::Fat32 => self.root_cluster,
                    _ => 0,
                },
            },
        )
    }
}

} // verus!
