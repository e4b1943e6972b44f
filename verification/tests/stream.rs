use fat_fs::error::Error;
use fat_fs::ram::RamDisk;
use fat_fs::storage::StorageWrite;
use fat_fs::stream::{Stream, StreamPos};
use fat_fs::table::{FatType, FatValue};
use fat_fs::Fs;

/// A volume image that is put together byte by byte.
#[allow(dead_code)]
struct Image {
    bytes: Vec<u8>,
    kind: FatType,
    sector_size: usize,
    sectors_in_cluster: usize,
    reserved: usize,
    fats: usize,
    fat_size: usize,
    root_entries: usize,
}

#[allow(dead_code)]
impl Image {
    /// An image with its boot sector written and everything else zero.
    fn new(
        kind: FatType,
        sector_size: usize,
        sectors_in_cluster: usize,
        reserved: usize,
        fats: usize,
        fat_size: usize,
        root_entries: usize,
        total: usize,
    ) -> Image {
        let mut bytes = vec![0u8; total * sector_size];
        bytes[11..13].copy_from_slice(&(sector_size as u16).to_le_bytes());
        bytes[13] = sectors_in_cluster as u8;
        bytes[14..16].copy_from_slice(&(reserved as u16).to_le_bytes());
        bytes[16] = fats as u8;
        bytes[17..19].copy_from_slice(&(root_entries as u16).to_le_bytes());
        if total < 0x1_0000 {
            bytes[19..21].copy_from_slice(&(total as u16).to_le_bytes());
        } else {
            bytes[32..36].copy_from_slice(&(total as u32).to_le_bytes());
        }
        if fat_size < 0x1_0000 && kind != FatType::Fat32 {
            bytes[22..24].copy_from_slice(&(fat_size as u16).to_le_bytes());
        } else {
            bytes[36..40].copy_from_slice(&(fat_size as u32).to_le_bytes());
        }
        if kind == FatType::Fat32 {
            bytes[44..48].copy_from_slice(&2u32.to_le_bytes());
        }
        Image { bytes, kind, sector_size, sectors_in_cluster, reserved, fats, fat_size, root_entries }
    }

    /// A FAT12 volume of 64 sectors: one reserved, one table of one
    /// sector, a root directory of one sector, clusters of two sectors.
    fn small() -> Image {
        Image::new(FatType::Fat12, 512, 2, 1, 1, 1, 16, 64)
    }

    fn root_first(&self) -> usize {
        self.reserved + self.fats * self.fat_size
    }

    fn data_first(&self) -> usize {
        self.root_first() + (self.root_entries * 32 + self.sector_size - 1) / self.sector_size
    }

    /// The offset of the first byte of `cluster` in the image.
    fn at(&self, cluster: u32) -> usize {
        if cluster == 0 {
            self.root_first() * self.sector_size
        } else {
            (self.data_first() + (cluster as usize - 2) * self.sectors_in_cluster)
                * self.sector_size
        }
    }

    fn cluster_size(&self) -> usize {
        self.sectors_in_cluster * self.sector_size
    }

    fn put(&mut self, at: usize, data: &[u8]) {
        self.bytes[at..at + data.len()].copy_from_slice(data);
    }

    /// Stores the number `raw` as the entry of `cluster` in the first table.
    fn set_fat(&mut self, cluster: u32, raw: u32) {
        let table = self.reserved * self.sector_size;
        let c = cluster as usize;
        match self.kind {
            FatType::Fat32 => self.put(table + 4 * c, &raw.to_le_bytes()),
            FatType::Fat16 => self.put(table + 2 * c, &(raw as u16).to_le_bytes()),
            FatType::Fat12 => {
                let at = table + c + c / 2;
                if c % 2 == 0 {
                    self.bytes[at] = raw as u8;
                    self.bytes[at + 1] = (self.bytes[at + 1] & 0xF0) | ((raw >> 8) as u8 & 0x0F);
                } else {
                    self.bytes[at] = (self.bytes[at] & 0x0F) | ((raw as u8 & 0x0F) << 4);
                    self.bytes[at + 1] = (raw >> 4) as u8;
                }
            },
        }
    }

    /// Links `clusters` into a chain and ends it.
    fn chain(&mut self, clusters: &[u32]) {
        for i in 0..clusters.len() {
            let next = if i + 1 < clusters.len() {
                clusters[i + 1]
            } else {
                0x0FFF_FFFF
            };
            self.set_fat(clusters[i], next);
        }
    }

    /// Writes `data` into the clusters of a chain, one after the other.
    fn fill(&mut self, clusters: &[u32], data: &[u8]) {
        let size = self.cluster_size();
        for (i, part) in data.chunks(size).enumerate() {
            let at = self.at(clusters[i]);
            self.put(at, part);
        }
    }

    /// Writes directory records into the clusters of a chain; cluster 0
    /// stands for the fixed root directory.
    fn records(&mut self, clusters: &[u32], records: &[[u8; 32]]) {
        let mut data = Vec::new();
        for r in records {
            data.extend_from_slice(r);
        }
        if clusters == [0] {
            let at = self.at(0);
            self.put(at, &data);
        } else {
            self.fill(clusters, &data);
        }
    }

    fn disk(&self) -> RamDisk {
        RamDisk::from_bytes(&self.bytes, self.sector_size as u32).unwrap()
    }

    fn mount(&self) -> Fs<RamDisk> {
        Fs::new(self.disk()).unwrap()
    }
}

/// A short record: eleven name bytes, attributes, first cluster and size.
#[allow(dead_code)]
fn short(name: &[u8; 11], attr: u8, cluster: u32, size: u32) -> [u8; 32] {
    let mut r = [0u8; 32];
    r[..11].copy_from_slice(name);
    r[11] = attr;
    r[20..22].copy_from_slice(&((cluster >> 16) as u16).to_le_bytes());
    r[26..28].copy_from_slice(&(cluster as u16).to_le_bytes());
    r[28..32].copy_from_slice(&size.to_le_bytes());
    r
}

#[allow(dead_code)]
const LFN_PLACES: [usize; 13] = [1, 3, 5, 7, 9, 14, 16, 18, 20, 22, 24, 28, 30];

/// The long-name record number `number` of `count` for `name`, with the
/// checksum `sum`.
#[allow(dead_code)]
fn long_record(name: &[u8], sum: u8, number: usize, count: usize) -> [u8; 32] {
    let mut r = [0u8; 32];
    r[0] = number as u8;
    if number == count {
        r[0] |= 0x40;
    }
    r[11] = 0x0F;
    r[13] = sum;
    for (i, &place) in LFN_PLACES.iter().enumerate() {
        let at = (number - 1) * 13 + i;
        if at < name.len() {
            r[place] = name[at];
        } else if at == name.len() {
            r[place] = 0;
        } else {
            r[place] = 0xFF;
            r[place + 1] = 0xFF;
        }
    }
    r
}

/// The long-name records for `name` in the order in which they stand in
/// a directory: the last one first.
#[allow(dead_code)]
fn long(name: &[u8], sum: u8) -> Vec<[u8; 32]> {
    let count = (name.len() + 12) / 13;
    (1..=count).rev().map(|k| long_record(name, sum, k, count)).collect()
}

/// A small volume whose clusters 2, 5 and 3 form a chain that holds the
/// bytes 0, 1, 2, ... modulo 251.
fn volume() -> (Fs<RamDisk>, Vec<u8>) {
    let mut image = Image::small();
    image.chain(&[2, 5, 3]);
    let data: Vec<u8> = (0..3 * 1024).map(|i| (i % 251) as u8).collect();
    image.fill(&[2, 5, 3], &data);
    (image.mount(), data)
}

/// Reads until `want` bytes have come or the stream fails.
fn read_all(stream: &mut Stream, fs: &mut Fs<RamDisk>, want: usize) -> Vec<u8> {
    let mut out = Vec::new();
    let mut buf = [0u8; 100];
    while out.len() < want {
        let room = (want - out.len()).min(100);
        match stream.read(fs, &mut buf[..room]) {
            Ok(n) => out.extend_from_slice(&buf[..n]),
            Err(_) => break,
        }
    }
    out
}

#[test]
fn new_stream_stands_at_the_start() {
    let (fs, _) = volume();
    let s = Stream::new(&fs, 2, false);
    assert_eq!(s.first_cluster, 2);
    assert_eq!(s.current_cluster, 2);
    assert_eq!(s.sector_in_cluster, 0);
    assert_eq!(s.offset_in_sector, 0);
    assert_eq!(s.global_offset, 0);
    assert!(!s.linear);
    let root = Stream::new(&fs, 0, true);
    assert!(root.linear);
    assert_eq!(root.current_cluster, 0);
}

#[test]
fn read_hands_out_the_bytes_of_the_chain() {
    let (mut fs, data) = volume();
    let mut s = Stream::new(&fs, 2, false);
    assert_eq!(read_all(&mut s, &mut fs, 3 * 1024), data);
    assert_eq!(s.global_offset, 3 * 1024);
    assert_eq!(s.current_cluster, 3);
}

#[test]
fn read_stops_at_the_end_of_the_sector() {
    let (mut fs, data) = volume();
    let mut s = Stream::new(&fs, 2, false);
    let mut buf = [0xEEu8; 600];
    assert_eq!(s.read(&mut fs, &mut buf[..500]), Ok(500));
    assert_eq!(buf[..500], data[..500]);
    assert_eq!(buf[500..], [0xEEu8; 100]);
    assert_eq!(s.read(&mut fs, &mut buf), Ok(12));
    assert_eq!(buf[..12], data[500..512]);
    assert_eq!(s.offset_in_sector, 512);
    assert_eq!(s.sector_in_cluster, 0);
    assert_eq!(s.global_offset, 512);
    assert_eq!(s.read(&mut fs, &mut buf), Ok(512));
    assert_eq!(buf[..512], data[512..1024]);
    assert_eq!(s.sector_in_cluster, 1);
    assert_eq!(s.offset_in_sector, 512);
}

#[test]
fn read_across_a_cluster_boundary_moves_to_the_successor() {
    let (mut fs, data) = volume();
    let mut s = Stream::new(&fs, 2, false);
    assert_eq!(s.seek(&mut fs, StreamPos::Start(1020)), Ok(1020));
    let mut buf = [0u8; 8];
    assert_eq!(s.read(&mut fs, &mut buf), Ok(4));
    assert_eq!(buf[..4], data[1020..1024]);
    assert_eq!(s.current_cluster, 2);
    assert_eq!(s.sector_in_cluster, 1);
    assert_eq!(s.offset_in_sector, 512);
    assert_eq!(s.read(&mut fs, &mut buf), Ok(8));
    assert_eq!(buf[..], data[1024..1032]);
    assert_eq!(s.current_cluster, 5);
    assert_eq!(s.sector_in_cluster, 0);
    assert_eq!(s.offset_in_sector, 8);
    assert_eq!(s.global_offset, 1032);
}

#[test]
fn read_of_nothing_moves_nothing() {
    let (mut fs, _) = volume();
    let mut s = Stream::new(&fs, 2, false);
    let mut none = [0u8; 0];
    assert_eq!(s.read(&mut fs, &mut none), Ok(0));
    assert_eq!(s.global_offset, 0);
    assert_eq!(s.write(&mut fs, &none), Ok(0));
    assert_eq!(s.global_offset, 0);
}

#[test]
fn read_at_the_end_of_the_chain_is_end_of_stream() {
    let (mut fs, _) = volume();
    let mut s = Stream::new(&fs, 2, false);
    read_all(&mut s, &mut fs, 3 * 1024);
    let there = s;
    let mut buf = [7u8; 4];
    assert_eq!(s.read(&mut fs, &mut buf), Err(Error::EndOfStream));
    assert_eq!(s, there);
    assert_eq!(buf, [7u8; 4]);
    assert_eq!(s.read(&mut fs, &mut buf), Err(Error::EndOfStream));
    assert_eq!(s.write(&mut fs, &buf), Err(Error::EndOfStream));
}

#[test]
fn a_chain_that_runs_into_a_free_or_bad_entry_ends() {
    for raw in [0u32, 0xFF7] {
        let mut image = Image::small();
        image.chain(&[2, 5]);
        image.set_fat(5, raw);
        let mut fs = image.mount();
        let mut s = Stream::new(&fs, 2, false);
        assert_eq!(read_all(&mut s, &mut fs, 4096).len(), 2048);
        let mut buf = [0u8; 4];
        assert_eq!(s.read(&mut fs, &mut buf), Err(Error::EndOfStream));
    }
}

#[test]
fn a_cluster_outside_the_disk_is_out_of_range() {
    let mut image = Image::small();
    image.set_fat(2, 400);
    let mut fs = image.mount();
    let mut s = Stream::new(&fs, 2, false);
    let mut buf = [0u8; 4];
    assert_eq!(read_all(&mut s, &mut fs, 4096).len(), 1024);
    let there = s;
    // The first sector of cluster 400, sector 799, lies beyond the disk.
    assert_eq!(s.read(&mut fs, &mut buf), Err(Error::OutOfRange));
    assert_eq!(s, there);
    let mut far = Stream::new(&fs, 400, false);
    assert_eq!(far.read(&mut fs, &mut buf), Err(Error::OutOfRange));
    assert_eq!(far.write(&mut fs, &buf), Err(Error::OutOfRange));
    let mut one = Stream::new(&fs, 1, false);
    assert_eq!(one.read(&mut fs, &mut buf), Err(Error::OutOfRange));
}

#[test]
fn a_cluster_outside_the_table_is_out_of_range() {
    // Clusters of one sector on a disk of 1000 sectors, and a table of
    // one sector, which has entries for the clusters below 341.
    let image = Image::new(FatType::Fat12, 512, 1, 1, 1, 1, 16, 1000);
    let mut fs = image.mount();
    let mut s = Stream::new(&fs, 500, false);
    assert_eq!(read_all(&mut s, &mut fs, 4096).len(), 512);
    let mut buf = [0u8; 4];
    assert_eq!(s.read(&mut fs, &mut buf), Err(Error::OutOfRange));
    assert_eq!(s.seek(&mut fs, StreamPos::Start(512)), Err(Error::OutOfRange));
}

#[test]
fn linear_stream_reads_the_root_region_sector_by_sector() {
    let mut image = Image::small();
    let at = image.at(0);
    let data: Vec<u8> = (0..1500).map(|i| (i % 199) as u8).collect();
    image.put(at, &data);
    let mut fs = image.mount();
    let mut s = Stream::new(&fs, 0, true);
    assert_eq!(read_all(&mut s, &mut fs, 1500), data);
    assert_eq!(s.current_cluster, 0);
    assert_eq!(s.sector_in_cluster, 2);
    assert_eq!(s.offset_in_sector, 1500 - 1024);
    assert_eq!(s.global_offset, 1500);
}

#[test]
fn seek_current_zero_reports_the_position_and_changes_nothing() {
    let (mut fs, _) = volume();
    let mut s = Stream::new(&fs, 2, false);
    assert_eq!(s.seek(&mut fs, StreamPos::Current(0)), Ok(0));
    read_all(&mut s, &mut fs, 1024);
    let there = s;
    assert_eq!(there.offset_in_sector, 512);
    assert_eq!(s.seek(&mut fs, StreamPos::Current(0)), Ok(1024));
    assert_eq!(s, there);
    assert_eq!(s.seek(&mut fs, StreamPos::Current(0)), Ok(1024));
    assert_eq!(s, there);
}

#[test]
fn seek_start_then_current_zero_gives_the_position() {
    let (mut fs, data) = volume();
    for p in [0u32, 1, 511, 512, 513, 1023, 1024, 1025, 2047, 2048, 3000, 3071] {
        let mut s = Stream::new(&fs, 2, false);
        assert_eq!(s.seek(&mut fs, StreamPos::Start(p)), Ok(p));
        assert_eq!(s.seek(&mut fs, StreamPos::Current(0)), Ok(p));
        assert_eq!(s.global_offset, p);
        assert_eq!(s.sector_in_cluster, (p % 1024) / 512);
        assert_eq!(s.offset_in_sector, (p % 512) as usize);
        assert_eq!(s.current_cluster, [2, 5, 3][(p / 1024) as usize]);
        let mut buf = [0u8; 1];
        assert_eq!(s.read(&mut fs, &mut buf), Ok(1));
        assert_eq!(buf[0], data[p as usize]);
    }
}

#[test]
fn seek_to_the_end_of_the_chain_fails() {
    let (mut fs, _) = volume();
    let mut s = Stream::new(&fs, 2, false);
    assert_eq!(s.seek(&mut fs, StreamPos::Start(3072)), Err(Error::EndOfStream));
    assert_eq!(s.seek(&mut fs, StreamPos::Start(100_000)), Err(Error::EndOfStream));
    assert_eq!(s, Stream::new(&fs, 2, false));
}

#[test]
fn seek_backwards_walks_the_chain_from_its_first_cluster() {
    let (mut fs, data) = volume();
    let mut s = Stream::new(&fs, 2, false);
    assert_eq!(s.seek(&mut fs, StreamPos::Start(2700)), Ok(2700));
    assert_eq!(s.current_cluster, 3);
    assert_eq!(s.seek(&mut fs, StreamPos::Start(1600)), Ok(1600));
    assert_eq!(s.current_cluster, 5);
    assert_eq!(s.sector_in_cluster, 1);
    assert_eq!(s.offset_in_sector, 64);
    let mut buf = [0u8; 2];
    assert_eq!(s.read(&mut fs, &mut buf), Ok(2));
    assert_eq!(buf[..], data[1600..1602]);
    assert_eq!(s.seek(&mut fs, StreamPos::Start(3)), Ok(3));
    assert_eq!(s.current_cluster, 2);
    assert_eq!(s.sector_in_cluster, 0);
    assert_eq!(s.offset_in_sector, 3);
}

#[test]
fn seek_relative_to_the_position() {
    let (mut fs, data) = volume();
    let mut s = Stream::new(&fs, 2, false);
    assert_eq!(s.seek(&mut fs, StreamPos::Current(1500)), Ok(1500));
    assert_eq!(s.seek(&mut fs, StreamPos::Current(-1000)), Ok(500));
    assert_eq!(s.seek(&mut fs, StreamPos::Current(10)), Ok(510));
    let mut buf = [0u8; 4];
    assert_eq!(s.read(&mut fs, &mut buf), Ok(2));
    assert_eq!(buf[..2], data[510..512]);
    assert_eq!(s.seek(&mut fs, StreamPos::Current(-513)), Err(Error::OutOfRange));
    assert_eq!(s.global_offset, 512);
    assert_eq!(s.seek(&mut fs, StreamPos::Current(-512)), Ok(0));
    assert_eq!(s.seek(&mut fs, StreamPos::Current(-1)), Err(Error::OutOfRange));
    assert_eq!(s.seek(&mut fs, StreamPos::Current(i32::MIN)), Err(Error::OutOfRange));
}

#[test]
fn seek_from_the_end_of_a_cluster_finds_the_next_one() {
    let (mut fs, data) = volume();
    let mut s = Stream::new(&fs, 2, false);
    read_all(&mut s, &mut fs, 1024);
    assert_eq!(s.current_cluster, 2);
    assert_eq!(s.seek(&mut fs, StreamPos::Current(5)), Ok(1029));
    assert_eq!(s.current_cluster, 5);
    let mut buf = [0u8; 1];
    assert_eq!(s.read(&mut fs, &mut buf), Ok(1));
    assert_eq!(buf[0], data[1029]);
}

#[test]
fn seek_from_the_end_is_not_implemented() {
    let (mut fs, _) = volume();
    let mut s = Stream::new(&fs, 2, false);
    assert_eq!(s.seek(&mut fs, StreamPos::End(0)), Err(Error::Unimplemented));
    assert_eq!(s.seek(&mut fs, StreamPos::End(-5)), Err(Error::Unimplemented));
}

#[test]
fn seek_in_a_linear_stream_addresses_sectors() {
    let mut image = Image::small();
    let at = image.at(0);
    let data: Vec<u8> = (0..2048).map(|i| (i % 199) as u8).collect();
    image.put(at, &data);
    let mut fs = image.mount();
    let mut s = Stream::new(&fs, 0, true);
    assert_eq!(s.seek(&mut fs, StreamPos::Start(1500)), Ok(1500));
    assert_eq!(s.sector_in_cluster, 2);
    assert_eq!(s.offset_in_sector, 476);
    let mut buf = [0u8; 3];
    assert_eq!(s.read(&mut fs, &mut buf), Ok(3));
    assert_eq!(buf[..], data[1500..1503]);
    assert_eq!(s.seek(&mut fs, StreamPos::Start(2)), Ok(2));
    assert_eq!(s.read(&mut fs, &mut buf), Ok(3));
    assert_eq!(buf[..], data[2..5]);
}

#[test]
fn get_cluster_follows_the_chain() {
    let (mut fs, _) = volume();
    assert_eq!(Stream::get_cluster(&mut fs, 2, 0), Ok(FatValue::Next(2)));
    assert_eq!(Stream::get_cluster(&mut fs, 2, 1), Ok(FatValue::Next(5)));
    assert_eq!(Stream::get_cluster(&mut fs, 2, 2), Ok(FatValue::Next(3)));
    assert_eq!(Stream::get_cluster(&mut fs, 2, 3), Ok(FatValue::Last));
    assert_eq!(Stream::get_cluster(&mut fs, 2, 1000), Ok(FatValue::Last));
    assert_eq!(Stream::get_cluster(&mut fs, 7, 1), Ok(FatValue::Free));
    assert_eq!(Stream::get_cluster(&mut fs, 400, 1), Err(Error::OutOfRange));
    assert_eq!(Stream::get_cluster(&mut fs, 400, 0), Ok(FatValue::Next(400)));
}

#[test]
fn write_replaces_the_bytes_at_the_position() {
    let (mut fs, mut data) = volume();
    let mut s = Stream::new(&fs, 2, false);
    assert_eq!(s.seek(&mut fs, StreamPos::Start(1020)), Ok(1020));
    let new = [0xA0u8, 0xA1, 0xA2, 0xA3, 0xA4, 0xA5, 0xA6, 0xA7];
    assert_eq!(s.write(&mut fs, &new), Ok(4));
    assert_eq!(s.global_offset, 1024);
    assert_eq!(s.write(&mut fs, &new[4..]), Ok(4));
    assert_eq!(s.current_cluster, 5);
    assert_eq!(s.global_offset, 1028);
    data[1020..1028].copy_from_slice(&new);
    let mut back = Stream::new(&fs, 2, false);
    assert_eq!(read_all(&mut back, &mut fs, 3072), data);
    assert_eq!(fs.storage.flush(), Ok(()));
    // Cluster 2 starts at sector 3, cluster 5 at sector 9.
    assert_eq!(fs.storage.io().sector(4).unwrap()[508..], new[..4]);
    assert_eq!(fs.storage.io().sector(9).unwrap()[..4], new[4..]);
}

#[test]
fn a_failing_device_fails_the_read_and_leaves_the_stream() {
    let mut image = Image::small();
    image.chain(&[2, 5, 3]);
    let mut disk = image.disk();
    // Cluster 5 lies in sectors 9 and 10.
    disk.set_first_bad(9);
    let mut fs = Fs::new(disk).unwrap();
    let mut s = Stream::new(&fs, 2, false);
    assert_eq!(read_all(&mut s, &mut fs, 4096).len(), 1024);
    let there = s;
    let mut buf = [3u8; 4];
    assert_eq!(s.read(&mut fs, &mut buf), Err(Error::Io));
    assert_eq!(s, there);
    assert_eq!(buf, [3u8; 4]);
    assert_eq!(s.seek(&mut fs, StreamPos::Start(100)), Ok(100));
    assert_eq!(s.read(&mut fs, &mut buf), Ok(4));
}

#[test]
fn a_position_beyond_32_bits_ends_the_stream() {
    let (mut fs, data) = volume();
    let mut s = Stream {
        first_cluster: 2,
        current_cluster: 2,
        sector_in_cluster: 0,
        offset_in_sector: 500,
        global_offset: 0xFFFF_FFFF - 5,
        linear: false,
    };
    let mut buf = [0u8; 8];
    assert_eq!(s.read(&mut fs, &mut buf), Err(Error::EndOfStream));
    assert_eq!(s.global_offset, 0xFFFF_FFFF - 5);
    assert_eq!(s.read(&mut fs, &mut buf[..5]), Ok(5));
    assert_eq!(buf[..5], data[500..505]);
    assert_eq!(s.global_offset, 0xFFFF_FFFF);
    assert_eq!(s.read(&mut fs, &mut buf[..1]), Err(Error::EndOfStream));
    assert_eq!(s.seek(&mut fs, StreamPos::Current(1)), Err(Error::OutOfRange));
    assert_eq!(s.seek(&mut fs, StreamPos::Current(i32::MAX)), Err(Error::OutOfRange));
    assert_eq!(s.seek(&mut fs, StreamPos::Current(0)), Ok(0xFFFF_FFFF));
}

#[test]
fn reads_within_one_sector_need_the_device_once() {
    let mut image = Image::small();
    image.chain(&[2]);
    let mut disk = image.disk();
    disk.set_read_only(true);
    let mut fs = Fs::new(disk).unwrap();
    let mut s = Stream::new(&fs, 2, false);
    // A write makes the sector dirty; the device refuses to take it back,
    // so nothing but this sector can be reached from now on.
    assert_eq!(s.write(&mut fs, &[1, 2, 3]), Ok(3));
    let mut buf = [0u8; 4];
    for _ in 0..100 {
        assert_eq!(s.read(&mut fs, &mut buf), Ok(4));
    }
    assert_eq!(s.seek(&mut fs, StreamPos::Start(0)), Ok(0));
    assert_eq!(s.read(&mut fs, &mut buf), Ok(4));
    assert_eq!(buf, [1, 2, 3, 0]);
    assert_eq!(s.seek(&mut fs, StreamPos::Start(512)), Ok(512));
    assert_eq!(s.read(&mut fs, &mut buf), Err(Error::Io));
    assert_eq!(s.seek(&mut fs, StreamPos::Start(2048)), Err(Error::Io));
    assert_eq!(s.seek(&mut fs, StreamPos::Start(3)), Ok(3));
    assert_eq!(s.read(&mut fs, &mut buf), Ok(4));
    assert_eq!(buf, [0, 0, 0, 0]);
}

#[test]
fn read_at_fills_a_part_of_the_buffer() {
    let (mut fs, data) = volume();
    let mut s = Stream::new(&fs, 2, false);
    let mut buf = [0xEEu8; 10];
    assert_eq!(s.read_at(&mut fs, &mut buf, 3, 4), Ok(4));
    assert_eq!(buf[..3], [0xEE; 3]);
    assert_eq!(buf[3..7], data[..4]);
    assert_eq!(buf[7..], [0xEE; 3]);
    assert_eq!(s.seek(&mut fs, StreamPos::Start(510)), Ok(510));
    assert_eq!(s.read_at(&mut fs, &mut buf, 0, 10), Ok(2));
    assert_eq!(buf[..2], data[510..512]);
    assert_eq!(buf[2], 0xEE);
    assert_eq!(buf[3..7], data[..4]);
    assert_eq!(buf[7..], [0xEE; 3]);
}

#[test]
fn a_walk_of_no_steps_does_not_ask_the_table() {
    let mut image = Image::small();
    image.chain(&[2, 5]);
    let mut disk = image.disk();
    // The table lies in sector 1.
    disk.set_first_bad(1);
    let mut fs = Fs::new(disk).unwrap();
    assert_eq!(Stream::get_cluster(&mut fs, 2, 0), Ok(FatValue::Next(2)));
    assert_eq!(Stream::get_cluster(&mut fs, 400, 0), Ok(FatValue::Next(400)));
    assert_eq!(Stream::get_cluster(&mut fs, 2, 1), Err(Error::Io));
    assert_eq!(fs.entry(2), Err(Error::Io));
    assert_eq!(fs.entry(341), Err(Error::OutOfRange));
}

#[test]
fn entries_in_the_resident_sector_need_no_device() {
    let mut image = Image::small();
    image.chain(&[2, 5, 3]);
    let mut disk = image.disk();
    disk.set_read_only(true);
    let mut fs = Fs::new(disk).unwrap();
    // A stored entry stays in the cache: the device takes nothing back.
    let table = fs.table;
    assert_eq!(table.set(&mut fs.storage, 3, FatValue::Next(7)), Ok(()));
    assert_eq!(fs.entry(2), Ok(FatValue::Next(5)));
    assert_eq!(fs.entry(3), Ok(FatValue::Next(7)));
    assert_eq!(Stream::get_cluster(&mut fs, 2, 3), Ok(FatValue::Next(7)));
    assert_eq!(Stream::get_cluster(&mut fs, 2, 4), Ok(FatValue::Free));
    let mut s = Stream::new(&fs, 2, false);
    assert_eq!(s.seek(&mut fs, StreamPos::Start(3 * 1024 + 5)), Ok(3 * 1024 + 5));
    assert_eq!(s.current_cluster, 7);
    let mut buf = [0u8; 1];
    assert_eq!(s.read(&mut fs, &mut buf), Err(Error::Io));
}
