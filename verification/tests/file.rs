use fat_fs::error::Error;
use fat_fs::file::File;
use fat_fs::ram::RamDisk;
use fat_fs::stream::{Stream, StreamPos};
use fat_fs::table::FatType;
use fat_fs::Fs;

/// A volume image that is put together byte by byte.
#[allow(dead_code)]
struct Image {
    bytes: Vec<u8>,
    kind: FatType,
    sector_size: usize,
    sectors_in_cluster: usize,
    reserved: usize,
    fats: usize,
    fat_size: usize,
    root_entries: usize,
}

#[allow(dead_code)]
impl Image {
    /// An image with its boot sector written and everything else zero.
    fn new(
        kind: FatType,
        sector_size: usize,
        sectors_in_cluster: usize,
        reserved: usize,
        fats: usize,
        fat_size: usize,
        root_entries: usize,
        total: usize,
    ) -> Image {
        let mut bytes = vec![0u8; total * sector_size];
        bytes[11..13].copy_from_slice(&(sector_size as u16).to_le_bytes());
        bytes[13] = sectors_in_cluster as u8;
        bytes[14..16].copy_from_slice(&(reserved as u16).to_le_bytes());
        bytes[16] = fats as u8;
        bytes[17..19].copy_from_slice(&(root_entries as u16).to_le_bytes());
        if total < 0x1_0000 {
            bytes[19..21].copy_from_slice(&(total as u16).to_le_bytes());
        } else {
            bytes[32..36].copy_from_slice(&(total as u32).to_le_bytes());
        }
        if fat_size < 0x1_0000 && kind != FatType::Fat32 {
            bytes[22..24].copy_from_slice(&(fat_size as u16).to_le_bytes());
        } else {
            bytes[36..40].copy_from_slice(&(fat_size as u32).to_le_bytes());
        }
        if kind == FatType::Fat32 {
            bytes[44..48].copy_from_slice(&2u32.to_le_bytes());
        }
        Image { bytes, kind, sector_size, sectors_in_cluster, reserved, fats, fat_size, root_entries }
    }

    /// A FAT12 volume of 64 sectors: one reserved, one table of one
    /// sector, a root directory of one sector, clusters of two sectors.
    fn small() -> Image {
        Image::new(FatType::Fat12, 512, 2, 1, 1, 1, 16, 64)
    }

    fn root_first(&self) -> usize {
        self.reserved + self.fats * self.fat_size
    }

    fn data_first(&self) -> usize {
        self.root_first() + (self.root_entries * 32 + self.sector_size - 1) / self.sector_size
    }

    /// The offset of the first byte of `cluster` in the image.
    fn at(&self, cluster: u32) -> usize {
        if cluster == 0 {
            self.root_first() * self.sector_size
        } else {
            (self.data_first() + (cluster as usize - 2) * self.sectors_in_cluster)
                * self.sector_size
        }
    }

    fn cluster_size(&self) -> usize {
        self.sectors_in_cluster * self.sector_size
    }

    fn put(&mut self, at: usize, data: &[u8]) {
        self.bytes[at..at + data.len()].copy_from_slice(data);
    }

    /// Stores the number `raw` as the entry of `cluster` in the first table.
    fn set_fat(&mut self, cluster: u32, raw: u32) {
        let table = self.reserved * self.sector_size;
        let c = cluster as usize;
        match self.kind {
            FatType::Fat32 => self.put(table + 4 * c, &raw.to_le_bytes()),
            FatType::Fat16 => self.put(table + 2 * c, &(raw as u16).to_le_bytes()),
            FatType::Fat12 => {
                let at = table + c + c / 2;
                if c % 2 == 0 {
                    self.bytes[at] = raw as u8;
                    self.bytes[at + 1] = (self.bytes[at + 1] & 0xF0) | ((raw >> 8) as u8 & 0x0F);
                } else {
                    self.bytes[at] = (self.bytes[at] & 0x0F) | ((raw as u8 & 0x0F) << 4);
                    self.bytes[at + 1] = (raw >> 4) as u8;
                }
            },
        }
    }

    /// Links `clusters` into a chain and ends it.
    fn chain(&mut self, clusters: &[u32]) {
        for i in 0..clusters.len() {
            let next = if i + 1 < clusters.len() {
                clusters[i + 1]
            } else {
                0x0FFF_FFFF
            };
            self.set_fat(clusters[i], next);
        }
    }

    /// Writes `data` into the clusters of a chain, one after the other.
    fn fill(&mut self, clusters: &[u32], data: &[u8]) {
        let size = self.cluster_size();
        for (i, part) in data.chunks(size).enumerate() {
            let at = self.at(clusters[i]);
            self.put(at, part);
        }
    }

    /// Writes directory records into the clusters of a chain; cluster 0
    /// stands for the fixed root directory.
    fn records(&mut self, clusters: &[u32], records: &[[u8; 32]]) {
        let mut data = Vec::new();
        for r in records {
            data.extend_from_slice(r);
        }
        if clusters == [0] {
            let at = self.at(0);
            self.put(at, &data);
        } else {
            self.fill(clusters, &data);
        }
    }

    fn disk(&self) -> RamDisk {
        RamDisk::from_bytes(&self.bytes, self.sector_size as u32).unwrap()
    }

    fn mount(&self) -> Fs<RamDisk> {
        Fs::new(self.disk()).unwrap()
    }
}

/// A short record: eleven name bytes, attributes, first cluster and size.
#[allow(dead_code)]
fn short(name: &[u8; 11], attr: u8, cluster: u32, size: u32) -> [u8; 32] {
    let mut r = [0u8; 32];
    r[..11].copy_from_slice(name);
    r[11] = attr;
    r[20..22].copy_from_slice(&((cluster >> 16) as u16).to_le_bytes());
    r[26..28].copy_from_slice(&(cluster as u16).to_le_bytes());
    r[28..32].copy_from_slice(&size.to_le_bytes());
    r
}

#[allow(dead_code)]
const LFN_PLACES: [usize; 13] = [1, 3, 5, 7, 9, 14, 16, 18, 20, 22, 24, 28, 30];

/// The long-name record number `number` of `count` for `name`, with the
/// checksum `sum`.
#[allow(dead_code)]
fn long_record(name: &[u8], sum: u8, number: usize, count: usize) -> [u8; 32] {
    let mut r = [0u8; 32];
    r[0] = number as u8;
    if number == count {
        r[0] |= 0x40;
    }
    r[11] = 0x0F;
    r[13] = sum;
    for (i, &place) in LFN_PLACES.iter().enumerate() {
        let at = (number - 1) * 13 + i;
        if at < name.len() {
            r[place] = name[at];
        } else if at == name.len() {
            r[place] = 0;
        } else {
            r[place] = 0xFF;
            r[place + 1] = 0xFF;
        }
    }
    r
}

/// The long-name records for `name` in the order in which they stand in
/// a directory: the last one first.
#[allow(dead_code)]
fn long(name: &[u8], sum: u8) -> Vec<[u8; 32]> {
    let count = (name.len() + 12) / 13;
    (1..=count).rev().map(|k| long_record(name, sum, k, count)).collect()
}

/// A file of `size` bytes in the chain 2, 5, 3, 9 of the small volume,
/// which holds 4096 bytes.
fn file_of(size: u32) -> (Fs<RamDisk>, File, Vec<u8>) {
    let mut image = Image::small();
    image.chain(&[2, 5, 3, 9]);
    let data: Vec<u8> = (0..4096).map(|i| (i % 241) as u8).collect();
    image.fill(&[2, 5, 3, 9], &data);
    let fs = image.mount();
    let file = File::new(Stream::new(&fs, 2, false), size);
    (fs, file, data)
}

#[test]
fn new_file_stands_at_its_first_byte() {
    let (fs, file, _) = file_of(100);
    assert_eq!(file.size, 100);
    assert_eq!(file.stream, Stream::new(&fs, 2, false));
}

#[test]
fn read_fills_the_buffer_across_sectors_and_clusters() {
    let (mut fs, mut file, data) = file_of(4000);
    let mut buf = vec![0u8; 3000];
    assert_eq!(file.read(&mut fs, &mut buf), Ok(3000));
    assert_eq!(buf[..], data[..3000]);
    assert_eq!(file.stream.global_offset, 3000);
    assert_eq!(file.stream.current_cluster, 3);
    let mut buf = vec![0xEEu8; 3000];
    assert_eq!(file.read(&mut fs, &mut buf), Ok(1000));
    assert_eq!(buf[..1000], data[3000..4000]);
    assert_eq!(buf[1000..], [0xEEu8; 2000]);
    assert_eq!(file.read(&mut fs, &mut buf), Err(Error::EndOfStream));
}

#[test]
fn a_file_is_read_in_as_many_calls_as_its_size_asks_for() {
    for (size, room) in [(1000usize, 100usize), (1000, 300), (1024, 512), (1, 1), (4096, 4096), (4095, 7), (513, 512), (100, 1000)] {
        let (mut fs, mut file, data) = file_of(size as u32);
        let mut buf = vec![0u8; room];
        let mut out = Vec::new();
        let mut calls = 0;
        loop {
            match file.read(&mut fs, &mut buf) {
                Ok(n) => {
                    assert!(n > 0);
                    out.extend_from_slice(&buf[..n]);
                    calls += 1;
                },
                Err(e) => {
                    assert_eq!(e, Error::EndOfStream);
                    break;
                },
            }
        }
        assert_eq!(out, data[..size]);
        assert_eq!(calls, (size + room - 1) / room);
        assert_eq!(file.read(&mut fs, &mut buf), Err(Error::EndOfStream));
    }
}

#[test]
fn read_at_the_end_of_the_file_is_end_of_stream() {
    let (mut fs, mut file, _) = file_of(10);
    let mut buf = [5u8; 10];
    assert_eq!(file.read(&mut fs, &mut buf), Ok(10));
    let there = file.stream;
    buf = [5u8; 10];
    assert_eq!(file.read(&mut fs, &mut buf), Err(Error::EndOfStream));
    assert_eq!(buf, [5u8; 10]);
    assert_eq!(file.stream, there);
    let mut none = [0u8; 0];
    assert_eq!(file.read(&mut fs, &mut none), Err(Error::EndOfStream));
}

#[test]
fn an_empty_file_has_nothing_to_read() {
    let (mut fs, mut file, _) = file_of(0);
    let mut buf = [5u8; 10];
    assert_eq!(file.read(&mut fs, &mut buf), Err(Error::EndOfStream));
    let mut empty = File::new(Stream::new(&fs, 0, true), 0);
    assert_eq!(empty.read(&mut fs, &mut buf), Err(Error::EndOfStream));
}

#[test]
fn read_behind_the_end_of_the_file_is_end_of_stream() {
    let (mut fs, mut file, _) = file_of(600);
    assert_eq!(file.seek(&mut fs, StreamPos::Start(700)), Ok(700));
    let mut buf = [5u8; 10];
    assert_eq!(file.read(&mut fs, &mut buf), Err(Error::EndOfStream));
    assert_eq!(buf, [5u8; 10]);
}

#[test]
fn read_into_an_empty_buffer_moves_nothing() {
    let (mut fs, mut file, _) = file_of(600);
    let mut none = [0u8; 0];
    assert_eq!(file.read(&mut fs, &mut none), Ok(0));
    assert_eq!(file.stream.global_offset, 0);
}

#[test]
fn seek_returns_the_new_position() {
    let (mut fs, mut file, data) = file_of(4000);
    assert_eq!(file.seek(&mut fs, StreamPos::Start(2500)), Ok(2500));
    assert_eq!(file.seek(&mut fs, StreamPos::Current(0)), Ok(2500));
    assert_eq!(file.seek(&mut fs, StreamPos::Current(-500)), Ok(2000));
    assert_eq!(file.seek(&mut fs, StreamPos::Current(42)), Ok(2042));
    let mut buf = [0u8; 4];
    assert_eq!(file.read(&mut fs, &mut buf), Ok(4));
    assert_eq!(buf[..], data[2042..2046]);
    assert_eq!(file.seek(&mut fs, StreamPos::End(0)), Err(Error::Unimplemented));
    assert_eq!(file.seek(&mut fs, StreamPos::Current(-5000)), Err(Error::OutOfRange));
    assert_eq!(file.seek(&mut fs, StreamPos::Start(5000)), Err(Error::EndOfStream));
    assert_eq!(file.seek(&mut fs, StreamPos::Current(0)), Ok(2046));
}

#[test]
fn a_chain_shorter_than_the_size_gives_what_it_has() {
    let mut image = Image::small();
    image.chain(&[2, 5]);
    let data: Vec<u8> = (0..2048).map(|i| (i % 241) as u8).collect();
    image.fill(&[2, 5], &data);
    let mut fs = image.mount();
    let mut file = File::new(Stream::new(&fs, 2, false), 3000);
    let mut buf = vec![0u8; 3000];
    assert_eq!(file.read(&mut fs, &mut buf), Ok(2048));
    assert_eq!(buf[..2048], data[..]);
    let there = file.stream;
    assert_eq!(file.read(&mut fs, &mut buf), Err(Error::EndOfStream));
    assert_eq!(file.stream, there);
}

#[test]
fn a_failing_device_fails_the_read_or_cuts_it_short() {
    let mut image = Image::small();
    image.chain(&[2, 5, 3, 9]);
    let mut disk = image.disk();
    // Cluster 5 lies in sectors 9 and 10, behind cluster 2 in sectors 3 and 4.
    disk.set_first_bad(9);
    let mut fs = Fs::new(disk).unwrap();
    let mut file = File::new(Stream::new(&fs, 2, false), 4000);
    let mut buf = vec![7u8; 3000];
    assert_eq!(file.read(&mut fs, &mut buf), Ok(1024));
    assert_eq!(buf[1024..], [7u8; 1976]);
    let there = file.stream;
    buf = vec![7u8; 3000];
    assert_eq!(file.read(&mut fs, &mut buf), Err(Error::Io));
    assert_eq!(buf, vec![7u8; 3000]);
    assert_eq!(file.stream, there);
}

#[test]
fn close_takes_the_file() {
    let (_, file, _) = file_of(10);
    file.close();
}

#[test]
fn a_read_in_the_resident_sector_needs_no_device() {
    let mut image = Image::small();
    image.chain(&[2, 5]);
    let data: Vec<u8> = (0..2048).map(|i| (i % 241) as u8).collect();
    image.fill(&[2, 5], &data);
    let mut disk = image.disk();
    disk.set_read_only(true);
    let mut fs = Fs::new(disk).unwrap();
    // A write makes the first sector of the file dirty; the device takes
    // nothing back, so no other sector can become resident.
    let mut stream = Stream::new(&fs, 2, false);
    assert_eq!(stream.write(&mut fs, &[0xAA]), Ok(1));
    let mut file = File::new(Stream::new(&fs, 2, false), 2000);
    let mut buf = [0u8; 100];
    for i in 0..5 {
        assert_eq!(file.read(&mut fs, &mut buf), Ok(100));
        if i > 0 {
            assert_eq!(buf[..], data[100 * i..100 * i + 100]);
        }
    }
    // The sixth read runs into the second sector: it hands out what the
    // first still has, and then fails.
    assert_eq!(file.read(&mut fs, &mut buf), Ok(12));
    assert_eq!(buf[..12], data[500..512]);
    assert_eq!(file.read(&mut fs, &mut buf), Err(Error::Io));
    assert_eq!(file.stream.global_offset, 512);
}
