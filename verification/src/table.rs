use crate::bytes::{le16, le32};
use crate::error::Error;
use crate::storage::{StorageRead, StorageWrite};
use crate::storage_io::is_block_size;
use vstd::prelude::*;

verus! {

/// How the table encodes its entries: in 28 of 32 bits, in 16 bits, or in
/// 12 bits.
#[derive(Clone, Copy, Debug, PartialEq, Eq, Structural)]
pub enum FatType {
    Fat32,
    Fat16,
    Fat12,
}

/// What the table says of one cluster.
#[derive(Clone, Copy, Debug, PartialEq, Eq, Structural)]
pub enum FatValue {
    Next(u32),
    Last,
    Free,
    Bad,
}

impl FatType {
    /// The number of bytes that hold one entry, whole or in part.
    pub open spec fn width(self) -> int {
        match self {
            FatType::Fat32 => 4,
            _ => 2,
        }
    }

    /// The index, within the table, of the first byte of a cluster's entry.
    pub open spec fn offset(self, cluster: u32) -> int {
        match self {
            FatType::Fat32 => cluster * 4,
            FatType::Fat16 => cluster * 2,
            FatType::Fat12 => cluster + cluster / 2,
        }
    }

    /// One more than the largest number an entry can hold.
    pub open spec fn limit(self) -> int {
        match self {
            FatType::Fat32 => 0x1000_0000,
            FatType::Fat16 => 0x1_0000,
            FatType::Fat12 => 0x1000,
        }
    }

    /// The number that marks a bad cluster. Every larger one ends a chain.
    pub open spec fn bad(self) -> int {
        self.limit() - 9
    }

    /// `raw` without the bits above the width of an entry.
    pub open spec fn cut(self, raw: int) -> int {
        match self {
            FatType::Fat32 => raw % 0x1000_0000,
            FatType::Fat16 => raw % 0x1_0000,
            FatType::Fat12 => raw % 0x1000,
        }
    }
}

impl FatValue {
    /// The meaning of the number `raw` found in a table of type `t`. Bits
    /// above the entry's width are ignored.
    pub open spec fn spec_decode(t: FatType, raw: int) -> FatValue {
        let v = t.cut(raw);
        if v == 0 {
            FatValue::Free
        } else if v == t.bad() {
            FatValue::Bad
        } else if v > t.bad() {
            FatValue::Last
        } else {
            FatValue::Next(v as u32)
        }
    }

    /// The number stored for `self` in a table of type `t`. `Last` is
    /// stored as the smallest end-of-chain number; a successor is cut to
    /// the entry's width.
    pub open spec fn spec_encode(self, t: FatType) -> int {
        match self {
            FatValue::Next(n) => t.cut(n as int),
            FatValue::Last => t.bad() + 1,
            FatValue::Free => 0,
            FatValue::Bad => t.bad(),
        }
    }

    /// A table of type `t` can hold `self` and give it back: a successor
    /// is neither zero nor one of the reserved numbers.
    pub open spec fn representable(self, t: FatType) -> bool {
        self matches FatValue::Next(n) ==> 0 < n < t.bad()
    }

    /// Tells what the number `raw` means in a table of type `t`.
    pub fn decode(t: FatType, raw: u32) -> (v: FatValue)
        ensures
            v == Self::spec_decode(t, raw as int),
    {
        let (limit, bad): (u32, u32) = match t {
            FatType::Fat32 => (0x1000_0000, 0x0FFF_FFF7),
            FatType::Fat16 => (0x1_0000, 0xFFF7),
            FatType::Fat12 => (0x1000, 0xFF7),
        };
        let v = raw % limit;
        if v == 0 {
            FatValue::Free
        } else if v == bad {
            FatValue::Bad
        } else if v > bad {
            FatValue::Last
        } else {
            FatValue::Next(v)
        }
    }

    /// Gives the number that stands for `self` in a table of type `t`.
    pub fn encode(self, t: FatType) -> (raw: u32)
        ensures
            raw == self.spec_encode(t),
    {
        let (limit, bad): (u32, u32) = match t {
            FatType::Fat32 => (0x1000_0000, 0x0FFF_FFF7),
            FatType::Fat16 => (0x1_0000, 0xFFF7),
            FatType::Fat12 => (0x1000, 0xFF7),
        };
        match self {
            FatValue::Next(n) => n % limit,
            FatValue::Last => bad + 1,
            FatValue::Free => 0,
            FatValue::Bad => bad,
        }
    }

    /// Every value a table can hold survives being stored and read back.
    pub proof fn lemma_decode_encode(self, t: FatType)
        requires
            self.representable(t),
        ensures
            Self::spec_decode(t, self.spec_encode(t)) == self,
    {
        let raw = self.spec_encode(t);
        match t {
            FatType::Fat32 => {
                assert(t.limit() == 0x1000_0000 && 0 <= raw < 0x1000_0000);
            },
            FatType::Fat16 => {
                assert(t.limit() == 0x1_0000 && 0 <= raw < 0x1_0000);
            },
            FatType::Fat12 => {
                assert(t.limit() == 0x1000 && 0 <= raw < 0x1000);
            },
        }
        assert(t.cut(raw) == raw);
    }
}

/// The first copy of the file allocation table: `block_count` sectors
/// from sector `first_block` on.
#[derive(Clone, Copy, Debug, PartialEq, Eq, Structural)]
pub struct FatTable {
    pub fat_type: FatType,
    pub first_block: u32,
    pub block_count: u32,
    pub block_size: u32,
}

/// Every sector of `disk` has `block_size` bytes.
pub open spec fn well_shaped(disk: Seq<Seq<u8>>, block_size: int) -> bool {
    forall|i: int| 0 <= i < disk.len() ==> #[trigger] disk[i].len() == block_size
}

/// `x` lies in block `q` of size `d`, at offset `r`.
pub proof fn lemma_block_of(x: int, d: int, q: int, r: int)
    requires
        d > 0,
        x == d * q + r,
        0 <= r < d,
    ensures
        x / d == q,
        x % d == r,
{
    assert(q * d == d * q) by (nonlinear_arith);
    vstd::arithmetic::div_mod::lemma_fundamental_div_mod_converse(x, d, q, r);
}

/// An entry of four bytes that starts at a multiple of four lies in one
/// sector of `4 * m` bytes.
proof fn lemma_aligned4(at: int, m: int)
    requires
        m > 0,
        at >= 0,
        at % 4 == 0,
    ensures
        (at + 1) / (4 * m) == at / (4 * m),
        (at + 2) / (4 * m) == at / (4 * m),
        (at + 3) / (4 * m) == at / (4 * m),
{
    let k = at / 4;
    let q = k / m;
    let r = k % m;
    vstd::arithmetic::div_mod::lemma_fundamental_div_mod(k, m);
    assert((4 * m) * q == 4 * (m * q)) by (nonlinear_arith);
    lemma_block_of(at, 4 * m, q, 4 * r);
    lemma_block_of(at + 1, 4 * m, q, 4 * r + 1);
    lemma_block_of(at + 2, 4 * m, q, 4 * r + 2);
    lemma_block_of(at + 3, 4 * m, q, 4 * r + 3);
}

/// An entry of two bytes that starts at a multiple of two lies in one
/// sector of `2 * m` bytes.
proof fn lemma_aligned2(at: int, m: int)
    requires
        m > 0,
        at >= 0,
        at % 2 == 0,
    ensures
        (at + 1) / (2 * m) == at / (2 * m),
{
    let k = at / 2;
    let q = k / m;
    let r = k % m;
    vstd::arithmetic::div_mod::lemma_fundamental_div_mod(k, m);
    assert((2 * m) * q == 2 * (m * q)) by (nonlinear_arith);
    lemma_block_of(at, 2 * m, q, 2 * r);
    lemma_block_of(at + 1, 2 * m, q, 2 * r + 1);
}

/// An entry of two or four bytes that starts at a multiple of its width
/// lies in one sector.
proof fn lemma_aligned_entry(at: int, w: int, bs: int)
    requires
        is_block_size(bs),
        w == 2 || w == 4,
        at >= 0,
        w == 2 ==> at % 2 == 0,
        w == 4 ==> at % 4 == 0,
    ensures
        (at + w - 1) / bs == at / bs,
        w == 4 ==> (at + 1) / bs == at / bs && (at + 2) / bs == at / bs,
{
    if w == 2 {
        lemma_aligned2(at, bs / 2);
    } else {
        lemma_aligned4(at, bs / 4);
    }
}

proof fn lemma_word32(raw: int)
    requires
        0 <= raw < 0x1000_0000,
    ensures
        le32(
            (raw % 256) as u8,
            ((raw / 256) % 256) as u8,
            ((raw / 65536) % 256) as u8,
            (raw / 16777216) as u8,
        ) % 0x1000_0000 == raw,
{
    let a = raw % 256;
    let q1 = raw / 256;
    let b = q1 % 256;
    let q2 = q1 / 256;
    let c = q2 % 256;
    let q3 = q2 / 256;
    assert(raw == 256 * q1 + a);
    assert(q1 == 256 * q2 + b);
    assert(q2 == 256 * q3 + c);
    lemma_block_of(raw, 65536, q2, 256 * b + a);
    lemma_block_of(raw, 16777216, q3, 65536 * c + 256 * b + a);
    assert(0 <= q3 < 16);
    assert(a + 256 * b + 65536 * c + 16777216 * q3 == raw);
}

proof fn lemma_word16(raw: int)
    requires
        0 <= raw < 0x1_0000,
    ensures
        le16((raw % 256) as u8, (raw / 256) as u8) == raw,
{
    assert(raw == 256 * (raw / 256) + raw % 256);
}

proof fn lemma_word12_even(raw: int, old: u8)
    requires
        0 <= raw < 0x1000,
    ensures
        le16((raw % 256) as u8, ((old / 16) * 16 + raw / 256) as u8) % 0x1000 == raw,
{
    let low = raw % 256;
    let high = (old / 16) * 16 + raw / 256;
    assert(raw == 256 * (raw / 256) + low);
    assert(0 <= raw / 256 < 16);
    assert(0 <= high < 256);
    lemma_block_of(low + 256 * high, 4096, (old / 16) as int, raw);
}

proof fn lemma_word12_odd(raw: int, old: u8)
    requires
        0 <= raw < 0x1000,
    ensures
        le16((old % 16 + (raw % 16) * 16) as u8, (raw / 16) as u8) / 16 == raw,
{
    let low = old % 16 + (raw % 16) * 16;
    let high = raw / 16;
    assert(raw == 16 * high + raw % 16);
    assert(0 <= low < 256);
    assert(0 <= high < 256);
    lemma_block_of(low + 256 * high, 16, raw, (old % 16) as int);
}

/// The byte after `at` lies in the same sector, unless `at` is the last
/// byte of its sector.
proof fn lemma_next_byte(at: int, bs: int)
    requires
        is_block_size(bs),
        at >= 0,
    ensures
        at % bs == bs - 1 ==> (at + 1) / bs == at / bs + 1 && (at + 1) % bs == 0,
        at % bs != bs - 1 ==> (at + 1) / bs == at / bs && (at + 1) % bs == at % bs + 1,
{
    let q = at / bs;
    let r = at % bs;
    vstd::arithmetic::div_mod::lemma_fundamental_div_mod(at, bs);
    if r == bs - 1 {
        assert(bs * (q + 1) == bs * q + bs) by (nonlinear_arith);
        lemma_block_of(at + 1, bs, q + 1, 0);
    } else {
        lemma_block_of(at + 1, bs, q, r + 1);
    }
}

/// The two numbers that a pair of bytes holds for its two 12-bit entries.
proof fn lemma_word12_parts(b0: u8, b1: u8)
    ensures
        le16(b0, b1) % 0x1000 == b0 + 256 * (b1 % 16),
        le16(b0, b1) / 16 == b0 / 16 + 16 * b1,
{
    let word = le16(b0, b1);
    assert(b1 == 16 * (b1 / 16) + b1 % 16);
    assert(b0 == 16 * (b0 / 16) + b0 % 16);
    lemma_block_of(word, 4096, (b1 / 16) as int, b0 + 256 * (b1 % 16));
    lemma_block_of(word, 16, b0 / 16 + 16 * b1, (b0 % 16) as int);
}

/// Where a 12-bit entry starts: three bytes hold two entries.
proof fn lemma_offset12(cluster: u32)
    ensures
        FatType::Fat12.offset(cluster) == 3 * (cluster / 2) + cluster % 2,
{
    assert(cluster == 2 * (cluster / 2) + cluster % 2);
}

/// A byte keeps its low half when its high half is replaced, and its high
/// half when its low half is replaced.
proof fn lemma_halves(old: u8, half: int)
    requires
        0 <= half < 16,
    ensures
        ((old % 16 + half * 16) as u8) % 16 == old % 16,
        (((old / 16) * 16 + half) as u8) / 16 == old / 16,
{
    lemma_block_of(old % 16 + half * 16, 16, half, (old % 16) as int);
    lemma_block_of((old / 16) * 16 + half, 16, (old / 16) as int, half);
}

impl FatTable {
    /// The disk sector that holds byte `i` of the table.
    pub open spec fn block_of(&self, i: int) -> u32 {
        (self.first_block + i / (self.block_size as int)) as u32
    }

    /// The entry of `cluster` can be read without a device transfer.
    pub open spec fn served<T: StorageRead>(&self, io: &T, cluster: u32) -> bool {
        &&& self.in_range(io@, cluster)
        &&& !self.straddles(cluster)
        &&& io.resident(self.block_of(self.fat_type.offset(cluster)))
    }

    /// What `get` promises: the store is left as it was to its readers, and
    /// the result is the entry found, or `OutOfRange` if the entry lies
    /// outside the table or the disk, or `Io` if the device failed. A get
    /// that the resident sector serves does not fail. Such a get, and one
    /// of an entry outside the table or the disk, leave the store itself
    /// as it was.
    pub open spec fn got<T: StorageRead>(
        &self,
        before: &T,
        after: &T,
        cluster: u32,
        r: Result<FatValue, Error>,
    ) -> bool {
        &&& after.wf()
        &&& after@ == before@
        &&& after.spec_block_size() == before.spec_block_size()
        &&& match r {
            Ok(v) => self.spec_get(before@, cluster) == Ok::<FatValue, Error>(v),
            Err(e) => e == if self.in_range(before@, cluster) {
                Error::Io
            } else {
                Error::OutOfRange
            },
        }
        &&& self.served(before, cluster) ==> r is Ok
        &&& self.served(before, cluster) || !self.in_range(before@, cluster) ==> *after == *before
        &&& r == Err::<FatValue, Error>(Error::Io) ==> after.idle() || after.pending()
    }

    /// What `set` promises: on success the store holds `spec_set` of what
    /// it held; on failure it holds what it held, or, for an entry that
    /// straddles two sectors, that with the last byte of the entry stored.
    /// A set of an entry outside the table or the disk leaves the store
    /// itself as it was.
    pub open spec fn stored<T: StorageRead>(
        &self,
        before: &T,
        after: &T,
        cluster: u32,
        value: FatValue,
        r: Result<(), Error>,
    ) -> bool {
        &&& after.wf()
        &&& after.spec_block_size() == before.spec_block_size()
        &&& match r {
            Ok(()) => {
                &&& self.in_range(before@, cluster)
                &&& after@ == self.spec_set(before@, cluster, value)
            },
            Err(e) => {
                &&& e == if self.in_range(before@, cluster) {
                    Error::Io
                } else {
                    Error::OutOfRange
                }
                &&& (after@ == before@ || (self.straddles(cluster) && after@ == self.set_high(
                    before@,
                    cluster,
                    value,
                )))
            },
        }
        &&& self.served(before, cluster) ==> r is Ok
        &&& !self.in_range(before@, cluster) ==> *after == *before
        &&& r == Err::<(), Error>(Error::Io) ==> after.idle() || after.pending()
    }

    /// Byte `i` of the table lies in the table and on the disk.
    pub open spec fn holds(&self, disk: Seq<Seq<u8>>, i: int) -> bool {
        &&& 0 <= i
        &&& i / (self.block_size as int) < self.block_count
        &&& self.first_block + i / (self.block_size as int) < disk.len()
    }

    /// Byte `i` of the table.
    pub open spec fn byte(&self, disk: Seq<Seq<u8>>, i: int) -> u8 {
        disk[self.first_block + i / (self.block_size as int)][i % (self.block_size as int)]
    }

    /// The disk with byte `i` of the table replaced by `b`.
    pub open spec fn put(&self, disk: Seq<Seq<u8>>, i: int, b: u8) -> Seq<Seq<u8>> {
        let block = self.first_block + i / (self.block_size as int);
        disk.update(block, disk[block].update(i % (self.block_size as int), b))
    }

    /// The entry of `cluster` lies in the table and on the disk.
    pub open spec fn in_range(&self, disk: Seq<Seq<u8>>, cluster: u32) -> bool {
        self.holds(disk, self.fat_type.offset(cluster) + self.fat_type.width() - 1)
    }

    /// The entry of `cluster` starts on the last byte of a sector.
    pub open spec fn straddles(&self, cluster: u32) -> bool {
        self.fat_type == FatType::Fat12 && self.fat_type.offset(cluster) % (self.block_size as int)
            == self.block_size - 1
    }

    /// The number stored for `cluster`.
    pub open spec fn raw(&self, disk: Seq<Seq<u8>>, cluster: u32) -> int {
        let at = self.fat_type.offset(cluster);
        match self.fat_type {
            FatType::Fat32 => le32(
                self.byte(disk, at),
                self.byte(disk, at + 1),
                self.byte(disk, at + 2),
                self.byte(disk, at + 3),
            ) % 0x1000_0000,
            FatType::Fat16 => le16(self.byte(disk, at), self.byte(disk, at + 1)),
            FatType::Fat12 => {
                let word = le16(self.byte(disk, at), self.byte(disk, at + 1));
                if cluster % 2 == 0 {
                    word % 0x1000
                } else {
                    word / 16
                }
            },
        }
    }

    /// What `get` finds for `cluster` when the device does not fail.
    pub open spec fn spec_get(&self, disk: Seq<Seq<u8>>, cluster: u32) -> Result<FatValue, Error> {
        if self.in_range(disk, cluster) {
            Ok(FatValue::spec_decode(self.fat_type, self.raw(disk, cluster)))
        } else {
            Err(Error::OutOfRange)
        }
    }

    /// The last byte that `set` stores for `value`, given the byte `old`
    /// that it replaces.
    pub open spec fn high_byte(&self, cluster: u32, value: FatValue, old: u8) -> u8 {
        let raw = value.spec_encode(self.fat_type);
        match self.fat_type {
            FatType::Fat32 => (raw / 16777216) as u8,
            FatType::Fat16 => (raw / 256) as u8,
            FatType::Fat12 => if cluster % 2 == 0 {
                ((old / 16) * 16 + raw / 256) as u8
            } else {
                (raw / 16) as u8
            },
        }
    }

    /// The first byte that `set` stores for `value`, given the byte `old`
    /// that it replaces.
    pub open spec fn low_byte(&self, cluster: u32, value: FatValue, old: u8) -> u8 {
        let raw = value.spec_encode(self.fat_type);
        match self.fat_type {
            FatType::Fat12 => if cluster % 2 == 0 {
                (raw % 256) as u8
            } else {
                (old % 16 + (raw % 16) * 16) as u8
            },
            _ => (raw % 256) as u8,
        }
    }

    /// The disk after the last byte of the entry of `cluster` has been
    /// stored for `value`.
    pub open spec fn set_high(&self, disk: Seq<Seq<u8>>, cluster: u32, value: FatValue) -> Seq<
        Seq<u8>,
    > {
        let at = self.fat_type.offset(cluster);
        let last = at + self.fat_type.width() - 1;
        self.put(disk, last, self.high_byte(cluster, value, self.byte(disk, last)))
    }

    /// The disk after `set` has stored `value` for `cluster`.
    pub open spec fn spec_set(&self, disk: Seq<Seq<u8>>, cluster: u32, value: FatValue) -> Seq<
        Seq<u8>,
    > {
        let raw = value.spec_encode(self.fat_type);
        let at = self.fat_type.offset(cluster);
        let d1 = self.set_high(disk, cluster, value);
        match self.fat_type {
            FatType::Fat32 => {
                let d2 = self.put(d1, at + 2, ((raw / 65536) % 256) as u8);
                let d3 = self.put(d2, at + 1, ((raw / 256) % 256) as u8);
                self.put(d3, at, (raw % 256) as u8)
            },
            _ => self.put(d1, at, self.low_byte(cluster, value, self.byte(disk, at))),
        }
    }

    /// The table of type `fat_type` in the `block_count` sectors of
    /// `block_size` bytes from sector `first_block` on.
    pub fn new(fat_type: FatType, first_block: u32, block_count: u32, block_size: u32) -> (t: Self)
        ensures
            t.fat_type == fat_type,
            t.first_block == first_block,
            t.block_count == block_count,
            t.block_size == block_size,
    {
        FatTable { fat_type, first_block, block_count, block_size }
    }

    /// Storing a byte changes that byte and no other.
    pub proof fn lemma_put(&self, disk: Seq<Seq<u8>>, i: int, b: u8, j: int)
        requires
            is_block_size(self.block_size as int),
            well_shaped(disk, self.block_size as int),
            self.holds(disk, i),
        ensures
            well_shaped(self.put(disk, i, b), self.block_size as int),
            self.put(disk, i, b).len() == disk.len(),
            self.holds(self.put(disk, i, b), j) == self.holds(disk, j),
            self.holds(disk, j) ==> self.byte(self.put(disk, i, b), j) == if j == i {
                b
            } else {
                self.byte(disk, j)
            },
    {
        let bs = self.block_size as int;
        if bs == 512 {
        } else if bs == 1024 {
        } else if bs == 2048 {
        } else {
        }
        let block = self.first_block + i / bs;
        assert(disk[block].len() == bs);
        let after = self.put(disk, i, b);
        assert forall|k: int| 0 <= k < after.len() implies #[trigger] after[k].len() == bs by {
            assert(disk[k].len() == bs);
        }
    }

    /// What each byte of the table is after `spec_set`.
    proof fn lemma_set_bytes(&self, disk: Seq<Seq<u8>>, cluster: u32, value: FatValue, j: int)
        requires
            is_block_size(self.block_size as int),
            well_shaped(disk, self.block_size as int),
            self.in_range(disk, cluster),
        ensures
            well_shaped(self.spec_set(disk, cluster, value), self.block_size as int),
            self.spec_set(disk, cluster, value).len() == disk.len(),
            self.holds(self.spec_set(disk, cluster, value), j) == self.holds(disk, j),
            self.holds(disk, j) ==> self.byte(self.spec_set(disk, cluster, value), j) == ({
                let at = self.fat_type.offset(cluster);
                let raw = value.spec_encode(self.fat_type);
                let last = at + self.fat_type.width() - 1;
                if j == last {
                    self.high_byte(cluster, value, self.byte(disk, last))
                } else if j < at || j > last {
                    self.byte(disk, j)
                } else if self.fat_type != FatType::Fat32 {
                    self.low_byte(cluster, value, self.byte(disk, at))
                } else if j == at {
                    (raw % 256) as u8
                } else if j == at + 1 {
                    ((raw / 256) % 256) as u8
                } else {
                    ((raw / 65536) % 256) as u8
                }
            }),
    {
        let bs = self.block_size as int;
        let at = self.fat_type.offset(cluster);
        let raw = value.spec_encode(self.fat_type);
        let last = at + self.fat_type.width() - 1;
        let d1 = self.set_high(disk, cluster, value);
        self.lemma_put(disk, last, self.high_byte(cluster, value, self.byte(disk, last)), j);
        match self.fat_type {
            FatType::Fat32 => {
                lemma_aligned_entry(at, 4, bs);
                let d2 = self.put(d1, at + 2, ((raw / 65536) % 256) as u8);
                let d3 = self.put(d2, at + 1, ((raw / 256) % 256) as u8);
                self.lemma_put(disk, last, self.high_byte(cluster, value, self.byte(disk, last)), at + 2);
                self.lemma_put(d1, at + 2, ((raw / 65536) % 256) as u8, j);
                self.lemma_put(d1, at + 2, ((raw / 65536) % 256) as u8, at + 1);
                self.lemma_put(disk, last, self.high_byte(cluster, value, self.byte(disk, last)), at + 1);
                self.lemma_put(d2, at + 1, ((raw / 256) % 256) as u8, j);
                self.lemma_put(d2, at + 1, ((raw / 256) % 256) as u8, at);
                self.lemma_put(d1, at + 2, ((raw / 65536) % 256) as u8, at);
                self.lemma_put(disk, last, self.high_byte(cluster, value, self.byte(disk, last)), at);
                self.lemma_put(d3, at, (raw % 256) as u8, j);
            },
            _ => {
                lemma_next_byte(at, bs);
                self.lemma_put(disk, last, self.high_byte(cluster, value, self.byte(disk, last)), at);
                self.lemma_put(d1, at, self.low_byte(cluster, value, self.byte(disk, at)), j);
            },
        }
    }

    /// An entry that has been stored is the one that is read back.
    pub proof fn lemma_set_then_get(&self, disk: Seq<Seq<u8>>, cluster: u32, value: FatValue)
        requires
            is_block_size(self.block_size as int),
            well_shaped(disk, self.block_size as int),
            self.in_range(disk, cluster),
            value.representable(self.fat_type),
        ensures
            self.spec_get(self.spec_set(disk, cluster, value), cluster) == Ok::<FatValue, Error>(
                value,
            ),
    {
        let bs = self.block_size as int;
        let at = self.fat_type.offset(cluster);
        let raw = value.spec_encode(self.fat_type);
        let after = self.spec_set(disk, cluster, value);
        value.lemma_decode_encode(self.fat_type);
        self.lemma_set_bytes(disk, cluster, value, at);
        self.lemma_set_bytes(disk, cluster, value, at + 1);
        let b0 = self.byte(after, at);
        let b1 = self.byte(after, at + 1);
        match self.fat_type {
            FatType::Fat32 => {
                self.lemma_set_bytes(disk, cluster, value, at + 2);
                self.lemma_set_bytes(disk, cluster, value, at + 3);
                lemma_aligned_entry(at, 4, bs);
                assert(0 <= raw < 0x1000_0000);
                lemma_word32(raw);
            },
            FatType::Fat16 => {
                lemma_aligned_entry(at, 2, bs);
                assert(0 <= raw < 0x1_0000);
                lemma_word16(raw);
            },
            FatType::Fat12 => {
                lemma_next_byte(at, bs);
                assert(0 <= raw < 0x1000);
                if cluster % 2 == 0 {
                    lemma_word12_even(raw, self.byte(disk, at + 1));
                } else {
                    lemma_word12_odd(raw, self.byte(disk, at));
                }
            },
        }
        assert(self.raw(after, cluster) == raw);
    }

    /// Storing one entry leaves every other entry as it was, the one that
    /// shares a byte with it included.
    pub proof fn lemma_set_keeps_others(
        &self,
        disk: Seq<Seq<u8>>,
        cluster: u32,
        value: FatValue,
        other: u32,
    )
        requires
            is_block_size(self.block_size as int),
            well_shaped(disk, self.block_size as int),
            self.in_range(disk, cluster),
            other != cluster,
        ensures
            self.spec_get(self.spec_set(disk, cluster, value), other) == self.spec_get(disk, other),
    {
        let bs = self.block_size as int;
        let at = self.fat_type.offset(other);
        let last = at + self.fat_type.width() - 1;
        let after = self.spec_set(disk, cluster, value);
        self.lemma_set_bytes(disk, cluster, value, last);
        if self.in_range(disk, other) {
            match self.fat_type {
                FatType::Fat32 => {
                    lemma_aligned_entry(at, 4, bs);
                    self.lemma_set_bytes(disk, cluster, value, at);
                    self.lemma_set_bytes(disk, cluster, value, at + 1);
                    self.lemma_set_bytes(disk, cluster, value, at + 2);
                    assert(self.byte(after, at) == self.byte(disk, at));
                    assert(self.byte(after, at + 1) == self.byte(disk, at + 1));
                    assert(self.byte(after, at + 2) == self.byte(disk, at + 2));
                    assert(self.byte(after, at + 3) == self.byte(disk, at + 3));
                },
                FatType::Fat16 => {
                    lemma_aligned_entry(at, 2, bs);
                    self.lemma_set_bytes(disk, cluster, value, at);
                    assert(self.byte(after, at) == self.byte(disk, at));
                    assert(self.byte(after, at + 1) == self.byte(disk, at + 1));
                },
                FatType::Fat12 => {
                    self.lemma_set_keeps_neighbour(disk, cluster, value, other);
                },
            }
        }
    }

    /// A 12-bit entry that has been stored leaves the four bits that its
    /// bytes share with its neighbour as they were.
    proof fn lemma_set_keeps_neighbour(
        &self,
        disk: Seq<Seq<u8>>,
        cluster: u32,
        value: FatValue,
        other: u32,
    )
        requires
            is_block_size(self.block_size as int),
            well_shaped(disk, self.block_size as int),
            self.fat_type == FatType::Fat12,
            self.in_range(disk, cluster),
            self.in_range(disk, other),
            other != cluster,
        ensures
            self.raw(self.spec_set(disk, cluster, value), other) == self.raw(disk, other),
    {
        let bs = self.block_size as int;
        let at = self.fat_type.offset(other);
        let mine = self.fat_type.offset(cluster);
        let raw = value.spec_encode(self.fat_type);
        let after = self.spec_set(disk, cluster, value);
        lemma_next_byte(at, bs);
        lemma_offset12(other);
        lemma_offset12(cluster);
        self.lemma_set_bytes(disk, cluster, value, at);
        self.lemma_set_bytes(disk, cluster, value, at + 1);
        let b0 = self.byte(disk, at);
        let b1 = self.byte(disk, at + 1);
        let a0 = self.byte(after, at);
        let a1 = self.byte(after, at + 1);
        lemma_word12_parts(b0, b1);
        lemma_word12_parts(a0, a1);
        assert(0 <= raw < 0x1000);
        if other % 2 == 0 {
            assert(mine != at && mine + 1 != at);
            assert(a0 == b0);
            if mine == at + 1 {
                assert(cluster % 2 == 1);
                assert(a1 == (b1 % 16 + (raw % 16) * 16) as u8);
                lemma_halves(b1, raw % 16);
                assert(a1 % 16 == b1 % 16);
            } else {
                assert(mine + 1 != at + 1);
                assert(a1 == b1);
            }
        } else {
            assert(mine != at + 1 && mine + 1 != at + 1);
            assert(a1 == b1);
            if mine + 1 == at {
                assert(cluster % 2 == 0);
                assert(a0 == ((b0 / 16) * 16 + raw / 256) as u8);
                lemma_halves(b0, raw / 256);
                assert(a0 / 16 == b0 / 16);
            } else {
                assert(mine != at);
                assert(a0 == b0);
            }
        }
    }

    /// Reads byte `i` of the table.
    fn read_byte<T: StorageRead>(&self, io: &mut T, i: u64) -> (r: Result<u8, Error>)
        requires
            old(io).wf(),
            self.block_size == old(io).spec_block_size(),
        ensures
            final(io).wf(),
            final(io)@ == old(io)@,
            final(io).spec_block_size() == old(io).spec_block_size(),
            match r {
                Ok(b) => {
                    &&& self.holds(old(io)@, i as int)
                    &&& b == self.byte(old(io)@, i as int)
                    &&& final(io).resident(self.block_of(i as int))
                },
                Err(e) => {
                    &&& e == if self.holds(old(io)@, i as int) {
                        Error::Io
                    } else {
                        Error::OutOfRange
                    }
                    &&& self.holds(old(io)@, i as int) ==> !old(io).resident(
                        self.block_of(i as int),
                    ) && !final(io).resident(self.block_of(i as int))
                },
            },
            !self.holds(old(io)@, i as int) || old(io).resident(self.block_of(i as int))
                ==> *final(io) == *old(io),
            r == Err::<u8, Error>(Error::Io) ==> final(io).idle() || final(io).pending(),
    {
        proof {
            io.lemma_shape();
        }
        let size = self.block_size as u64;
        let block = i / size;
        if block >= self.block_count as u64 {
            return Err(Error::OutOfRange);
        }
        let sector = self.first_block as u64 + block;
        if sector > 0xFFFF_FFFF {
            return Err(Error::OutOfRange);
        }
        let mut one = [0u8; 1];
        match io.read(sector as u32, (i % size) as usize, &mut one) {
            Ok(()) => Ok(one[0]),
            Err(e) => Err(e),
        }
    }

    /// Replaces byte `i` of the table by `b`.
    fn write_byte<T: StorageWrite>(&self, io: &mut T, i: u64, b: u8) -> (r: Result<(), Error>)
        requires
            old(io).wf(),
            self.block_size == old(io).spec_block_size(),
        ensures
            final(io).wf(),
            final(io).spec_block_size() == old(io).spec_block_size(),
            match r {
                Ok(()) => {
                    &&& self.holds(old(io)@, i as int)
                    &&& final(io)@ == self.put(old(io)@, i as int, b)
                    &&& final(io).resident(self.block_of(i as int))
                },
                Err(e) => {
                    &&& final(io)@ == old(io)@
                    &&& e == if self.holds(old(io)@, i as int) {
                        Error::Io
                    } else {
                        Error::OutOfRange
                    }
                    &&& self.holds(old(io)@, i as int) ==> !old(io).resident(
                        self.block_of(i as int),
                    ) && !final(io).resident(self.block_of(i as int))
                },
            },
            !self.holds(old(io)@, i as int) ==> *final(io) == *old(io),
            r == Err::<(), Error>(Error::Io) ==> final(io).idle() || final(io).pending(),
    {
        proof {
            io.lemma_shape();
        }
        let size = self.block_size as u64;
        let block = i / size;
        if block >= self.block_count as u64 {
            return Err(Error::OutOfRange);
        }
        let sector = self.first_block as u64 + block;
        if sector > 0xFFFF_FFFF {
            return Err(Error::OutOfRange);
        }
        let one = [b];
        match io.write(sector as u32, (i % size) as usize, &one) {
            Ok(()) => {
                proof {
                    let sec = old(io)@[sector as int];
                    assert(crate::storage::splice(sec, (i % size) as int, one@) =~= sec.update(
                        (i % size) as int,
                        b,
                    ));
                }
                Ok(())
            },
            Err(e) => Err(e),
        }
    }

    fn fat_32_get<T: StorageRead>(&self, io: &mut T, cluster: u32) -> (r: Result<FatValue, Error>)
        requires
            old(io).wf(),
            self.block_size == old(io).spec_block_size(),
            self.fat_type == FatType::Fat32,
        ensures
            self.got(old(io), final(io), cluster, r),
    {
        proof {
            io.lemma_shape();
        }
        let at = cluster as u64 * 4;
        proof {
            lemma_aligned_entry(at as int, 4, self.block_size as int);
        }
        let b3 = match self.read_byte(io, at + 3) {
            Ok(b) => b,
            Err(e) => {
                return Err(e);
            },
        };
        let b2 = match self.read_byte(io, at + 2) {
            Ok(b) => b,
            Err(e) => {
                return Err(e);
            },
        };
        let b1 = match self.read_byte(io, at + 1) {
            Ok(b) => b,
            Err(e) => {
                return Err(e);
            },
        };
        let b0 = match self.read_byte(io, at) {
            Ok(b) => b,
            Err(e) => {
                return Err(e);
            },
        };
        let word = b0 as u32 + 256 * (b1 as u32) + 65536 * (b2 as u32) + 16777216 * (b3 as u32);
        Ok(FatValue::decode(FatType::Fat32, word % 0x1000_0000))
    }

    fn fat_32_set<T: StorageWrite>(&self, io: &mut T, cluster: u32, value: FatValue) -> (r:
        Result<(), Error>)
        requires
            old(io).wf(),
            self.block_size == old(io).spec_block_size(),
            self.fat_type == FatType::Fat32,
        ensures
            self.stored(old(io), final(io), cluster, value, r),
    {
        proof {
            io.lemma_shape();
        }
        let raw = value.encode(FatType::Fat32);
        let at = cluster as u64 * 4;
        proof {
            lemma_aligned_entry(at as int, 4, self.block_size as int);
        }
        match self.write_byte(io, at + 3, (raw / 16777216) as u8) {
            Ok(()) => {},
            Err(e) => {
                return Err(e);
            },
        }
        proof {
            io.lemma_shape();
        }
        match self.write_byte(io, at + 2, ((raw / 65536) % 256) as u8) {
            Ok(()) => {},
            Err(e) => {
                return Err(e);
            },
        }
        proof {
            io.lemma_shape();
        }
        match self.write_byte(io, at + 1, ((raw / 256) % 256) as u8) {
            Ok(()) => {},
            Err(e) => {
                return Err(e);
            },
        }
        proof {
            io.lemma_shape();
        }
        match self.write_byte(io, at, (raw % 256) as u8) {
            Ok(()) => Ok(()),
            Err(e) => Err(e),
        }
    }

    fn fat_16_get<T: StorageRead>(&self, io: &mut T, cluster: u32) -> (r: Result<FatValue, Error>)
        requires
            old(io).wf(),
            self.block_size == old(io).spec_block_size(),
            self.fat_type == FatType::Fat16,
        ensures
            self.got(old(io), final(io), cluster, r),
    {
        proof {
            io.lemma_shape();
        }
        let at = cluster as u64 * 2;
        proof {
            lemma_aligned_entry(at as int, 2, self.block_size as int);
        }
        let b1 = match self.read_byte(io, at + 1) {
            Ok(b) => b,
            Err(e) => {
                return Err(e);
            },
        };
        let b0 = match self.read_byte(io, at) {
            Ok(b) => b,
            Err(e) => {
                return Err(e);
            },
        };
        Ok(FatValue::decode(FatType::Fat16, b0 as u32 + 256 * (b1 as u32)))
    }

    fn fat_16_set<T: StorageWrite>(&self, io: &mut T, cluster: u32, value: FatValue) -> (r:
        Result<(), Error>)
        requires
            old(io).wf(),
            self.block_size == old(io).spec_block_size(),
            self.fat_type == FatType::Fat16,
        ensures
            self.stored(old(io), final(io), cluster, value, r),
    {
        proof {
            io.lemma_shape();
        }
        let raw = value.encode(FatType::Fat16);
        let at = cluster as u64 * 2;
        proof {
            lemma_aligned_entry(at as int, 2, self.block_size as int);
        }
        match self.write_byte(io, at + 1, (raw / 256) as u8) {
            Ok(()) => {},
            Err(e) => {
                return Err(e);
            },
        }
        proof {
            io.lemma_shape();
        }
        match self.write_byte(io, at, (raw % 256) as u8) {
            Ok(()) => Ok(()),
            Err(e) => Err(e),
        }
    }

    fn fat_12_get<T: StorageRead>(&self, io: &mut T, cluster: u32) -> (r: Result<FatValue, Error>)
        requires
            old(io).wf(),
            self.block_size == old(io).spec_block_size(),
            self.fat_type == FatType::Fat12,
        ensures
            self.got(old(io), final(io), cluster, r),
    {
        proof {
            io.lemma_shape();
        }
        let at = cluster as u64 + (cluster / 2) as u64;
        proof {
            lemma_next_byte(at as int, self.block_size as int);
        }
        let b1 = match self.read_byte(io, at + 1) {
            Ok(b) => b,
            Err(e) => {
                return Err(e);
            },
        };
        let b0 = match self.read_byte(io, at) {
            Ok(b) => b,
            Err(e) => {
                return Err(e);
            },
        };
        let word = b0 as u32 + 256 * (b1 as u32);
        let raw = if cluster % 2 == 0 {
            word % 0x1000
        } else {
            word / 16
        };
        Ok(FatValue::decode(FatType::Fat12, raw))
    }

    /// Stores a 12-bit entry. The four bits that its two bytes share with
    /// the neighbouring entry are read first and written back unchanged.
    fn fat_12_set<T: StorageWrite>(&self, io: &mut T, cluster: u32, value: FatValue) -> (r:
        Result<(), Error>)
        requires
            old(io).wf(),
            self.block_size == old(io).spec_block_size(),
            self.fat_type == FatType::Fat12,
        ensures
            self.stored(old(io), final(io), cluster, value, r),
    {
        proof {
            io.lemma_shape();
        }
        let raw = value.encode(FatType::Fat12);
        assert(raw < 0x1000);
        let at = cluster as u64 + (cluster / 2) as u64;
        proof {
            lemma_next_byte(at as int, self.block_size as int);
        }
        let b1 = match self.read_byte(io, at + 1) {
            Ok(b) => b,
            Err(e) => {
                return Err(e);
            },
        };
        let b0 = match self.read_byte(io, at) {
            Ok(b) => b,
            Err(e) => {
                return Err(e);
            },
        };
        let (n0, n1): (u8, u8) = if cluster % 2 == 0 {
            ((raw % 256) as u8, ((b1 / 16) as u32 * 16 + raw / 256) as u8)
        } else {
            ((b0 % 16) as u8 + ((raw % 16) * 16) as u8, (raw / 16) as u8)
        };
        match self.write_byte(io, at + 1, n1) {
            Ok(()) => {},
            Err(e) => {
                return Err(e);
            },
        }
        proof {
            io.lemma_shape();
        }
        match self.write_byte(io, at, n0) {
            Ok(()) => Ok(()),
            Err(e) => Err(e),
        }
    }

    /// Reads the entry of `cluster`.
    ///
    /// The result is `spec_get` of what the store holds, unless the device
    /// fails; it cannot fail while the entry's sector is resident, and
    /// then it leaves the store as it is. An entry outside the table or
    /// the disk is refused before the device is asked. After `Io` no
    /// sector is resident, or bytes are pending.
    pub fn get<T: StorageRead>(&self, io: &mut T, cluster: u32) -> (r: Result<FatValue, Error>)
        requires
            old(io).wf(),
            self.block_size == old(io).spec_block_size(),
        ensures
            final(io).wf(),
            final(io)@ == old(io)@,
            final(io).spec_block_size() == old(io).spec_block_size(),
            match r {
                Ok(v) => self.spec_get(old(io)@, cluster) == Ok::<FatValue, Error>(v),
                Err(e) => e == if self.in_range(old(io)@, cluster) {
                    Error::Io
                } else {
                    Error::OutOfRange
                },
            },
            self.served(old(io), cluster) ==> r is Ok,
            self.served(old(io), cluster) || !self.in_range(old(io)@, cluster) ==> *final(io)
                == *old(io),
            r == Err::<FatValue, Error>(Error::Io) ==> final(io).idle() || final(io).pending(),
    {
        match self.fat_type {
            FatType::Fat32 => self.fat_32_get(io, cluster),
            FatType::Fat16 => self.fat_16_get(io, cluster),
            FatType::Fat12 => self.fat_12_get(io, cluster),
        }
    }

    /// Stores `value` as the entry of `cluster`.
    ///
    /// On success the store holds `spec_set` of what it held. A failure
    /// leaves it unchanged, with one exception: an entry that straddles
    /// two sectors may have its last byte stored and its first not. An
    /// entry outside the table or the disk is refused before the device
    /// is asked.
    pub fn set<T: StorageRead + StorageWrite>(&self, io: &mut T, cluster: u32, value: FatValue) -> (r:
        Result<(), Error>)
        requires
            old(io).wf(),
            self.block_size == old(io).spec_block_size(),
        ensures
            final(io).wf(),
            final(io).spec_block_size() == old(io).spec_block_size(),
            match r {
                Ok(()) => {
                    &&& self.in_range(old(io)@, cluster)
                    &&& final(io)@ == self.spec_set(old(io)@, cluster, value)
                },
                Err(e) => {
                    &&& e == if self.in_range(old(io)@, cluster) {
                        Error::Io
                    } else {
                        Error::OutOfRange
                    }
                    &&& (final(io)@ == old(io)@ || (self.straddles(cluster) && final(io)@
                        == self.set_high(old(io)@, cluster, value)))
                },
            },
            self.served(old(io), cluster) ==> r is Ok,
            !self.in_range(old(io)@, cluster) ==> *final(io) == *old(io),
            r == Err::<(), Error>(Error::Io) ==> final(io).idle() || final(io).pending(),
    {
        match self.fat_type {
            FatType::Fat32 => self.fat_32_set(io, cluster, value),
            FatType::Fat16 => self.fat_16_set(io, cluster, value),
            FatType::Fat12 => self.fat_12_set(io, cluster, value),
        }
    }
}

} // verus!
