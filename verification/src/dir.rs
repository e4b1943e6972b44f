use crate::bytes::{le16_at, le32_at, u16_at, u32_at};
use crate::dir_entry::{DirEntry, EntryView, ATTR_DIRECTORY, ATTR_VOLUME_ID};
use crate::error::Error;
use crate::file::File;
use crate::path::{find_segment, lemma_segment_end, lemma_skip_separators, next_segment};
use crate::storage_io::StorageIo;
use crate::stream::{lemma_read, Stream};
use crate::{Fs, Volume};
use vstd::prelude::*;
use vstd::slice::slice_subrange;

verus! {

/// The attribute byte of a long-name record.
pub const ATTR_LONG_NAME: u8 = 0x0f;

/// The bit that marks, in its first byte, the record that ends a long
/// name. The other bits of that byte are the number of the record.
pub const LAST_LONG_ENTRY: u8 = 0x40;

/// Where a long-name record carries the checksum of its short name.
pub const LDIR_CHKSUM: usize = 13;

/// The first byte of a deleted record.
pub const DELETED_DIR_ENTRY: u8 = 0xe5;

/// The first byte of the record that ends a directory.
pub const NO_MORE_DIR_ENTRY: u8 = 0x00;

/// Where character `i` of a long-name record stands in the record.
pub open spec fn spec_lfn_offset(i: int) -> int {
    if i < 5 {
        1 + 2 * i
    } else if i < 11 {
        4 + 2 * i
    } else {
        6 + 2 * i
    }
}

/// Where character `i` of a long-name record stands in the record.
pub fn lfn_offset(i: usize) -> (r: usize)
    requires
        i < 13,
    ensures
        r == spec_lfn_offset(i as int),
        1 <= r <= 30,
{
    if i < 5 {
        1 + 2 * i
    } else if i < 11 {
        4 + 2 * i
    } else {
        6 + 2 * i
    }
}

/// `byte`, or its small letter if it is a capital letter from A to Z.
pub open spec fn spec_lowercase(byte: u8) -> u8 {
    if 0x41 <= byte <= 0x5a {
        (byte + 0x20) as u8
    } else {
        byte
    }
}

/// Turns a capital letter from A to Z into its small letter.
pub fn byte_to_lowercase(byte: u8) -> (r: u8)
    ensures
        r == spec_lowercase(byte),
{
    if (byte >= 0x41) && (byte <= 0x5a) {
        byte - 0x41 + 0x61
    } else {
        byte
    }
}

/// The sum that ties the records of a long name to a short name: for each
/// byte, the sum so far is rotated right by one bit and the byte added.
pub open spec fn spec_checksum(s: Seq<u8>) -> u8
    decreases s.len(),
{
    if s.len() == 0 {
        0
    } else {
        let sum = spec_checksum(s.drop_last());
        ((sum / 2 + (sum % 2) * 128 + s.last()) % 256) as u8
    }
}

/// Computes the checksum of the eleven name bytes of a short record.
pub fn checksum(buf: &[u8]) -> (r: u8)
    ensures
        r == spec_checksum(buf@),
{
    let mut res: u8 = 0;
    let mut i: usize = 0;
    while i < buf.len()
        invariant
            i <= buf@.len(),
            res == spec_checksum(buf@.subrange(0, i as int)),
        decreases buf@.len() - i,
    {
        assert(buf@.subrange(0, i + 1).drop_last() =~= buf@.subrange(0, i as int));
        let sum = (res / 2) as u16 + (res % 2) as u16 * 128 + buf[i] as u16;
        res = (sum % 256) as u8;
        i += 1;
    }
    assert(buf@.subrange(0, i as int) =~= buf@);
    res
}

/// The index of the first zero byte of `s` at or after `from`, or the
/// length of `s` where there is none.
pub open spec fn scan_zero(s: Seq<u8>, from: int) -> int
    decreases s.len() - from,
{
    if from < 0 || from >= s.len() || s[from] == 0 {
        from
    } else {
        scan_zero(s, from + 1)
    }
}

/// The length of the first `n` bytes of `s` without the spaces at their
/// end.
pub open spec fn trim_len(s: Seq<u8>, n: int) -> int
    decreases n,
{
    if n <= 0 || s[n - 1] != 0x20 {
        n
    } else {
        trim_len(s, n - 1)
    }
}

/// `s` without the spaces at its end.
pub open spec fn trimmed(s: Seq<u8>) -> Seq<u8> {
    s.subrange(0, trim_len(s, s.len() as int))
}

/// `s`, in lower case if `on`.
pub open spec fn lowered(s: Seq<u8>, on: bool) -> Seq<u8> {
    Seq::new(
        s.len(),
        |i: int|
            if on {
                spec_lowercase(s[i])
            } else {
                s[i]
            },
    )
}

/// The record belongs to a long name.
pub open spec fn is_long(rec: Seq<u8>) -> bool {
    rec[11] == ATTR_LONG_NAME
}

/// The low bytes of the thirteen characters of a long-name record.
pub open spec fn lfn_chars(rec: Seq<u8>) -> Seq<u8> {
    Seq::new(13, |i: int| rec[spec_lfn_offset(i)])
}

/// The stem of the short name: bytes 0 to 7 without the padding.
pub open spec fn stem(rec: Seq<u8>) -> Seq<u8> {
    trimmed(rec.subrange(0, 8))
}

/// The extension of the short name: bytes 8 to 10 without the padding.
pub open spec fn extension(rec: Seq<u8>) -> Seq<u8> {
    trimmed(rec.subrange(8, 11))
}

/// The name shows an extension: the entry is neither a volume label nor
/// a directory, and its extension is not empty.
pub open spec fn has_extension(rec: Seq<u8>) -> bool {
    rec[11] & (ATTR_VOLUME_ID | ATTR_DIRECTORY) == 0 && extension(rec).len() > 0
}

/// Stem, dot and extension, each part in lower case if asked for.
pub open spec fn composed(rec: Seq<u8>, lower_stem: bool, lower_ext: bool) -> Seq<u8> {
    if has_extension(rec) {
        lowered(stem(rec), lower_stem) + seq![0x2eu8] + lowered(extension(rec), lower_ext)
    } else {
        lowered(stem(rec), lower_stem)
    }
}

/// The short name of a record.
pub open spec fn short_name(rec: Seq<u8>) -> Seq<u8> {
    composed(rec, false, false)
}

/// The name to show for a record whose byte 12 asks for lower case, in
/// place of a long name: empty where it asks for none.
pub open spec fn display_name(rec: Seq<u8>) -> Seq<u8> {
    if rec[12] & 0x18 == 0 {
        Seq::<u8>::empty()
    } else {
        composed(rec, rec[12] & 0x08 != 0, rec[12] & 0x10 != 0)
    }
}

/// What a short record says, given the long name that goes with it.
pub open spec fn short_entry(rec: Seq<u8>, lfn: Seq<u8>) -> EntryView {
    EntryView {
        sfn: short_name(rec),
        lfn,
        attr: rec[11],
        cluster: (le16_at(rec, 20) * 65536 + le16_at(rec, 26)) as u32,
        size: le32_at(rec, 28) as u32,
    }
}

/// The long name that is being collected, if any.
pub enum Pending {
    Idle,
    /// The records from the last in file order down to number `expect`
    /// have been seen; `name` is what they spell, and `checksum` what
    /// each of them carries.
    Collecting { expect: u8, checksum: u8, name: Seq<u8> },
}

/// What one record does to the walk.
pub enum StepView {
    /// The record ends the directory.
    End,
    /// The record yields no entry; the walk goes on with this state.
    Skip(Pending),
    /// The record yields this entry.
    Entry(EntryView),
}

impl Pending {
    /// The state after a long-name record.
    ///
    /// A record with the last-record mark starts a name afresh; its
    /// number, which is its first byte without the mark, must be at least
    /// 1, and the name must fit. Any other record must
    /// carry the number below the one before, which is at least 1, the
    /// same checksum, and thirteen characters without a zero. Whatever
    /// else comes discards the name collected so far.
    pub open spec fn long(self, rec: Seq<u8>) -> Pending {
        let chars = lfn_chars(rec);
        let z = scan_zero(chars, 0);
        if rec[0] & LAST_LONG_ENTRY != 0 {
            let n = rec[0] & !LAST_LONG_ENTRY;
            if n == 0 || (n - 1) * 13 + z > 256 {
                Pending::Idle
            } else {
                Pending::Collecting {
                    expect: n,
                    checksum: rec[LDIR_CHKSUM as int],
                    name: chars.subrange(0, z),
                }
            }
        } else {
            match self {
                Pending::Collecting { expect, checksum, name } => if rec[LDIR_CHKSUM as int]
                    == checksum && 1
                    <= rec[0] && rec[0] + 1 == expect && z == 13 {
                    Pending::Collecting { expect: rec[0], checksum, name: chars + name }
                } else {
                    Pending::Idle
                },
                Pending::Idle => Pending::Idle,
            }
        }
    }

    /// The long name of the short record `rec`: the name collected, if its
    /// records went down to number 1, it is not empty and its checksum is
    /// that of the record's eleven name bytes; else the display name.
    pub open spec fn long_name(self, rec: Seq<u8>) -> Seq<u8> {
        match self {
            Pending::Collecting { expect, checksum, name } => if expect == 1 && name.len() > 0
                && spec_checksum(rec.subrange(0, 11)) == checksum {
                name
            } else {
                display_name(rec)
            },
            Pending::Idle => display_name(rec),
        }
    }

    /// What the record `rec` does in state `self`.
    pub open spec fn step(self, rec: Seq<u8>) -> StepView {
        if rec[0] == NO_MORE_DIR_ENTRY {
            StepView::End
        } else if rec[0] == DELETED_DIR_ENTRY {
            StepView::Skip(Pending::Idle)
        } else if is_long(rec) {
            StepView::Skip(self.long(rec))
        } else {
            StepView::Entry(short_entry(rec, self.long_name(rec)))
        }
    }
}

/// The long name being collected, as the walker holds it: the name so far
/// stands in `buf` from `(num - 1) * 13` up to `len`, where `num` is the
/// number of the record seen last, or 0 while no name is being collected.
#[derive(Clone, Copy, Debug)]
pub struct LfnState {
    pub buf: [u8; 256],
    pub num: u8,
    pub checksum: u8,
    pub len: usize,
}

/// What one record did to the walk.
#[derive(Clone, Copy, Debug)]
pub enum Step {
    End,
    Skip,
    Entry(DirEntry),
}

impl View for LfnState {
    type V = Pending;

    open spec fn view(&self) -> Pending {
        if self.num == 0 {
            Pending::Idle
        } else {
            Pending::Collecting {
                expect: self.num,
                checksum: self.checksum,
                name: self.buf@.subrange((self.num - 1) * 13, self.len as int),
            }
        }
    }
}

/// Finds the first zero among the thirteen characters of a long-name
/// record.
fn scan_chars(rec: &[u8]) -> (z: usize)
    requires
        rec@.len() == 32,
    ensures
        z == scan_zero(lfn_chars(rec@), 0),
        z <= 13,
        forall|i: int| 0 <= i < z ==> lfn_chars(rec@)[i] != 0,
{
    let ghost chars = lfn_chars(rec@);
    let mut i: usize = 0;
    while i < 13
        invariant
            i <= 13,
            rec@.len() == 32,
            chars == lfn_chars(rec@),
            scan_zero(chars, 0) == scan_zero(chars, i as int),
            forall|j: int| 0 <= j < i ==> chars[j] != 0,
        decreases 13 - i,
    {
        if rec[lfn_offset(i)] == 0 {
            return i;
        }
        i += 1;
    }
    i
}

/// Measures the bytes of `rec` from `from` up to `to` without the spaces
/// at their end.
fn trimmed_len(rec: &[u8], from: usize, to: usize) -> (n: usize)
    requires
        from <= to <= rec@.len(),
    ensures
        n == trim_len(rec@.subrange(from as int, to as int), to - from),
        n <= to - from,
{
    let ghost s = rec@.subrange(from as int, to as int);
    let mut n: usize = to - from;
    while n > 0
        invariant
            n <= to - from,
            from <= to <= rec@.len(),
            s == rec@.subrange(from as int, to as int),
            trim_len(s, to - from) == trim_len(s, n as int),
        decreases n,
    {
        if rec[from + n - 1] != 0x20 {
            return n;
        }
        n -= 1;
    }
    n
}

/// Writes stem, dot and extension of a short record to the front of
/// `out`, and returns how many bytes that took.
fn compose(rec: &[u8], lower_stem: bool, lower_ext: bool, out: &mut [u8]) -> (n: usize)
    requires
        rec@.len() == 32,
        old(out)@.len() >= 12,
    ensures
        final(out)@.len() == old(out)@.len(),
        n <= 12,
        final(out)@.subrange(0, n as int) == composed(rec@, lower_stem, lower_ext),
{
    let stem_len = trimmed_len(rec, 0, 8);
    let ext_len = trimmed_len(rec, 8, 11);
    let ghost st = lowered(stem(rec@), lower_stem);
    let ghost ex = lowered(extension(rec@), lower_ext);
    assert forall|j: int| 0 <= j < stem_len implies #[trigger] st[j] == if lower_stem {
        spec_lowercase(rec@[j])
    } else {
        rec@[j]
    } by {
        assert(stem(rec@)[j] == rec@.subrange(0, 8)[j]);
    }
    assert forall|j: int| 0 <= j < ext_len implies #[trigger] ex[j] == if lower_ext {
        spec_lowercase(rec@[8 + j])
    } else {
        rec@[8 + j]
    } by {
        assert(extension(rec@)[j] == rec@.subrange(8, 11)[j]);
    }
    let mut i: usize = 0;
    while i < stem_len
        invariant
            i <= stem_len <= 8,
            rec@.len() == 32,
            out@.len() == old(out)@.len(),
            out@.len() >= 12,
            st.len() == stem_len,
            forall|j: int|
                0 <= j < stem_len ==> #[trigger] st[j] == if lower_stem {
                    spec_lowercase(rec@[j])
                } else {
                    rec@[j]
                },
            forall|j: int| 0 <= j < i ==> out@[j] == st[j],
        decreases stem_len - i,
    {
        out[i] = if lower_stem {
            byte_to_lowercase(rec[i])
        } else {
            rec[i]
        };
        i += 1;
    }
    let mut n = stem_len;
    if (rec[11] & (ATTR_VOLUME_ID | ATTR_DIRECTORY)) == 0 && ext_len > 0 {
        out[n] = 0x2e;
        n += 1;
        let mut k: usize = 0;
        while k < ext_len
            invariant
                k <= ext_len <= 3,
                stem_len <= 8,
                n == stem_len + 1,
                rec@.len() == 32,
                out@.len() == old(out)@.len(),
                out@.len() >= 12,
                ex.len() == ext_len,
                st.len() == stem_len,
                forall|j: int|
                    0 <= j < ext_len ==> #[trigger] ex[j] == if lower_ext {
                        spec_lowercase(rec@[8 + j])
                    } else {
                        rec@[8 + j]
                    },
                forall|j: int| 0 <= j < stem_len ==> out@[j] == st[j],
                out@[stem_len as int] == 0x2e,
                forall|j: int| 0 <= j < k ==> out@[n + j] == ex[j],
            decreases ext_len - k,
        {
            out[n + k] = if lower_ext {
                byte_to_lowercase(rec[8 + k])
            } else {
                rec[8 + k]
            };
            k += 1;
        }
        n += ext_len;
        assert(out@.subrange(0, n as int) =~= st + seq![0x2eu8] + ex);
    } else {
        assert(out@.subrange(0, n as int) =~= st);
    }
    n
}

impl LfnState {
    /// The pending name lies within the buffer.
    pub open spec fn wf(&self) -> bool {
        self.num == 0 || (self.num - 1) * 13 <= self.len <= 256
    }

    /// A state in which no name is being collected.
    pub fn new() -> (s: Self)
        ensures
            s.wf(),
            s@ == Pending::Idle,
    {
        LfnState { buf: [0u8; 256], num: 0, checksum: 0, len: 0 }
    }

    /// Takes in a long-name record.
    ///
    /// The record either adds to the pending name or, if it does not fit,
    /// discards it: then the result is `Corruption`.
    pub fn long(&mut self, rec: &[u8]) -> (r: Result<(), Error>)
        requires
            rec@.len() == 32,
            old(self).wf(),
        ensures
            final(self).wf(),
            final(self)@ == old(self)@.long(rec@),
            match r {
                Ok(()) => final(self)@ is Collecting,
                Err(e) => e == Error::Corruption && final(self)@ == Pending::Idle,
            },
    {
        let ghost chars = lfn_chars(rec@);
        let z = scan_chars(rec);
        let first = rec[0];
        let number: u8;
        if (first & LAST_LONG_ENTRY) != 0 {
            let n = first & !LAST_LONG_ENTRY;
            if n == 0 || (n as usize - 1) * 13 + z > 256 {
                self.num = 0;
                return Err(Error::Corruption);
            }
            self.checksum = rec[LDIR_CHKSUM];
            self.len = (n as usize - 1) * 13 + z;
            number = n;
        } else {
            if self.num == 0 || rec[LDIR_CHKSUM] != self.checksum || first == 0 || first as u16 + 1
                != self.num as u16 || z != 13 {
                self.num = 0;
                return Err(Error::Corruption);
            }
            number = first;
        }
        let base = (number as usize - 1) * 13;
        let ghost len = self.len;
        let ghost sum = self.checksum;
        let mut i: usize = 0;
        while i < z
            invariant
                i <= z <= 13,
                rec@.len() == 32,
                chars == lfn_chars(rec@),
                base + z <= 256,
                self.len == len,
                self.checksum == sum,
                forall|j: int| 0 <= j < i ==> self.buf@[base + j] == chars[j],
                forall|j: int|
                    0 <= j < 256 && !(base <= j < base + i) ==> self.buf@[j] == old(self).buf@[j],
            decreases z - i,
        {
            self.buf[base + i] = rec[lfn_offset(i)];
            i += 1;
        }
        self.num = number;
        proof {
            let name = self.buf@.subrange(base as int, self.len as int);
            if first & LAST_LONG_ENTRY != 0 {
                assert(name =~= chars.subrange(0, z as int));
            } else {
                let before = old(self).buf@.subrange((old(self).num - 1) * 13, old(self).len as int);
                assert(name =~= chars + before);
            }
        }
        Ok(())
    }

    /// Decodes a short record into the entry it stands for, with the long
    /// name collected for it if that name is valid.
    fn short(&self, rec: &[u8]) -> (e: DirEntry)
        requires
            rec@.len() == 32,
            self.wf(),
        ensures
            e.wf(),
            e@ == short_entry(rec@, self@.long_name(rec@)),
    {
        let mut sfn_buf = [0u8; 12];
        let sfn_len = compose(rec, false, false, &mut sfn_buf);
        let mut lfn_buf = [0u8; 256];
        let mut lfn_len: usize = 0;
        if self.num == 1 && self.len != 0 && checksum(slice_subrange(rec, 0, 11)) == self.checksum {
            lfn_buf = self.buf;
            lfn_len = self.len;
        } else if (rec[12] & 0x18) != 0 {
            lfn_len = compose(rec, (rec[12] & 0x08) != 0, (rec[12] & 0x10) != 0, &mut lfn_buf);
        }
        let cluster_hi = u16_at(rec, 20) as u32;
        let cluster_lo = u16_at(rec, 26) as u32;
        let e = DirEntry {
            sfn_buf,
            sfn_len,
            lfn_buf,
            lfn_len,
            attr: rec[11],
            cluster: cluster_hi * 65536 + cluster_lo,
            size: u32_at(rec, 28),
        };
        assert(e@.sfn =~= short_name(rec@));
        assert(e@.lfn =~= self@.long_name(rec@));
        e
    }

    /// Takes in the next record of a directory.
    ///
    /// An end mark and an entry leave no name pending; a deleted record
    /// discards the pending name; a long-name record adds to it or
    /// discards it.
    pub fn feed(&mut self, rec: &[u8]) -> (r: Step)
        requires
            rec@.len() == 32,
            old(self).wf(),
        ensures
            final(self).wf(),
            match r {
                Step::End => old(self)@.step(rec@) == StepView::End && final(self)@
                    == Pending::Idle,
                Step::Skip => old(self)@.step(rec@) == StepView::Skip(final(self)@),
                Step::Entry(e) => e.wf() && old(self)@.step(rec@) == StepView::Entry(e@)
                    && final(self)@ == Pending::Idle,
            },
            rec@[0] == NO_MORE_DIR_ENTRY ==> r is End,
            rec@[0] == DELETED_DIR_ENTRY ==> r is Skip && final(self)@ == Pending::Idle,
    {
        if rec[0] == NO_MORE_DIR_ENTRY {
            self.num = 0;
            return Step::End;
        }
        if rec[0] == DELETED_DIR_ENTRY {
            self.num = 0;
            return Step::Skip;
        }
        if rec[11] == ATTR_LONG_NAME {
            let _ = self.long(rec);
            return Step::Skip;
        }
        let e = self.short(rec);
        self.num = 0;
        Step::Entry(e)
    }
}

/// A walk through the entries of one directory.
#[derive(Clone, Copy, Debug, PartialEq, Eq, Structural)]
pub struct Dir {
    pub stream: Stream,
}

impl Dir {
    /// The walk stands at a position that the volume has.
    pub open spec fn wf(self, vol: Volume) -> bool {
        self.stream.wf(vol)
    }

    /// The walk at the start of the directory at `cluster`.
    pub open spec fn spec_new(cluster: u32) -> Dir {
        Dir {
            stream: Stream {
                first_cluster: cluster,
                current_cluster: cluster,
                sector_in_cluster: 0,
                offset_in_sector: 0,
                global_offset: 0,
                linear: cluster == 0,
            },
        }
    }

    /// What the records from `stream` on yield in state `st`: the next
    /// entry and the stream behind it, or nothing at the end mark. A
    /// stream that fails, or that ends within a record, ends the walk
    /// with its error.
    pub open spec fn spec_scan(stream: Stream, st: Pending, vol: Volume) -> Result<
        Option<(EntryView, Stream)>,
        Error,
    >
        decreases u32::MAX - stream.global_offset,
    {
        match stream.spec_read(vol, 32) {
            Err(e) => Err(e),
            Ok((s, rec)) => if s.global_offset != stream.global_offset + 32 {
                Err(Error::EndOfStream)
            } else {
                match st.step(rec) {
                    StepView::End => Ok(None),
                    StepView::Skip(next) => Self::spec_scan(s, next, vol),
                    StepView::Entry(e) => Ok(Some((e, s))),
                }
            },
        }
    }

    /// The walk from `stream` on in state `st` needs no device: every
    /// record, up to the one that yields an entry or ends the walk, is read
    /// from the resident sector.
    pub open spec fn spec_served<T: StorageIo>(stream: Stream, st: Pending, fs: &Fs<T>) -> bool
        decreases u32::MAX - stream.global_offset,
    {
        &&& stream.served(fs, 32)
        &&& match stream.spec_read(fs@, 32) {
            Ok((s, rec)) => if s.global_offset != stream.global_offset + 32 {
                true
            } else {
                match st.step(rec) {
                    StepView::Skip(next) => Self::spec_served(s, next, fs),
                    _ => true,
                }
            },
            Err(_) => true,
        }
    }

    /// The next step of the walk needs no device.
    pub open spec fn served<T: StorageIo>(self, fs: &Fs<T>) -> bool {
        Self::spec_served(self.stream, Pending::Idle, fs)
    }

    /// The next entry and the walk behind it, when the device does not
    /// fail.
    pub open spec fn spec_next(self, vol: Volume) -> Result<Option<(EntryView, Dir)>, Error> {
        match Self::spec_scan(self.stream, Pending::Idle, vol) {
            Err(e) => Err(e),
            Ok(None) => Ok(None),
            Ok(Some((e, s))) => Ok(Some((e, Dir { stream: s }))),
        }
    }

    /// A walk at the start of the directory at `cluster`; cluster 0 stands
    /// for the fixed root directory.
    pub fn new<T: StorageIo>(fs: &Fs<T>, cluster: u32) -> (d: Self)
        ensures
            d == Self::spec_new(cluster),
            fs@.wf() ==> d.wf(fs@),
    {
        Dir { stream: Stream::new(fs, cluster, cluster == 0) }
    }

    /// A walk over the same directory, from its start.
    pub fn iter(&self) -> (d: Self)
        ensures
            d == Self::spec_new(self.stream.first_cluster),
    {
        Dir {
            stream: Stream {
                first_cluster: self.stream.first_cluster,
                current_cluster: self.stream.first_cluster,
                sector_in_cluster: 0,
                offset_in_sector: 0,
                global_offset: 0,
                linear: self.stream.first_cluster == 0,
            },
        }
    }

    /// Reads on to the next entry.
    ///
    /// Returns the entry, with the walk behind it; or `None` at the end
    /// mark, or the stream's error, and then the walk stays where it was,
    /// so that the end of a directory is final. The outcome is that of
    /// `spec_next`, unless the device fails; a step that the resident
    /// sector serves does not fail with `Io`, and leaves the cache as it
    /// was.
    pub fn try_next<T: StorageIo>(&mut self, fs: &mut Fs<T>) -> (r: Result<Option<DirEntry>, Error>)
        requires
            old(fs).wf(),
            old(self).wf(old(fs)@),
        ensures
            final(fs).wf(),
            final(fs)@ == old(fs)@,
            final(self).wf(final(fs)@),
            match r {
                Ok(Some(e)) => {
                    &&& e.wf()
                    &&& old(self).spec_next(old(fs)@) == Ok::<Option<(EntryView, Dir)>, Error>(
                        Some((e@, *final(self))),
                    )
                },
                Ok(None) => {
                    &&& *final(self) == *old(self)
                    &&& old(self).spec_next(old(fs)@) == Ok::<Option<(EntryView, Dir)>, Error>(None)
                },
                Err(e) => {
                    &&& *final(self) == *old(self)
                    &&& e == Error::Io || old(self).spec_next(old(fs)@) == Err::<
                        Option<(EntryView, Dir)>,
                        Error,
                    >(e)
                },
            },
            old(self).served(old(fs)) ==> *final(fs) == *old(fs) && r != Err::<
                Option<DirEntry>,
                Error,
            >(Error::Io),
    {
        let ghost vol = fs@;
        let ghost entry = *fs;
        let start = self.stream;
        let mut s = self.stream;
        let mut st = LfnState::new();
        loop
            invariant
                fs.wf(),
                fs@ == vol,
                vol == old(fs)@,
                entry == *old(fs),
                *self == *old(self),
                self.wf(vol),
                start == old(self).stream,
                s.wf(vol),
                st.wf(),
                Self::spec_scan(s, st@, vol) == Self::spec_scan(start, Pending::Idle, vol),
                Self::spec_served(start, Pending::Idle, &entry) ==> *fs == entry
                    && Self::spec_served(s, st@, &entry),
            decreases u32::MAX - s.global_offset,
        {
            let before = s.global_offset;
            let ghost from = s;
            let mut rec = [0u8; 32];
            match s.read(fs, &mut rec) {
                Ok(_) => {},
                Err(e) => {
                    return Err(e);
                },
            }
            proof {
                lemma_read(from, vol, 32);
            }
            if s.global_offset - before != 32 {
                return Err(Error::EndOfStream);
            }
            assert(rec@.len() == 32);
            match st.feed(&rec) {
                Step::End => {
                    return Ok(None);
                },
                Step::Skip => {},
                Step::Entry(e) => {
                    self.stream = s;
                    return Ok(Some(e));
                },
            }
        }
    }

    /// Reads on to the next entry. The end of the directory and a failure
    /// of the stream both give `None`, and leave the walk where it was. A
    /// step that the resident sector serves yields the entry that
    /// `spec_next` gives, if it gives one.
    pub fn next<T: StorageIo>(&mut self, fs: &mut Fs<T>) -> (r: Option<DirEntry>)
        requires
            old(fs).wf(),
            old(self).wf(old(fs)@),
        ensures
            final(fs).wf(),
            final(fs)@ == old(fs)@,
            final(self).wf(final(fs)@),
            match r {
                Some(e) => {
                    &&& e.wf()
                    &&& old(self).spec_next(old(fs)@) == Ok::<Option<(EntryView, Dir)>, Error>(
                        Some((e@, *final(self))),
                    )
                },
                None => {
                    &&& *final(self) == *old(self)
                    &&& old(self).served(old(fs)) ==> !(old(self).spec_next(old(fs)@) matches Ok(
                        Some(_),
                    ))
                },
            },
            old(self).served(old(fs)) ==> *final(fs) == *old(fs),
    {
        match self.try_next(fs) {
            Ok(found) => found,
            Err(_) => None,
        }
    }
}

/// An entry that a walk yields lies behind the position the walk started
/// from.
pub proof fn lemma_scan_advances(stream: Stream, st: Pending, vol: Volume)
    requires
        Dir::spec_scan(stream, st, vol) matches Ok(Some(_)),
    ensures
        Dir::spec_scan(stream, st, vol)->Ok_0->Some_0.1.global_offset > stream.global_offset,
    decreases u32::MAX - stream.global_offset,
{
    let (s, rec) = stream.spec_read(vol, 32)->Ok_0;
    match st.step(rec) {
        StepView::Skip(next) => {
            lemma_scan_advances(s, next, vol);
        },
        _ => {},
    }
}

impl Dir {
    /// The first entry behind the position that bears `name` and is a
    /// directory, or is none, as `want_dir` says. A walk that fails finds
    /// nothing.
    pub open spec fn spec_find(self, vol: Volume, name: Seq<u8>, want_dir: bool) -> Option<
        EntryView,
    >
        decreases u32::MAX - self.stream.global_offset,
    {
        match self.spec_next(vol) {
            Ok(Some((e, d))) => if e.named(name) && e.is_dir() == want_dir {
                Some(e)
            } else {
                proof {
                    lemma_scan_advances(self.stream, Pending::Idle, vol);
                }
                d.spec_find(vol, name, want_dir)
            },
            _ => None,
        }
    }

    /// The entry that the segments of `path` from `from` on lead to,
    /// starting in the directory at `cluster`: every segment but the last
    /// names a directory, and the last a directory or a file, as
    /// `want_dir` says. A path without a segment leads nowhere.
    pub open spec fn spec_lookup(
        vol: Volume,
        cluster: u32,
        path: Seq<u8>,
        from: nat,
        want_dir: bool,
    ) -> Option<EntryView>
        decreases path.len() - from,
    {
        match next_segment(path, from as int) {
            None => None,
            Some((start, stop)) => {
                let last = next_segment(path, stop) is None;
                match Self::spec_new(cluster).spec_find(
                    vol,
                    path.subrange(start, stop),
                    !last || want_dir,
                ) {
                    None => None,
                    Some(e) => if last {
                        Some(e)
                    } else {
                        proof {
                            lemma_skip_separators(path, from as int);
                            lemma_segment_end(path, start);
                        }
                        Self::spec_lookup(vol, e.cluster, path, stop as nat, want_dir)
                    },
                }
            },
        }
    }

    /// The search for `name` from the position on needs no device: every
    /// step of the walk, up to the entry found or the end, is served by
    /// the resident sector.
    pub open spec fn find_served<T: StorageIo>(
        self,
        fs: &Fs<T>,
        name: Seq<u8>,
        want_dir: bool,
    ) -> bool
        decreases u32::MAX - self.stream.global_offset,
    {
        &&& self.served(fs)
        &&& match self.spec_next(fs@) {
            Ok(Some((e, d))) => if e.named(name) && e.is_dir() == want_dir {
                true
            } else {
                proof {
                    lemma_scan_advances(self.stream, Pending::Idle, fs@);
                }
                d.find_served(fs, name, want_dir)
            },
            _ => true,
        }
    }

    /// Following the segments of `path` from `from` on needs no device:
    /// the search for each segment does not.
    pub open spec fn lookup_served<T: StorageIo>(
        fs: &Fs<T>,
        cluster: u32,
        path: Seq<u8>,
        from: nat,
        want_dir: bool,
    ) -> bool
        decreases path.len() - from,
    {
        match next_segment(path, from as int) {
            None => true,
            Some((start, stop)) => {
                let last = next_segment(path, stop) is None;
                let name = path.subrange(start, stop);
                &&& Self::spec_new(cluster).find_served(fs, name, !last || want_dir)
                &&& match Self::spec_new(cluster).spec_find(fs@, name, !last || want_dir) {
                    None => true,
                    Some(e) => if last {
                        true
                    } else {
                        proof {
                            lemma_skip_separators(path, from as int);
                            lemma_segment_end(path, start);
                        }
                        Self::lookup_served(fs, e.cluster, path, stop as nat, want_dir)
                    },
                }
            },
        }
    }

    /// The cluster of the directory that `path` names, seen from the
    /// directory at `cluster`. A path without a segment names that
    /// directory itself.
    pub open spec fn spec_dir_open(vol: Volume, cluster: u32, path: Seq<u8>) -> Option<u32> {
        if next_segment(path, 0) is None {
            Some(cluster)
        } else {
            match Self::spec_lookup(vol, cluster, path, 0, true) {
                Some(e) => Some(e.cluster),
                None => None,
            }
        }
    }

    /// Walks on from the position to the first entry that bears `name`
    /// and is of the kind asked for.
    fn find<T: StorageIo>(&self, fs: &mut Fs<T>, name: &[u8], want_dir: bool) -> (r: Result<
        Option<DirEntry>,
        Error,
    >)
        requires
            old(fs).wf(),
            self.wf(old(fs)@),
        ensures
            final(fs).wf(),
            final(fs)@ == old(fs)@,
            match r {
                Ok(Some(e)) => e.wf() && self.spec_find(old(fs)@, name@, want_dir) == Some(e@),
                Ok(None) => self.spec_find(old(fs)@, name@, want_dir) is None,
                Err(e) => e == Error::Io,
            },
            self.find_served(old(fs), name@, want_dir) ==> r is Ok && *final(fs) == *old(fs),
    {
        let ghost vol = fs@;
        let ghost entry = *fs;
        let mut d = *self;
        loop
            invariant
                fs.wf(),
                fs@ == vol,
                vol == old(fs)@,
                entry == *old(fs),
                d.wf(vol),
                d.spec_find(vol, name@, want_dir) == self.spec_find(vol, name@, want_dir),
                self.find_served(&entry, name@, want_dir) ==> *fs == entry && d.find_served(
                    &entry,
                    name@,
                    want_dir,
                ),
            decreases u32::MAX - d.stream.global_offset,
        {
            let ghost before = d;
            match d.try_next(fs) {
                Ok(Some(e)) => {
                    proof {
                        lemma_scan_advances(before.stream, Pending::Idle, vol);
                    }
                    if e.compare(name) && e.is_dir() == want_dir {
                        return Ok(Some(e));
                    }
                },
                Ok(None) => {
                    return Ok(None);
                },
                Err(Error::Io) => {
                    return Err(Error::Io);
                },
                Err(_) => {
                    return Ok(None);
                },
            }
        }
    }

    /// Follows the segments of `path` from the directory that `self`
    /// walks. A path without a segment leads nowhere, and the device is
    /// not asked; a lookup that the resident sector serves does not fail.
    fn lookup<T: StorageIo>(&self, fs: &mut Fs<T>, path: &[u8], want_dir: bool) -> (r: Result<
        Option<DirEntry>,
        Error,
    >)
        requires
            old(fs).wf(),
        ensures
            final(fs).wf(),
            final(fs)@ == old(fs)@,
            match r {
                Ok(Some(e)) => e.wf() && Self::spec_lookup(
                    old(fs)@,
                    self.stream.first_cluster,
                    path@,
                    0,
                    want_dir,
                ) == Some(e@),
                Ok(None) => Self::spec_lookup(
                    old(fs)@,
                    self.stream.first_cluster,
                    path@,
                    0,
                    want_dir,
                ) is None,
                Err(e) => e == Error::Io,
            },
            next_segment(path@, 0) is None ==> r == Ok::<Option<DirEntry>, Error>(None),
            Self::lookup_served(old(fs), self.stream.first_cluster, path@, 0, want_dir) ==> r is Ok
                && *final(fs) == *old(fs),
    {
        let ghost vol = fs@;
        let ghost entry = *fs;
        let mut cluster = self.stream.first_cluster;
        let mut from: usize = 0;
        loop
            invariant
                fs.wf(),
                fs@ == vol,
                vol == old(fs)@,
                entry == *old(fs),
                from <= path@.len(),
                from == 0 || next_segment(path@, 0) is Some,
                Self::lookup_served(&entry, self.stream.first_cluster, path@, 0, want_dir) ==> *fs
                    == entry && Self::lookup_served(
                    &entry,
                    cluster,
                    path@,
                    from as nat,
                    want_dir,
                ),
                Self::spec_lookup(vol, cluster, path@, from as nat, want_dir) == Self::spec_lookup(
                    vol,
                    self.stream.first_cluster,
                    path@,
                    0,
                    want_dir,
                ),
            decreases path@.len() - from,
        {
            let (start, stop) = match find_segment(path, from) {
                Some(found) => found,
                None => {
                    return Ok(None);
                },
            };
            let last = find_segment(path, stop).is_none();
            let name = slice_subrange(path, start, stop);
            let d = Dir::new(fs, cluster);
            match d.find(fs, name, !last || want_dir) {
                Ok(Some(e)) => {
                    if last {
                        return Ok(Some(e));
                    }
                    cluster = e.cluster;
                    from = stop;
                },
                Ok(None) => {
                    return Ok(None);
                },
                Err(e) => {
                    return Err(e);
                },
            }
        }
    }

    /// Opens the directory that `path` names, seen from this directory.
    ///
    /// Every segment of the path must name a directory; a path without a
    /// segment names this directory, and is opened without the device.
    /// The result is a walk at the start of the directory found,
    /// `NotFound` if a segment names no directory, or `Io` if the device
    /// failed. A lookup that the resident sector serves does not fail with
    /// `Io`, and leaves the cache as it is.
    pub fn dir_open<T: StorageIo>(&self, fs: &mut Fs<T>, path: &[u8]) -> (r: Result<Dir, Error>)
        requires
            old(fs).wf(),
        ensures
            final(fs).wf(),
            final(fs)@ == old(fs)@,
            match r {
                Ok(d) => d.wf(final(fs)@) && Self::spec_dir_open(
                    old(fs)@,
                    self.stream.first_cluster,
                    path@,
                ) == Some(d.stream.first_cluster) && d == Self::spec_new(d.stream.first_cluster),
                Err(e) => e == Error::Io || (e == Error::NotFound && Self::spec_dir_open(
                    old(fs)@,
                    self.stream.first_cluster,
                    path@,
                ) is None),
            },
            next_segment(path@, 0) is None ==> r is Ok && *final(fs) == *old(fs),
            Self::lookup_served(old(fs), self.stream.first_cluster, path@, 0, true) ==> *final(fs)
                == *old(fs) && r != Err::<Dir, Error>(Error::Io),
    {
        if find_segment(path, 0).is_none() {
            return Ok(Dir::new(fs, self.stream.first_cluster));
        }
        match self.lookup(fs, path, true) {
            Ok(Some(e)) => Ok(Dir::new(fs, e.cluster)),
            Ok(None) => Err(Error::NotFound),
            Err(e) => Err(e),
        }
    }

    /// Opens the file that `path` names, seen from this directory.
    ///
    /// Every segment of the path but the last must name a directory, and
    /// the last a file; a path without a segment names no file, and is
    /// refused without the device. The result is the file at its first
    /// byte, `NotFound` if a segment names nothing of its kind, or `Io` if
    /// the device failed. A lookup that the resident sector serves does
    /// not fail with `Io`, and leaves the cache as it is.
    pub fn file_open<T: StorageIo>(&self, fs: &mut Fs<T>, path: &[u8]) -> (r: Result<File, Error>)
        requires
            old(fs).wf(),
        ensures
            final(fs).wf(),
            final(fs)@ == old(fs)@,
            match r {
                Ok(f) => {
                    &&& Self::spec_lookup(old(fs)@, self.stream.first_cluster, path@, 0, false)
                        matches Some(e)
                    &&& f.stream == Self::spec_new(e.cluster).stream
                    &&& f.size == e.size
                    &&& f.wf(final(fs)@)
                },
                Err(e) => e == Error::Io || (e == Error::NotFound && Self::spec_lookup(
                    old(fs)@,
                    self.stream.first_cluster,
                    path@,
                    0,
                    false,
                ) is None),
            },
            next_segment(path@, 0) is None ==> *final(fs) == *old(fs) && r == Err::<File, Error>(
                Error::NotFound,
            ),
            Self::lookup_served(old(fs), self.stream.first_cluster, path@, 0, false) ==> *final(fs)
                == *old(fs) && r != Err::<File, Error>(Error::Io),
    {
        match self.lookup(fs, path, false) {
            Ok(Some(e)) => Ok(File::new(Stream::new(fs, e.cluster, e.cluster == 0), e.size)),
            Ok(None) => Err(Error::NotFound),
            Err(e) => Err(e),
        }
    }
}

/// The state after the long-name records `recs`, taken in from state `st`
/// in the order in which they stand in the directory.
pub open spec fn spec_collect(st: Pending, recs: Seq<Seq<u8>>) -> Pending
    decreases recs.len(),
{
    if recs.len() == 0 {
        st
    } else {
        spec_collect(st, recs.drop_last()).long(recs.last())
    }
}

/// The records `recs` spell the long name `name` for a short name whose
/// checksum is `sum`: the record that stands first is marked as the last
/// and numbered with their count, the others count down to 1, all carry
/// `sum`, and the characters of the name stand in them from the last
/// record backwards, thirteen to a record, with a zero behind the name
/// where the first record has room left.
pub open spec fn carries(recs: Seq<Seq<u8>>, name: Seq<u8>, sum: u8) -> bool {
    let n = recs.len() as int;
    &&& 1 <= n <= 63
    &&& (n - 1) * 13 < name.len() <= n * 13
    &&& name.len() <= 256
    &&& forall|i: int| 0 <= i < name.len() ==> name[i] != 0
    &&& forall|j: int|
        0 <= j < n ==> {
            &&& (#[trigger] recs[j]).len() == 32
            &&& recs[j][13] == sum
            &&& recs[j][0] == if j == 0 {
                0x40 + n
            } else {
                n - j
            }
        }
    &&& forall|j: int, i: int|
        0 <= j < n && 0 <= i < 13 ==> {
            let at = (n - 1 - j) * 13 + i;
            &&& at < name.len() ==> (#[trigger] recs[j][spec_lfn_offset(i)]) == name[at]
            &&& at == name.len() ==> recs[j][spec_lfn_offset(i)] == 0
        }
}

/// `scan_zero` finds the place that is a zero with none before it.
pub proof fn lemma_scan_zero_is(s: Seq<u8>, from: int, z: int)
    requires
        0 <= from <= z <= s.len(),
        forall|i: int| from <= i < z ==> s[i] != 0,
        z < s.len() ==> s[z] == 0,
    ensures
        scan_zero(s, from) == z,
    decreases z - from,
{
    if from < z {
        lemma_scan_zero_is(s, from + 1, z);
    }
}

proof fn lemma_sequence_bytes(first: u8, n: u8, k: u8)
    by (bit_vector)
    requires
        1 <= n <= 63,
        first == 0x40 + n,
        1 <= k <= 62,
    ensures
        first & 0x40 != 0,
        first & !0x40u8 == n,
        k & 0x40 == 0,
{
}

/// After the first `m` records of a sequence that spells `name`, the
/// part of the name that they carry has been collected.
pub proof fn lemma_collects(st: Pending, recs: Seq<Seq<u8>>, name: Seq<u8>, sum: u8, m: int)
    requires
        carries(recs, name, sum),
        1 <= m <= recs.len(),
    ensures
        spec_collect(st, recs.subrange(0, m)) == (Pending::Collecting {
            expect: (recs.len() - m + 1) as u8,
            checksum: sum,
            name: name.subrange((recs.len() - m) * 13, name.len() as int),
        }),
    decreases m,
{
    let n = recs.len() as int;
    let part = recs.subrange(0, m);
    let rec = recs[m - 1];
    let chars = lfn_chars(rec);
    assert(part.last() == rec);
    assert(part.drop_last() =~= recs.subrange(0, m - 1));
    assert(rec.len() == 32);
    let base = (n - m) * 13;
    assert forall|i: int| 0 <= i < 13 && base + i < name.len() implies chars[i] == name[base
        + i] by {
        assert(recs[m - 1][spec_lfn_offset(i)] == name[(n - 1 - (m - 1)) * 13 + i]);
    }
    if m == 1 {
        assert(recs.subrange(0, 0) =~= Seq::<Seq<u8>>::empty());
        assert(spec_collect(st, recs.subrange(0, 0)) == st);
        let z = name.len() - base;
        assert(rec[0] == 0x40 + n);
        lemma_sequence_bytes(rec[0], n as u8, 1);
        assert(rec[0] & LAST_LONG_ENTRY != 0);
        assert(rec[0] & !LAST_LONG_ENTRY == n);
        if z < 13 {
            assert(recs[0][spec_lfn_offset(z)] == 0);
        }
        lemma_scan_zero_is(chars, 0, z);
        assert(chars.subrange(0, z) =~= name.subrange(base, name.len() as int));
    } else {
        lemma_collects(st, recs, name, sum, m - 1);
        let k = (n - (m - 1)) as u8;
        lemma_sequence_bytes(0x41, 1, k);
        assert(rec[0] == k);
        assert(rec[0] & LAST_LONG_ENTRY == 0);
        lemma_scan_zero_is(chars, 0, 13);
        let before = name.subrange(base + 13, name.len() as int);
        assert(chars + before =~= name.subrange(base, name.len() as int));
    }
}

/// A long name that its records spell is the long name of the entry that
/// follows them, whatever came before: the checksum that the records
/// carry is that of the short name, and the name is read back byte for
/// byte.
pub proof fn lemma_long_name_recovered(
    st: Pending,
    recs: Seq<Seq<u8>>,
    name: Seq<u8>,
    sum: u8,
    short: Seq<u8>,
)
    requires
        carries(recs, name, sum),
        short.len() == 32,
        spec_checksum(short.subrange(0, 11)) == sum,
        short[0] != NO_MORE_DIR_ENTRY,
        short[0] != DELETED_DIR_ENTRY,
        !is_long(short),
    ensures
        spec_collect(st, recs).step(short) == StepView::Entry(short_entry(short, name)),
        short_entry(short, name).lfn == name,
        short_entry(short, name).named(name),
{
    lemma_collects(st, recs, name, sum, recs.len() as int);
    assert(recs.subrange(0, recs.len() as int) =~= recs);
    assert(name.subrange(0, name.len() as int) =~= name);
}

/// A record whose first byte is zero ends the walk, whatever follows it
/// and whatever name is pending.
pub proof fn lemma_end_mark_halts(stream: Stream, st: Pending, vol: Volume)
    requires
        stream.spec_read(vol, 32) matches Ok((s, rec)) && s.global_offset == stream.global_offset
            + 32 && rec[0] == NO_MORE_DIR_ENTRY,
    ensures
        Dir::spec_scan(stream, st, vol) == Ok::<Option<(EntryView, Stream)>, Error>(None),
{
}

/// A deleted record yields no entry and discards the pending name.
pub proof fn lemma_deleted_discards(st: Pending, rec: Seq<u8>)
    requires
        rec[0] == DELETED_DIR_ENTRY,
    ensures
        st.step(rec) == StepView::Skip(Pending::Idle),
{
}

impl Dir {
    /// The entry that the walk yields after `n` others.
    pub open spec fn spec_nth(self, vol: Volume, n: nat) -> Option<EntryView>
        decreases n,
    {
        match self.spec_next(vol) {
            Ok(Some((e, d))) => if n == 0 {
                Some(e)
            } else {
                d.spec_nth(vol, (n - 1) as nat)
            },
            _ => None,
        }
    }
}

/// Two walks from the start of one directory yield the same entries: what
/// a walk yields is decided by the first cluster of the directory and by
/// the bytes of the volume, which no walk changes.
pub proof fn lemma_walks_agree(first: Volume, second: Volume, cluster: u32, n: nat)
    requires
        first == second,
    ensures
        Dir::spec_new(cluster).spec_nth(first, n) == Dir::spec_new(cluster).spec_nth(second, n),
{
}

} // verus!
