use vstd::prelude::*;
use vstd::slice::slice_subrange;

verus! {

/// The attribute bit of a file that must not be written.
pub const ATTR_READ_ONLY: u8 = 0x01;

/// The attribute bit of an entry that listings leave out.
pub const ATTR_HIDDEN: u8 = 0x02;

/// The attribute bit of a file of the operating system.
pub const ATTR_SYSTEM: u8 = 0x04;

/// The attribute bit of the entry that holds the volume's label.
pub const ATTR_VOLUME_ID: u8 = 0x08;

/// The attribute bit of a directory.
pub const ATTR_DIRECTORY: u8 = 0x10;

/// The attribute bit of a file changed since its last backup.
pub const ATTR_ARCHIVE: u8 = 0x20;

/// One entry of a directory: its short name, its long name if it has one,
/// and where its contents are.
#[derive(Clone, Copy, Debug)]
pub struct DirEntry {
    pub sfn_buf: [u8; 12],
    pub sfn_len: usize,
    pub lfn_buf: [u8; 256],
    pub lfn_len: usize,
    pub attr: u8,
    pub cluster: u32,
    pub size: u32,
}

/// What an entry says: the names without the unused rest of their buffers.
pub struct EntryView {
    pub sfn: Seq<u8>,
    pub lfn: Seq<u8>,
    pub attr: u8,
    pub cluster: u32,
    pub size: u32,
}

impl EntryView {
    /// The long name where there is one, else the short name.
    pub open spec fn name(self) -> Seq<u8> {
        if self.lfn.len() > 0 {
            self.lfn
        } else {
            self.sfn
        }
    }

    /// The entry is a directory.
    pub open spec fn is_dir(self) -> bool {
        self.attr & ATTR_DIRECTORY != 0
    }

    /// `name` is the short or the long name, byte for byte.
    pub open spec fn named(self, name: Seq<u8>) -> bool {
        name == self.sfn || name == self.lfn
    }
}

impl View for DirEntry {
    type V = EntryView;

    open spec fn view(&self) -> EntryView {
        EntryView {
            sfn: self.sfn_buf@.subrange(0, self.sfn_len as int),
            lfn: self.lfn_buf@.subrange(0, self.lfn_len as int),
            attr: self.attr,
            cluster: self.cluster,
            size: self.size,
        }
    }
}

/// Tells whether two runs of bytes are the same.
pub fn same_bytes(a: &[u8], b: &[u8]) -> (r: bool)
    ensures
        r == (a@ == b@),
{
    if a.len() != b.len() {
        return false;
    }
    let mut i: usize = 0;
    while i < a.len()
        invariant
            i <= a@.len(),
            a@.len() == b@.len(),
            forall|j: int| 0 <= j < i ==> a@[j] == b@[j],
        decreases a@.len() - i,
    {
        if a[i] != b[i] {
            return false;
        }
        i += 1;
    }
    assert(a@ =~= b@);
    true
}

impl DirEntry {
    /// The lengths of both names fit their buffers.
    pub open spec fn wf(&self) -> bool {
        self.sfn_len <= 12 && self.lfn_len <= 256
    }

    /// An entry without a name that stands for the directory at `cluster`.
    pub fn root(cluster: u32) -> (e: Self)
        ensures
            e.wf(),
            e@ == (EntryView {
                sfn: Seq::<u8>::empty(),
                lfn: Seq::<u8>::empty(),
                attr: ATTR_DIRECTORY,
                cluster,
                size: 0,
            }),
    {
        let e = DirEntry {
            sfn_buf: [0u8; 12],
            sfn_len: 0,
            lfn_buf: [0u8; 256],
            lfn_len: 0,
            attr: ATTR_DIRECTORY,
            cluster,
            size: 0,
        };
        assert(e@.sfn =~= Seq::<u8>::empty());
        assert(e@.lfn =~= Seq::<u8>::empty());
        e
    }

    /// Tells whether `name` is the entry's short name or its long name.
    pub fn compare(&self, name: &[u8]) -> (r: bool)
        requires
            self.wf(),
        ensures
            r == self@.named(name@),
    {
        if same_bytes(name, slice_subrange(self.sfn_buf.as_slice(), 0, self.sfn_len)) {
            return true;
        }
        same_bytes(name, slice_subrange(self.lfn_buf.as_slice(), 0, self.lfn_len))
    }

    /// The long name where there is one, else the short name.
    pub fn name(&self) -> (r: &[u8])
        requires
            self.wf(),
        ensures
            r@ == self@.name(),
    {
        if self.lfn_len > 0 {
            slice_subrange(self.lfn_buf.as_slice(), 0, self.lfn_len)
        } else {
            slice_subrange(self.sfn_buf.as_slice(), 0, self.sfn_len)
        }
    }

    /// Tells whether the entry is a directory.
    pub fn is_dir(&self) -> (r: bool)
        ensures
            r == self@.is_dir(),
            r == (self.attr & ATTR_DIRECTORY != 0),
    {
        (self.attr & ATTR_DIRECTORY) != 0
    }

    /// Tells whether the entry is no directory.
    pub fn is_file(&self) -> (r: bool)
        ensures
            r == !self@.is_dir(),
            r == (self.attr & ATTR_DIRECTORY == 0),
    {
        (self.attr & ATTR_DIRECTORY) == 0
    }

    /// The size of the file in bytes.
    pub fn size(&self) -> (r: u32)
        ensures
            r == self.size,
    {
        self.size
    }
}

} // verus!
