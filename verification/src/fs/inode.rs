//! Open files.
use vstd::prelude::*;
use super::pipe::Pipe;
use crate::easy_fs::block_cache::BlockCacheManager;
use crate::easy_fs::block_dev::BlockDevice;
use crate::easy_fs::layout::{
    file_byte, fs_of, layout, transfer_len, DiskInode, INDIRECT2_BOUND,
};

verus! {

/// An open file on the disk: whether it can be read and written, the place
/// in the file at which the next read or write starts, and the inode.
pub struct OSInode {
    pub readable: bool,
    pub writable: bool,
    pub offset: usize,
    pub inode: DiskInode,
}

impl OSInode {
    /// An open file that stands at its start.
    pub fn new(readable: bool, writable: bool, inode: DiskInode) -> (r: Self)
        ensures
            r.readable == readable,
            r.writable == writable,
            r.offset == 0,
            r.inode == inode,
    {
        Self { readable, writable, offset: 0, inode }
    }

    pub fn readable(&self) -> (r: bool)
        ensures
            r == self.readable,
    {
        self.readable
    }

    pub fn writable(&self) -> (r: bool)
        ensures
            r == self.writable,
    {
        self.writable
    }

    /// Reads up to `len` bytes from the place at which the file stands and
    /// moves that place behind them.
    pub fn read<D: BlockDevice>(
        &mut self,
        len: usize,
        cache: &mut BlockCacheManager,
        block_device: &mut D,
    ) -> (data: Vec<u8>)
        requires
            old(cache).wf(old(block_device)),
            old(self).inode.nblocks() <= INDIRECT2_BOUND,
            old(self).offset + len <= usize::MAX,
        ensures
            final(cache).wf(final(block_device)),
            final(self).inode == old(self).inode,
            final(self).readable == old(self).readable,
            final(self).writable == old(self).writable,
            data@.len() == transfer_len(
                old(self).offset as int,
                len as int,
                old(self).inode.size as int,
            ),
            final(self).offset == old(self).offset + data@.len(),
            forall|t: int|
                0 <= t < data@.len() ==> #[trigger] data@[t] == file_byte(
                    old(self).inode.map(),
                    fs_of(old(cache), old(block_device)),
                    old(self).offset + t,
                ),
    {
        let mut buf: Vec<u8> = Vec::new();
        let mut k: usize = 0;
        while k < len
            invariant
                k <= len,
                buf@.len() == k,
            decreases len - k,
        {
            buf.push(0u8);
            k += 1;
        }
        let n = self.inode.read_at(self.offset, &mut buf, cache, block_device);
        buf.truncate(n);
        self.offset += n;
        buf
    }

    /// Writes the bytes of `data` that lie before the end of the file at the
    /// place at which the file stands, moves that place behind them, and
    /// gives their number. The file does not grow.
    pub fn write<D: BlockDevice>(
        &mut self,
        data: &[u8],
        cache: &mut BlockCacheManager,
        block_device: &mut D,
    ) -> (n: usize)
        requires
            old(cache).wf(old(block_device)),
            old(self).inode.nblocks() <= INDIRECT2_BOUND,
            old(self).offset + data@.len() <= usize::MAX,
        ensures
            final(cache).wf(final(block_device)),
            final(self).inode.map() == old(self).inode.map(),
            final(self).inode.size == old(self).inode.size,
            final(self).readable == old(self).readable,
            final(self).writable == old(self).writable,
            n == transfer_len(
                old(self).offset as int,
                data@.len() as int,
                old(self).inode.size as int,
            ),
            final(self).offset == old(self).offset + n,
            layout(
                old(self).inode.map(),
                fs_of(old(cache), old(block_device)),
                old(self).inode.nblocks(),
            ).no_duplicates() ==> {
                &&& layout(
                    old(self).inode.map(),
                    fs_of(final(cache), final(block_device)),
                    old(self).inode.nblocks(),
                ) == layout(
                    old(self).inode.map(),
                    fs_of(old(cache), old(block_device)),
                    old(self).inode.nblocks(),
                )
                &&& forall|k: int|
                    0 <= k < old(self).inode.size ==> #[trigger] file_byte(
                        old(self).inode.map(),
                        fs_of(final(cache), final(block_device)),
                        k,
                    ) == if old(self).offset <= k < old(self).offset + n {
                        data@[k - old(self).offset]
                    } else {
                        file_byte(old(self).inode.map(), fs_of(old(cache), old(block_device)), k)
                    }
            },
    {
        if self.offset > self.inode.size as usize {
            return 0;
        }
        let n = self.inode.write_at(self.offset, data, cache, block_device);
        self.offset += n;
        n
    }
}

/// What a file descriptor can stand for.
pub enum FileKind {
    /// The input of the console.
    Stdin,
    /// The output of the console.
    Stdout,
    /// An end of a pipe.
    PipeEnd(Pipe),
    /// A file on the disk.
    Inode(OSInode),
}

impl FileKind {
    /// Whether the file can be read.
    pub fn readable(&self) -> (r: bool)
        ensures
            r == match self {
                FileKind::Stdin => true,
                FileKind::Stdout => false,
                FileKind::PipeEnd(p) => p.readable,
                FileKind::Inode(f) => f.readable,
            },
    {
        match self {
            FileKind::Stdin => true,
            FileKind::Stdout => false,
            FileKind::PipeEnd(p) => p.readable,
            FileKind::Inode(f) => f.readable,
        }
    }

    /// Whether the file can be written.
    pub fn writable(&self) -> (r: bool)
        ensures
            r == match self {
                FileKind::Stdin => false,
                FileKind::Stdout => true,
                FileKind::PipeEnd(p) => p.writable,
                FileKind::Inode(f) => f.writable,
            },
    {
        match self {
            FileKind::Stdin => false,
            FileKind::Stdout => true,
            FileKind::PipeEnd(p) => p.writable,
            FileKind::Inode(f) => f.writable,
        }
    }
}

/// An open file and the number of file descriptors that stand for it.
pub struct OpenFile {
    pub kind: FileKind,
    pub refs: usize,
}

/// How a file is opened: bit 0 for writing only, bit 1 for reading and
/// writing, neither for reading only; bit 9 to make the file if there is
/// none and to empty it if there is one; bit 10 to empty it.
#[derive(Copy, Clone, PartialEq, Eq, Structural, Debug)]
pub struct OpenFlags {
    pub bits: u32,
}

pub const RDONLY: u32 = 0;

pub const WRONLY: u32 = 1;

pub const RDWR: u32 = 2;

pub const CREATE: u32 = 512;

pub const TRUNC: u32 = 1024;

impl OpenFlags {
    /// The flags with the given bits, where each bit that is set is a flag.
    pub fn from_bits(bits: u32) -> (r: Option<Self>)
        ensures
            r == if bits & !(1u32 | 2u32 | 512u32 | 1024u32) == 0 {
                Some(OpenFlags { bits })
            } else {
                None
            },
    {
        if bits & !(WRONLY | RDWR | CREATE | TRUNC) == 0 {
            Some(Self { bits })
        } else {
            None
        }
    }

    /// Whether every flag of `other` is set.
    pub fn contains(&self, other: u32) -> (r: bool)
        ensures
            r == (self.bits & other == other),
    {
        self.bits & other == other
    }

    /// Whether no flag is set.
    pub fn is_empty(&self) -> (r: bool)
        ensures
            r == (self.bits == 0),
    {
        self.bits == 0
    }

    /// Whether the file can be read and whether it can be written: read
    /// only with no flag, written only with the flag for that, else both.
    pub fn read_write(&self) -> (r: (bool, bool))
        ensures
            r == if self.bits == 0 {
                (true, false)
            } else if self.bits & 1 == 1 {
                (false, true)
            } else {
                (true, true)
            },
    {
        if self.is_empty() {
            (true, false)
        } else if self.contains(WRONLY) {
            (false, true)
        } else {
            (true, true)
        }
    }
}

/// What is to be done to open a file.
#[derive(Copy, Clone, PartialEq, Eq, Structural, Debug)]
pub enum OpenAction {
    /// There is no such file and none is to be made.
    Fail,
    /// The file that was found is opened, after it has been emptied if `clear`.
    Open { clear: bool, readable: bool, writable: bool },
    /// A new, empty file is made and opened.
    Create { readable: bool, writable: bool },
}

/// What is to be done to open a file with `flags`, given whether the
/// directory holds a file of the name. With the flag to make the file, a
/// file that is there is emptied and one that is not is made. Without it a
/// file must be there, and is emptied if the flag for that is set.
pub fn open_file(found: bool, flags: OpenFlags) -> (r: OpenAction)
    ensures
        r == ({
            let readable = flags.bits == 0 || flags.bits & 1 != 1;
            let writable = flags.bits != 0;
            if flags.bits & 512 == 512 {
                if found {
                    OpenAction::Open { clear: true, readable, writable }
                } else {
                    OpenAction::Create { readable, writable }
                }
            } else if found {
                OpenAction::Open { clear: flags.bits & 1024 == 1024, readable, writable }
            } else {
                OpenAction::Fail
            }
        }),
{
    let (readable, writable) = flags.read_write();
    if flags.contains(CREATE) {
        if found {
            OpenAction::Open { clear: true, readable, writable }
        } else {
            OpenAction::Create { readable, writable }
        }
    } else if found {
        OpenAction::Open { clear: flags.contains(TRUNC), readable, writable }
    } else {
        OpenAction::Fail
    }
}

} // verus!
