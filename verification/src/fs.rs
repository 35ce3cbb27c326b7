//! The first kernel's file system: a superblock marked with the magic bytes and a zone map in
//! the sectors after it.
use vstd::prelude::*;
use crate::kernel::drivers::virtio::blk::VirtioBlk;

verus! {

/// The magic bytes at the start of the superblock ("ZEUS").
pub const MAGIC: [u8; 4] = [0x5a, 0x45, 0x55, 0x53];

/// Bytes of the zone map that mark the first sectors used.
pub const USED_PREFIX: usize = 130;

/// A file's inode.
#[derive(Debug, Clone, Copy, PartialEq, Eq, Structural)]
pub struct Inode {
    pub next: Option<usize>,
    pub len: usize,
}

/// A directory.
#[derive(Debug, Clone, Copy, PartialEq, Eq, Structural)]
pub struct Directory {
    pub entry: usize,
}

/// What a directory entry points at.
#[derive(Debug, Clone, Copy, PartialEq, Eq, Structural)]
pub enum EntryKind {
    File(Inode),
    Directory(Directory),
}

/// A directory entry.
#[derive(Debug, Clone, Copy)]
pub struct DirEntry {
    pub name: [u8; 60],
    pub addr: usize,
    pub next: Option<usize>,
}

/// The sector starts with the magic bytes.
pub open spec fn has_magic(block: Seq<u8>) -> bool {
    block.len() >= 4 && block.subrange(0, 4) == MAGIC@
}

/// A new superblock: the magic bytes, then zeros.
pub open spec fn superblock() -> Seq<u8> {
    MAGIC@ + Seq::new(508, |i: int| 0u8)
}

/// A new first zone-map sector: the first 130 bytes full, then zeros.
pub open spec fn zone_block() -> Seq<u8> {
    Seq::new(512, |i: int| if i < USED_PREFIX { 0xffu8 } else { 0u8 })
}

/// The file system on a block device.
pub struct Fs {
    pub block: VirtioBlk,
}

impl Fs {
    pub fn new(block: VirtioBlk) -> (fs: Fs)
        ensures
            fs.block == block,
    {
        Fs { block }
    }

    /// The sectors to write, in order, to mount a disk whose first sector is `first`: nothing
    /// when it carries the magic bytes; otherwise a new superblock at sector 0, the zone map's
    /// first sector at sector 1, and then 1023 zeroed sectors, each written to sector 0.
    pub fn init_writes(first: &[u8]) -> (w: Vec<(u64, Vec<u8>)>)
        requires
            first@.len() == 512,
        ensures
            has_magic(first@) ==> w@.len() == 0,
            !has_magic(first@) ==> {
                &&& w@.len() == 1025
                &&& w@[0].0 == 0 && w@[0].1@ == superblock()
                &&& w@[1].0 == 1 && w@[1].1@ == zone_block()
                &&& forall|i: int| 2 <= i < 1025 ==> (#[trigger] w@[i]).0 == 0 && w@[i].1@ == Seq::new(
                    512,
                    |j: int| 0u8,
                )
            },
    {
        let mut w: Vec<(u64, Vec<u8>)> = Vec::new();
        let magic = first[0] == MAGIC[0] && first[1] == MAGIC[1] && first[2] == MAGIC[2] && first[3]
            == MAGIC[3];
        proof {
            assert(magic == has_magic(first@)) by {
                if has_magic(first@) {
                    assert(first@.subrange(0, 4)[0] == first@[0]);
                    assert(first@.subrange(0, 4)[3] == first@[3]);
                }
                if magic {
                    assert(first@.subrange(0, 4) =~= MAGIC@);
                }
            }
        }
        if magic {
            return w;
        }
        let mut sb: Vec<u8> = vec![0u8; 512];
        sb.set(0, MAGIC[0]);
        sb.set(1, MAGIC[1]);
        sb.set(2, MAGIC[2]);
        sb.set(3, MAGIC[3]);
        proof {
            assert(sb@ =~= superblock());
        }
        w.push((0, sb));
        let mut zones: Vec<u8> = vec![0u8; 512];
        let mut i: usize = 0;
        while i < USED_PREFIX
            invariant
                i <= USED_PREFIX,
                zones@.len() == 512,
                forall|j: int| 0 <= j < 512 ==> zones@[j] == (if j < i { 0xffu8 } else { 0u8 }),
            decreases USED_PREFIX - i,
        {
            zones.set(i, 0xff);
            i = i + 1;
        }
        proof {
            assert(zones@ =~= zone_block());
        }
        w.push((1, zones));
        let mut sector: u64 = 2;
        while sector < 1025
            invariant
                2 <= sector <= 1025,
                w@.len() == sector,
                w@[0].0 == 0 && w@[0].1@ == superblock(),
                w@[1].0 == 1 && w@[1].1@ == zone_block(),
                forall|i: int| 2 <= i < sector ==> (#[trigger] w@[i]).0 == 0 && w@[i].1@ == Seq::new(
                    512,
                    |j: int| 0u8,
                ),
            decreases 1025 - sector,
        {
            let zero: Vec<u8> = vec![0u8; 512];
            w.push((0, zero));
            sector = sector + 1;
        }
        w
    }

    /// Creating files is not supported: does nothing.
    pub fn touch(&mut self, path: &str)
        ensures
            *final(self) == *old(self),
    {
    }

    /// Creating directories is not supported: does nothing.
    pub fn mkdir(&mut self, path: &str)
        ensures
            *final(self) == *old(self),
    {
    }

    /// Listing directories is not supported: does nothing.
    pub fn list(&mut self, path: &str)
        ensures
            *final(self) == *old(self),
    {
    }
}

} // verus!
