//! The disk-image builder: lays out files as chains of clusters from sector 256 on, records a
//! directory entry per file and directory, and writes the directory table and header last.
use vstd::prelude::*;
pub use crate::kernel::fs::layout::{Cluster, DirEntry, Header};
use crate::kernel::fs::layout::{opt_bytes, dir_entry_bytes, header_bytes, BLOCK_SIZE, CLUSTER_DATA, MAGIC, NAME_LEN};
use crate::kernel::fs::chain::{chain_chunks, chunk_of};

verus! {

/// Sector of the first cluster.
pub const FIRST_CLUSTER: u32 = 256;

/// Size of the image file in bytes.
pub const IMAGE_SIZE: u64 = 1074000000;

/// A 56-byte entry name: the path's bytes, cut or zero-padded to 56.
pub open spec fn name_of(path: Seq<u8>) -> Seq<u8> {
    if path.len() >= NAME_LEN {
        path.subrange(0, NAME_LEN as int)
    } else {
        path + Seq::new((NAME_LEN - path.len()) as nat, |i: int| 0u8)
    }
}

/// `w` lays `contents` out as a chain of clusters from sector `first`: the `i`-th write goes to
/// byte offset `(first + i) * 512` and holds the `i`-th 500-byte chunk, zero-padded, with its
/// length, pointing at the next sector, the last pointing nowhere.
pub open spec fn is_file_layout(w: Seq<(u64, Cluster)>, first: u32, contents: Seq<u8>) -> bool {
    &&& w.len() == chain_chunks(contents.len())
    &&& forall|i: int|
        0 <= i < w.len() ==> {
            let (off, c) = #[trigger] w[i];
            &&& off == (first + i) * 512
            &&& c.next == (if i + 1 < chain_chunks(contents.len()) {
                Some((first + i + 1) as u32)
            } else {
                None
            })
            &&& c.len == chunk_of(contents, i).len()
            &&& c.data@ == chunk_of(contents, i) + Seq::new(
                (CLUSTER_DATA - chunk_of(contents, i).len()) as nat,
                |k: int| 0u8,
            )
        }
}

/// The image builder's state: the entries so far and the next free cluster sector.
pub struct Mkfs {
    entries: Vec<DirEntry>,
    cluster: u32,
}

impl Mkfs {
    /// Names and zones of the entries recorded so far.
    pub closed spec fn entries(&self) -> Seq<(Seq<u8>, Option<u32>)> {
        self.entries@.map_values(|e: DirEntry| (e.name@, e.addr))
    }

    /// The next free cluster sector.
    pub closed spec fn next_cluster(&self) -> u32 {
        self.cluster
    }

    /// No entries yet; clusters start at sector 256.
    pub fn new() -> (m: Mkfs)
        ensures
            m.entries() == Seq::<(Seq<u8>, Option<u32>)>::empty(),
            m.next_cluster() == FIRST_CLUSTER,
    {
        let m = Mkfs { entries: Vec::new(), cluster: FIRST_CLUSTER };
        proof {
            assert(m.entries() =~= Seq::<(Seq<u8>, Option<u32>)>::empty());
        }
        m
    }

    /// The sector the next file's first cluster goes to.
    pub fn current_cluster(&self) -> (c: u32)
        ensures
            c == self.next_cluster(),
    {
        self.cluster
    }

    /// Number of entries recorded so far.
    pub fn entry_count(&self) -> (n: usize)
        ensures
            n == self.entries().len(),
    {
        self.entries.len()
    }

    /// The entry name of a path relative to the image's root.
    pub fn entry_name(relative: &[u8]) -> (name: [u8; 56])
        ensures
            name@ == name_of(relative@),
    {
        let mut name: [u8; 56] = [0u8; 56];
        let mut i: usize = 0;
        while i < NAME_LEN && i < relative.len()
            invariant
                i <= NAME_LEN,
                i <= relative@.len(),
                name@.len() == NAME_LEN,
                forall|k: int| 0 <= k < i ==> name@[k] == relative@[k],
                forall|k: int| i <= k < NAME_LEN ==> name@[k] == 0u8,
            decreases NAME_LEN - i,
        {
            name[i] = relative[i];
            i = i + 1;
        }
        proof {
            assert(name@ =~= name_of(relative@));
        }
        name
    }

    /// Lays a file's contents out as a chain of clusters from the next free sector: one
    /// cluster per 500 bytes, each pointing at the sector after it, the last pointing nowhere.
    /// Returns the first sector and the (byte offset, cluster) writes.
    pub fn cluster(&mut self, contents: &[u8]) -> (r: (u32, Vec<(u64, Cluster)>))
        requires
            old(self).next_cluster() + chain_chunks(contents@.len()) <= u32::MAX,
        ensures
            r.0 == old(self).next_cluster(),
            final(self).next_cluster() == old(self).next_cluster() + chain_chunks(contents@.len()),
            final(self).entries() == old(self).entries(),
            is_file_layout(r.1@, old(self).next_cluster(), contents@),
    {
        let first = self.cluster;
        let len = contents.len();
        let total: usize = len / CLUSTER_DATA + if len % CLUSTER_DATA == 0 {
            0
        } else {
            1
        };
        let mut writes: Vec<(u64, Cluster)> = Vec::new();
        let mut index: usize = 0;
        while index < total
            invariant
                index <= total,
                total == chain_chunks(len as nat),
                len == contents@.len(),
                first == old(self).cluster,
                self.cluster == first + index,
                first + total <= u32::MAX,
                self.entries@ == old(self).entries@,
                writes@.len() == index,
                forall|i: int|
                    0 <= i < index ==> {
                        let (off, c) = #[trigger] writes@[i];
                        &&& off == (first + i) * 512
                        &&& c.next == (if i + 1 < total {
                            Some((first + i + 1) as u32)
                        } else {
                            None
                        })
                        &&& c.len == chunk_of(contents@, i).len()
                        &&& c.data@ == chunk_of(contents@, i) + Seq::new(
                            (CLUSTER_DATA - chunk_of(contents@, i).len()) as nat,
                            |k: int| 0u8,
                        )
                    },
            decreases total - index,
        {
            proof {
                crate::kernel::fs::chain::lemma_chunk_start(len as nat, index as nat);
            }
            let lo = index * CLUSTER_DATA;
            let hi = if len - lo >= CLUSTER_DATA { lo + CLUSTER_DATA } else { len };
            let next = if index + 1 < total { Some(self.cluster + 1) } else { None };
            let c = Cluster::new(next, vstd::slice::slice_subrange(contents, lo, hi));
            writes.push((self.cluster as u64 * 512, c));
            self.cluster = self.cluster + 1;
            index = index + 1;
        }
        (first, writes)
    }

    /// Records a directory.
    pub fn add_directory(&mut self, relative: &[u8])
        ensures
            final(self).entries() == old(self).entries().push((name_of(relative@), None)),
            final(self).next_cluster() == old(self).next_cluster(),
    {
        let name = Self::entry_name(relative);
        self.entries.push(DirEntry { name, addr: None });
        proof {
            assert(self.entries() =~= old(self).entries().push((name_of(relative@), None)));
        }
    }

    /// Lays out a file and records it; returns the cluster writes.
    pub fn add_file(&mut self, relative: &[u8], contents: &[u8]) -> (w: Vec<(u64, Cluster)>)
        requires
            old(self).next_cluster() + chain_chunks(contents@.len()) <= u32::MAX,
        ensures
            final(self).entries() == old(self).entries().push(
                (name_of(relative@), Some(old(self).next_cluster())),
            ),
            final(self).next_cluster() == old(self).next_cluster() + chain_chunks(contents@.len()),
            is_file_layout(w@, old(self).next_cluster(), contents@),
    {
        let (first, writes) = self.cluster(contents);
        let name = Self::entry_name(relative);
        self.entries.push(DirEntry { name, addr: Some(first) });
        proof {
            assert(self.entries() =~= old(self).entries().push(
                (name_of(relative@), Some(old(self).next_cluster())),
            ));
        }
        writes
    }

    /// The header: the magic number and the number of entries.
    pub fn header(&self) -> (h: Header)
        ensures
            h.magic == MAGIC,
            h.entries == self.entries().len() as u32,
    {
        Header { magic: MAGIC, entries: self.entries.len() as u32 }
    }

    /// The writes that finish the image: each entry at `512 + 64 * index`, then the header at 0.
    ///
    /// The byte offsets of the table fit in a `u64`, which every table that fits in memory
    /// meets.
    pub fn flush(&self) -> (w: Vec<(u64, Vec<u8>)>)
        requires
            BLOCK_SIZE + 64 * self.entries().len() <= u64::MAX,
        ensures
            w@.len() == self.entries().len() + 1,
            forall|i: int|
                0 <= i < self.entries().len() ==> {
                    &&& (#[trigger] w@[i]).0 == BLOCK_SIZE + 64 * i
                    &&& w@[i].1@ == self.entries()[i].0 + opt_bytes(self.entries()[i].1)
                },
            w@.last().0 == 0,
            w@.last().1@ == header_bytes(Header { magic: MAGIC, entries: self.entries().len() as u32 }),
    {
        let mut w: Vec<(u64, Vec<u8>)> = Vec::new();
        let mut i: usize = 0;
        while i < self.entries.len()
            invariant
                i <= self.entries@.len(),
                BLOCK_SIZE + 64 * self.entries@.len() <= u64::MAX,
                w@.len() == i,
                forall|k: int|
                    0 <= k < i ==> {
                        &&& (#[trigger] w@[k]).0 == BLOCK_SIZE + 64 * k
                        &&& w@[k].1@ == dir_entry_bytes(self.entries@[k])
                    },
            decreases self.entries@.len() - i,
        {
            let bytes = self.entries[i].encode();
            w.push((512 + (i as u64) * 64, bytes));
            i = i + 1;
        }
        proof {
            assert forall|k: int| 0 <= k < self.entries().len() implies #[trigger] w@[k].1@ == self.entries()[k].0
                + opt_bytes(self.entries()[k].1) by {
                assert(w@[k].1@ == dir_entry_bytes(self.entries@[k]));
            }
        }
        let h = self.header();
        w.push((0, h.encode()));
        w
    }
}

} // verus!
