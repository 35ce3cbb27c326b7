//! The on-disk layout: little-endian encodings of the header sector, the directory entries
//! and the data clusters.
//!
//! | header (sector 0) | directory table (from sector 1) | clusters |
//!
//! An optional zone number takes eight bytes: a tag word (0 for none) and the zone.
use vstd::prelude::*;
use vstd::bytes::{spec_u32_from_le_bytes, spec_u32_to_le_bytes, u32_from_le_bytes, u32_to_le_bytes};
use vstd::slice::slice_subrange;

verus! {

/// Bytes in a disk sector.
pub const BLOCK_SIZE: usize = 512;

/// Payload bytes in a cluster.
pub const CLUSTER_DATA: usize = 500;

/// Bytes of a name in a directory entry.
pub const NAME_LEN: usize = 56;

/// Bytes of an encoded directory entry.
pub const DIR_ENTRY_SIZE: usize = 64;

/// Bytes of an encoded header.
pub const HEADER_SIZE: usize = 8;

/// The header's magic number ("ZEUS").
pub const MAGIC: u32 = 0x5a455553;

/// The `u32` stored little-endian at `off`.
pub open spec fn u32_at(s: Seq<u8>, off: int) -> u32 {
    spec_u32_from_le_bytes(s.subrange(off, off + 4))
}

/// Encoding of an optional zone number.
pub open spec fn opt_bytes(o: Option<u32>) -> Seq<u8> {
    match o {
        None => spec_u32_to_le_bytes(0) + spec_u32_to_le_bytes(0),
        Some(v) => spec_u32_to_le_bytes(1) + spec_u32_to_le_bytes(v),
    }
}

/// The optional zone number encoded at `off`.
pub open spec fn opt_at(s: Seq<u8>, off: int) -> Option<u32> {
    if u32_at(s, off) == 0 {
        None
    } else {
        Some(u32_at(s, off + 4))
    }
}

/// The first sector of the disk.
#[derive(Debug, Clone, Copy, PartialEq, Eq)]
pub struct Header {
    pub magic: u32,
    pub entries: u32,
}

/// Encoding of a header.
pub open spec fn header_bytes(h: Header) -> Seq<u8> {
    spec_u32_to_le_bytes(h.magic) + spec_u32_to_le_bytes(h.entries)
}

/// A chained data cluster: the next cluster's sector, the number of payload bytes used and
/// the payload.
#[derive(Debug, Clone, Copy)]
pub struct Cluster {
    pub next: Option<u32>,
    pub len: u32,
    pub data: [u8; 500],
}

/// Encoding of a cluster: one full sector.
pub open spec fn cluster_bytes(c: Cluster) -> Seq<u8> {
    opt_bytes(c.next) + spec_u32_to_le_bytes(c.len) + c.data@
}

/// `b` holds the encoding of a cluster with these fields.
pub open spec fn cluster_decodes_to(b: Seq<u8>, c: Cluster) -> bool {
    &&& c.next == opt_at(b, 0)
    &&& c.len == u32_at(b, 8)
    &&& c.data@ == b.subrange(12, 512)
}

/// A name and where its file starts (none for a directory).
#[derive(Debug, Clone, Copy)]
pub struct DirEntry {
    pub name: [u8; 56],
    pub addr: Option<u32>,
}

/// Encoding of a directory entry.
pub open spec fn dir_entry_bytes(e: DirEntry) -> Seq<u8> {
    e.name@ + opt_bytes(e.addr)
}

/// `b` holds the encoding of a directory entry with these fields.
pub open spec fn dir_entry_decodes_to(b: Seq<u8>, e: DirEntry) -> bool {
    &&& e.name@ == b.subrange(0, 56)
    &&& e.addr == opt_at(b, 56)
}

proof fn lemma_u32_roundtrip()
    ensures
        forall|x: u32| #[trigger] spec_u32_to_le_bytes(x).len() == 4,
        forall|x: u32| #[trigger] spec_u32_from_le_bytes(spec_u32_to_le_bytes(x)) == x,
{
    vstd::bytes::lemma_auto_spec_u32_to_from_le_bytes();
    assert forall|x: u32| #[trigger] spec_u32_from_le_bytes(spec_u32_to_le_bytes(x)) == x by {
        assert(spec_u32_to_le_bytes(x).len() == 4);
    }
}

/// An encoded optional zone decodes to itself.
pub proof fn lemma_opt_roundtrip(o: Option<u32>, pre: Seq<u8>, post: Seq<u8>)
    ensures
        opt_bytes(o).len() == 8,
        opt_at(pre + opt_bytes(o) + post, pre.len() as int) == o,
{
    lemma_u32_roundtrip();
    let s = pre + opt_bytes(o) + post;
    let k = pre.len() as int;
    match o {
        None => {
            assert(s.subrange(k, k + 4) =~= spec_u32_to_le_bytes(0));
        },
        Some(v) => {
            assert(s.subrange(k, k + 4) =~= spec_u32_to_le_bytes(1));
            assert(s.subrange(k + 4, k + 8) =~= spec_u32_to_le_bytes(v));
        },
    }
}

/// A header written to disk reads back as the same header.
pub proof fn lemma_header_roundtrip(h: Header)
    ensures
        header_bytes(h).len() == HEADER_SIZE,
        u32_at(header_bytes(h), 0) == h.magic,
        u32_at(header_bytes(h), 4) == h.entries,
{
    lemma_u32_roundtrip();
    let b = header_bytes(h);
    assert(b.subrange(0, 4) =~= spec_u32_to_le_bytes(h.magic));
    assert(b.subrange(4, 8) =~= spec_u32_to_le_bytes(h.entries));
}

/// A cluster written to disk reads back as the same cluster.
pub proof fn lemma_cluster_roundtrip(c: Cluster)
    ensures
        cluster_bytes(c).len() == BLOCK_SIZE,
        cluster_decodes_to(cluster_bytes(c), c),
{
    lemma_u32_roundtrip();
    let b = cluster_bytes(c);
    let rest = spec_u32_to_le_bytes(c.len) + c.data@;
    lemma_opt_roundtrip(c.next, Seq::empty(), rest);
    assert(b =~= Seq::empty() + opt_bytes(c.next) + rest);
    assert(b.subrange(8, 12) =~= spec_u32_to_le_bytes(c.len));
    assert(b.subrange(12, 512) =~= c.data@);
}

/// A directory entry written to disk reads back as the same entry.
pub proof fn lemma_dir_entry_roundtrip(e: DirEntry)
    ensures
        dir_entry_bytes(e).len() == DIR_ENTRY_SIZE,
        dir_entry_decodes_to(dir_entry_bytes(e), e),
{
    let b = dir_entry_bytes(e);
    lemma_opt_roundtrip(e.addr, e.name@, Seq::empty());
    assert(b =~= e.name@ + opt_bytes(e.addr) + Seq::empty());
    assert(b.subrange(0, 56) =~= e.name@);
}

/// Reads the little-endian `u32` at `off`.
pub fn read_u32(b: &[u8], off: usize) -> (v: u32)
    requires
        off + 4 <= b@.len(),
    ensures
        v == u32_at(b@, off as int),
{
    let n: usize = b.len();
    u32_from_le_bytes(slice_subrange(b, off, off + 4))
}

/// Reads the optional zone number at `off`.
pub fn read_opt(b: &[u8], off: usize) -> (o: Option<u32>)
    requires
        off + 8 <= b@.len(),
    ensures
        o == opt_at(b@, off as int),
{
    let n: usize = b.len();
    if read_u32(b, off) == 0 {
        None
    } else {
        Some(read_u32(b, off + 4))
    }
}

/// Appends the little-endian encoding of `v`.
pub fn push_u32(out: &mut Vec<u8>, v: u32)
    ensures
        final(out)@ == old(out)@ + spec_u32_to_le_bytes(v),
{
    let mut b = u32_to_le_bytes(v);
    out.append(&mut b);
}

/// Appends the encoding of an optional zone number.
pub fn push_opt(out: &mut Vec<u8>, o: Option<u32>)
    ensures
        final(out)@ == old(out)@ + opt_bytes(o),
{
    match o {
        None => {
            push_u32(out, 0);
            push_u32(out, 0);
        },
        Some(v) => {
            push_u32(out, 1);
            push_u32(out, v);
        },
    }
    proof {
        assert(final(out)@ =~= old(out)@ + opt_bytes(o));
    }
}

/// Appends all of `bytes`.
pub fn push_bytes(out: &mut Vec<u8>, bytes: &[u8])
    ensures
        final(out)@ == old(out)@ + bytes@,
{
    let mut i: usize = 0;
    while i < bytes.len()
        invariant
            i <= bytes@.len(),
            out@ == old(out)@ + bytes@.subrange(0, i as int),
        decreases bytes@.len() - i,
    {
        out.push(bytes[i]);
        i = i + 1;
        proof {
            assert(out@ =~= old(out)@ + bytes@.subrange(0, i as int));
        }
    }
    proof {
        assert(bytes@.subrange(0, i as int) =~= bytes@);
    }
}

/// Copies `src[from..from + N]` into a new array.
pub fn copy_array<const N: usize>(src: &[u8], from: usize) -> (a: [u8; N])
    requires
        from + N <= src@.len(),
    ensures
        a@ == src@.subrange(from as int, from + N),
{
    let n: usize = src.len();
    let mut a: [u8; N] = vstd::array::array_fill_for_copy_types(0u8);
    let mut i: usize = 0;
    while i < N
        invariant
            i <= N,
            from + N <= src@.len(),
            n == src@.len(),
            a@.len() == N,
            forall|k: int| 0 <= k < i ==> a@[k] == src@[from + k],
        decreases N - i,
    {
        a[i] = src[from + i];
        i = i + 1;
    }
    proof {
        assert(a@ =~= src@.subrange(from as int, from + N));
    }
    a
}

impl Header {
    /// Reads the header from the first bytes of a sector.
    pub fn new(block: &[u8]) -> (h: Header)
        requires
            block@.len() >= HEADER_SIZE,
        ensures
            h.magic == u32_at(block@, 0),
            h.entries == u32_at(block@, 4),
    {
        Header { magic: read_u32(block, 0), entries: read_u32(block, 4) }
    }

    /// The header's bytes.
    pub fn encode(&self) -> (b: Vec<u8>)
        ensures
            b@ == header_bytes(*self),
    {
        let mut b: Vec<u8> = Vec::new();
        push_u32(&mut b, self.magic);
        push_u32(&mut b, self.entries);
        proof {
            assert(b@ =~= header_bytes(*self));
        }
        b
    }

    /// The disk carries this file system.
    pub fn is_valid(&self) -> (r: bool)
        ensures
            r == (self.magic == MAGIC),
    {
        self.magic == MAGIC
    }

    /// Number of sectors read while loading the directory table:
    /// `1 + entries * DIR_ENTRY_SIZE / BLOCK_SIZE`.
    pub fn directory_sectors(&self) -> (n: u32)
        requires
            self.entries * DIR_ENTRY_SIZE <= u32::MAX,
        ensures
            n == 1 + self.entries * DIR_ENTRY_SIZE / BLOCK_SIZE as int,
    {
        1 + self.entries * (DIR_ENTRY_SIZE as u32) / (BLOCK_SIZE as u32)
    }
}

impl Cluster {
    /// A cluster holding `bytes` (zero-filled after them) that chains to `next`.
    pub fn new(next: Option<u32>, bytes: &[u8]) -> (c: Cluster)
        requires
            bytes@.len() <= CLUSTER_DATA,
        ensures
            c.next == next,
            c.len == bytes@.len(),
            c.data@ == bytes@ + Seq::new((CLUSTER_DATA - bytes@.len()) as nat, |i: int| 0u8),
    {
        let mut data: [u8; 500] = vstd::array::array_fill_for_copy_types(0u8);
        let mut i: usize = 0;
        while i < bytes.len()
            invariant
                i <= bytes@.len(),
                bytes@.len() <= CLUSTER_DATA,
                data@.len() == CLUSTER_DATA,
                forall|k: int| 0 <= k < i ==> data@[k] == bytes@[k],
                forall|k: int| i <= k < CLUSTER_DATA ==> data@[k] == 0u8,
            decreases bytes@.len() - i,
        {
            data[i] = bytes[i];
            i = i + 1;
        }
        proof {
            assert(data@ =~= bytes@ + Seq::new((CLUSTER_DATA - bytes@.len()) as nat, |i: int| 0u8));
        }
        Cluster { next, len: bytes.len() as u32, data }
    }

    /// Reads a cluster from a sector.
    pub fn decode(block: &[u8]) -> (c: Cluster)
        requires
            block@.len() == BLOCK_SIZE,
        ensures
            cluster_decodes_to(block@, c),
    {
        Cluster { next: read_opt(block, 0), len: read_u32(block, 8), data: copy_array(block, 12) }
    }

    /// The cluster's sector.
    pub fn encode(&self) -> (b: Vec<u8>)
        ensures
            b@ == cluster_bytes(*self),
    {
        let mut b: Vec<u8> = Vec::new();
        push_opt(&mut b, self.next);
        push_u32(&mut b, self.len);
        push_bytes(&mut b, vstd::array::array_as_slice(&self.data));
        proof {
            assert(b@ =~= cluster_bytes(*self));
        }
        b
    }
}

impl DirEntry {
    /// Reads a directory entry from the first `DIR_ENTRY_SIZE` bytes of `chunk`.
    pub fn decode(chunk: &[u8]) -> (e: DirEntry)
        requires
            chunk@.len() >= DIR_ENTRY_SIZE,
        ensures
            dir_entry_decodes_to(chunk@, e),
    {
        DirEntry { name: copy_array(chunk, 0), addr: read_opt(chunk, 56) }
    }

    /// The entry's bytes.
    pub fn encode(&self) -> (b: Vec<u8>)
        ensures
            b@ == dir_entry_bytes(*self),
    {
        let mut b: Vec<u8> = Vec::new();
        push_bytes(&mut b, vstd::array::array_as_slice(&self.name));
        push_opt(&mut b, self.addr);
        b
    }
}

} // verus!
