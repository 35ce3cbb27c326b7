//! Reading and writing chains of clusters.
//!
//! Reading follows a chain cluster by cluster: `ClusterReader::step` takes one cluster and
//! either finishes or names the sector of the next cluster to read. Writing plans the sectors
//! to write; the caller writes them in order.
use vstd::prelude::*;
use super::error::Error;
use super::layout::{Cluster, CLUSTER_DATA};
use super::zmap::{is_full, next_zone, with_zone, can_allocate, lemma_next_zone_bounds, ZMap};
use super::Fs;

verus! {

/// `x` falls inside the cluster that starts at logical byte `count` and holds `len` bytes.
pub open spec fn within(x: u32, count: u32, len: u32) -> bool {
    x >= count && x < count + len
}

/// What one reading step appends to the buffer, and whether it finishes the read.
pub open spec fn read_piece(start: u32, end: u32, count: u32, len: u32, data: Seq<u8>) -> (Seq<u8>, bool) {
    if within(start, count, len) {
        if within(end, count, len) {
            (data.subrange(start as int, end as int), true)
        } else {
            (data.subrange(start - count, len as int), false)
        }
    } else if within(end, count, len) {
        (data.subrange(0, end - count), true)
    } else if start < count && end >= count {
        (data, false)
    } else {
        (Seq::empty(), false)
    }
}

/// A reading step over this cluster stays inside its payload and its arithmetic.
pub open spec fn read_step_ok(start: u32, end: u32, count: u32, len: u32) -> bool {
    &&& count + len <= u32::MAX
    &&& within(start, count, len) && within(end, count, len) ==> start <= end <= CLUSTER_DATA
    &&& within(start, count, len) && !within(end, count, len) ==> len <= CLUSTER_DATA
    &&& !within(start, count, len) && within(end, count, len) ==> end - count <= CLUSTER_DATA
}

/// The outcome of one reading step.
pub enum ReadStep {
    /// The requested bytes.
    Done(Vec<u8>),
    /// Read the cluster in this sector and step again.
    Next(u32),
}

/// A read of the logical byte range `start..end` of a chain of clusters.
pub struct ClusterReader {
    start: u32,
    end: u32,
    count: u32,
    buf: Vec<u8>,
}

impl ClusterReader {
    pub closed spec fn start(&self) -> u32 {
        self.start
    }

    pub closed spec fn end(&self) -> u32 {
        self.end
    }

    /// Logical offset of the next cluster's first byte.
    pub closed spec fn count(&self) -> u32 {
        self.count
    }

    /// Bytes gathered so far.
    pub closed spec fn buf(&self) -> Seq<u8> {
        self.buf@
    }

    /// A read of `start..end` from the first cluster of a chain.
    pub fn new(start: u32, end: u32) -> (r: ClusterReader)
        ensures
            r.start() == start,
            r.end() == end,
            r.count() == 0,
            r.buf() == Seq::<u8>::empty(),
    {
        ClusterReader { start, end, count: 0, buf: Vec::new() }
    }

    /// Whether a step over `cluster` stays inside its payload and its arithmetic.
    pub fn can_step(&self, cluster: &Cluster) -> (r: bool)
        ensures
            r == read_step_ok(self.start(), self.end(), self.count(), cluster.len),
    {
        let count = self.count as u64;
        let len = cluster.len as u64;
        if count + len > u32::MAX as u64 {
            return false;
        }
        let start_in = self.start as u64 >= count && (self.start as u64) < count + len;
        let end_in = self.end as u64 >= count && (self.end as u64) < count + len;
        if start_in && end_in {
            self.start <= self.end && self.end as usize <= CLUSTER_DATA
        } else if start_in {
            cluster.len as usize <= CLUSTER_DATA
        } else if end_in {
            self.end as u64 - count <= CLUSTER_DATA as u64
        } else {
            true
        }
    }

    /// Takes the bytes of the range that lie in `cluster`; finishes when the range ends in it,
    /// else names the next cluster's sector, or fails with `OutOfBounds` at the end of the chain.
    pub fn step(&mut self, cluster: &Cluster) -> (r: Result<ReadStep, Error>)
        requires
            read_step_ok(old(self).start(), old(self).end(), old(self).count(), cluster.len),
        ensures
            ({
                let (piece, done) = read_piece(
                    old(self).start(),
                    old(self).end(),
                    old(self).count(),
                    cluster.len,
                    cluster.data@,
                );
                let bytes = old(self).buf() + piece;
                &&& final(self).start() == old(self).start()
                &&& final(self).end() == old(self).end()
                &&& done ==> (r matches Ok(ReadStep::Done(v)) && v@ == bytes)
                &&& !done ==> final(self).count() == old(self).count() + cluster.len
                &&& !done ==> final(self).buf() == bytes
                &&& !done ==> match cluster.next {
                    Some(n) => r matches Ok(ReadStep::Next(m)) && m == n,
                    None => r == Err::<ReadStep, Error>(Error::OutOfBounds),
                }
            }),
    {
        let start = self.start;
        let end = self.end;
        let count = self.count;
        let len = cluster.len;
        let data = vstd::array::array_as_slice(&cluster.data);
        if start >= count && start < count + len {
            if end >= count && end < count + len {
                append(&mut self.buf, data, start as usize, end as usize);
                let mut out: Vec<u8> = Vec::new();
                core::mem::swap(&mut out, &mut self.buf);
                return Ok(ReadStep::Done(out));
            } else {
                append(&mut self.buf, data, (start - count) as usize, len as usize);
            }
        } else if end >= count && end < count + len {
            append(&mut self.buf, data, 0, (end - count) as usize);
            let mut out: Vec<u8> = Vec::new();
            core::mem::swap(&mut out, &mut self.buf);
            return Ok(ReadStep::Done(out));
        } else if start < count && end >= count {
            append(&mut self.buf, data, 0, CLUSTER_DATA);
            proof {
                assert(data@.subrange(0, CLUSTER_DATA as int) =~= data@);
            }
        }
        self.count = count + len;
        match cluster.next {
            Some(n) => Ok(ReadStep::Next(n)),
            None => Err(Error::OutOfBounds),
        }
    }
}

/// Appends `src[from..to]` to `out`.
fn append(out: &mut Vec<u8>, src: &[u8], from: usize, to: usize)
    requires
        from <= to <= src@.len(),
    ensures
        final(out)@ == old(out)@ + src@.subrange(from as int, to as int),
{
    let mut i: usize = from;
    while i < to
        invariant
            from <= i <= to,
            to <= src@.len(),
            out@ == old(out)@ + src@.subrange(from as int, i as int),
        decreases to - i,
    {
        out.push(src[i]);
        i = i + 1;
        proof {
            assert(out@ =~= old(out)@ + src@.subrange(from as int, i as int));
        }
    }
}

/// What `allocate` does to a zone map: the zone handed out (or the error) and the new map.
pub open spec fn alloc_step(s: Seq<u32>) -> (Result<u32, Error>, Seq<u32>) {
    if is_full(s) {
        (Err(Error::LimitedSpace), s)
    } else {
        (Ok(next_zone(s) as u32), with_zone(s, next_zone(s) as u32, true))
    }
}

/// The zone map after `k` allocations.
pub open spec fn map_after(s: Seq<u32>, k: nat) -> Seq<u32>
    decreases k,
{
    if k == 0 {
        s
    } else {
        alloc_step(map_after(s, (k - 1) as nat)).1
    }
}

/// The results of `k` successive allocations.
pub open spec fn allocations(s: Seq<u32>, k: nat) -> Seq<Result<u32, Error>>
    decreases k,
{
    if k == 0 {
        Seq::empty()
    } else {
        allocations(s, (k - 1) as nat).push(alloc_step(map_after(s, (k - 1) as nat)).0)
    }
}

/// None of `k` successive allocations indexes past the end of the map.
pub open spec fn allocations_ok(s: Seq<u32>, k: nat) -> bool
    decreases k,
{
    if k == 0 {
        true
    } else {
        allocations_ok(s, (k - 1) as nat) && can_allocate(map_after(s, (k - 1) as nat))
    }
}

/// Number of zones `chain_cluster` allocates for `len` bytes.
pub open spec fn chain_zones(len: nat) -> nat {
    len / CLUSTER_DATA as nat + 1
}

/// Number of clusters `len` bytes fill.
pub open spec fn chain_chunks(len: nat) -> nat {
    len / CLUSTER_DATA as nat + if len % CLUSTER_DATA as nat == 0 {
        0nat
    } else {
        1nat
    }
}

/// Bytes of the `index`-th cluster of `data`.
pub open spec fn chunk_of(data: Seq<u8>, index: int) -> Seq<u8> {
    let lo = index * CLUSTER_DATA;
    let hi = if lo + CLUSTER_DATA <= data.len() { lo + CLUSTER_DATA } else { data.len() as int };
    data.subrange(lo, hi)
}

/// Where the `index`-th cluster of a chain points.
pub open spec fn chain_link(zones: Seq<Result<u32, Error>>, index: int, hook: u32) -> Option<u32> {
    if index < zones.len() - 1 {
        match zones[index + 1] {
            Ok(z) => Some(z),
            Err(_) => None,
        }
    } else {
        Some(hook)
    }
}

/// `chain_cluster` links every cluster to an allocated zone.
pub open spec fn chain_ok(s: Seq<u32>, len: nat) -> bool {
    let k = chain_zones(len);
    let rs = allocations(s, k);
    &&& allocations_ok(s, k)
    &&& forall|index: int|
        0 <= index < chain_chunks(len) && index < k - 1 ==> #[trigger] rs[index + 1] is Ok
}

/// `w` is the write of the `index`-th cluster of a chain of `data` ending at `hook`.
pub open spec fn is_chain_write(
    w: (u32, Cluster),
    zones: Seq<Result<u32, Error>>,
    data: Seq<u8>,
    index: int,
    hook: u32,
) -> bool {
    &&& zones[index] == Ok::<u32, Error>(w.0)
    &&& w.1.next == chain_link(zones, index, hook)
    &&& w.1.len == chunk_of(data, index).len()
    &&& w.1.data@ == chunk_of(data, index) + Seq::new(
        (CLUSTER_DATA - chunk_of(data, index).len()) as nat,
        |i: int| 0u8,
    )
}

proof fn lemma_map_after_len(s: Seq<u32>, k: nat)
    requires
        allocations_ok(s, k),
    ensures
        map_after(s, k).len() == s.len(),
        allocations(s, k).len() == k,
    decreases k,
{
    if k > 0 {
        lemma_map_after_len(s, (k - 1) as nat);
        let m = map_after(s, (k - 1) as nat);
        if !is_full(m) {
            lemma_next_zone_bounds(m);
            assert(next_zone(m) / 32 < m.len());
            assert((next_zone(m) as u32) as int == next_zone(m));
        }
    }
}

proof fn lemma_allocations_ok_prefix(s: Seq<u32>, j: nat, k: nat)
    requires
        j <= k,
        allocations_ok(s, k),
    ensures
        allocations_ok(s, j),
    decreases k,
{
    if j < k {
        lemma_allocations_ok_prefix(s, j, (k - 1) as nat);
    }
}

/// The `i`-th of `k` successive allocations is the one made on the map left by the first `i`.
proof fn lemma_allocations_index(s: Seq<u32>, k: nat, i: int)
    requires
        0 <= i < k,
    ensures
        allocations(s, k).len() == k,
        allocations(s, k)[i] == alloc_step(map_after(s, i as nat)).0,
    decreases k,
{
    lemma_allocations_len(s, (k - 1) as nat);
    if i < k - 1 {
        lemma_allocations_index(s, (k - 1) as nat, i);
    }
}

proof fn lemma_allocations_len(s: Seq<u32>, k: nat)
    ensures
        allocations(s, k).len() == k,
    decreases k,
{
    if k > 0 {
        lemma_allocations_len(s, (k - 1) as nat);
    }
}

/// Whether `chain_cluster` can chain `len` bytes on the zone map `zones`: every allocation it makes
/// picks a zone inside the map, and every one that a cluster links to succeeds.
pub fn chain_fits(zones: ZMap, len: usize) -> (r: bool)
    ensures
        r == chain_ok(zones@, len as nat),
{
    let ghost s = zones@;
    let mut m = zones;
    let k: usize = len / CLUSTER_DATA + 1;
    let chunks: usize = len / CLUSTER_DATA + if len % CLUSTER_DATA == 0 {
        0
    } else {
        1
    };
    let mut j: usize = 0;
    while j < k
        invariant
            k == chain_zones(len as nat),
            chunks == chain_chunks(len as nat),
            j <= k,
            s == zones@,
            m@ == map_after(s, j as nat),
            allocations_ok(s, j as nat),
            forall|i: int| 1 <= i < j && i - 1 < chunks && i - 1 < k - 1 ==> !is_full(#[trigger] map_after(s, i as nat)),
        decreases k - j,
    {
        if !m.allocatable() {
            proof {
                if allocations_ok(s, k as nat) {
                    lemma_allocations_ok_prefix(s, (j + 1) as nat, k as nat);
                    assert(can_allocate(map_after(s, j as nat)));
                }
                assert(!chain_ok(s, len as nat));
            }
            return false;
        }
        let full = m.full();
        if full && j >= 1 && j - 1 < chunks && j - 1 < k - 1 {
            proof {
                lemma_allocations_index(s, k as nat, j as int);
                let idx = j - 1;
                assert(!(allocations(s, k as nat)[idx + 1] is Ok));
                assert(!chain_ok(s, len as nat));
            }
            return false;
        }
        let _ = m.allocate();
        proof {
            assert(m@ == alloc_step(map_after(s, j as nat)).1);
        }
        j = j + 1;
    }
    proof {
        assert forall|index: int|
            0 <= index < chain_chunks(len as nat) && index < k - 1 implies #[trigger] allocations(s, k as nat)[index + 1] is Ok by {
            lemma_allocations_index(s, k as nat, index + 1);
            assert(!is_full(map_after(s, (index + 1) as nat)));
        }
    }
    true
}

/// The `index`-th cluster of `len` bytes starts inside them.
pub proof fn lemma_chunk_start(len: nat, index: nat)
    requires
        index < chain_chunks(len),
    ensures
        index * CLUSTER_DATA < len,
{
    let q = len / 500;
    let r = len % 500;
    assert(len == q * 500 + r && 0 <= r < 500) by (nonlinear_arith)
        requires
            q == len / 500,
            r == len % 500,
    ;
    if r == 0 {
        assert(index * 500 <= q * 500 - 500) by (nonlinear_arith)
            requires
                index + 1 <= q,
        ;
    } else {
        assert(index * 500 <= q * 500) by (nonlinear_arith)
            requires
                index <= q,
        ;
    }
}

impl Fs {
    /// Allocates one zone for each started cluster of `data` plus one, and plans one cluster
    /// per 500 bytes of `data`, each pointing at the zone allocated after its own, the last
    /// allocated one pointing at `hook`. Returns the planned writes and the first zone.
    pub fn chain_cluster(&mut self, data: &[u8], hook: u32) -> (r: (Vec<(u32, Cluster)>, Result<u32, Error>))
        requires
            chain_ok(old(self).zones(), data@.len()),
        ensures
            ({
                let k = chain_zones(data@.len());
                let rs = allocations(old(self).zones(), k);
                let (writes, first) = r;
                &&& final(self).zones() == map_after(old(self).zones(), k)
                &&& final(self).table() == old(self).table()
                &&& final(self).wf() == old(self).wf()
                &&& first == rs[0]
                &&& rs[0] is Err ==> writes@.len() == 0
                &&& rs[0] is Ok ==> writes@.len() == chain_chunks(data@.len())
                &&& rs[0] is Ok ==> forall|index: int|
                    0 <= index < writes@.len() ==> #[trigger] is_chain_write(
                        writes@[index],
                        rs,
                        data@,
                        index,
                        hook,
                    )
            }),
    {
        let ghost s = self.zones();
        let len = data.len();
        let k: usize = len / CLUSTER_DATA + 1;
        let mut zones: Vec<Result<u32, Error>> = Vec::new();
        let mut j: usize = 0;
        proof {
            lemma_map_after_len(s, chain_zones(len as nat));
        }
        while j < k
            invariant
                j <= k,
                k == chain_zones(len as nat),
                len == data@.len(),
                        allocations_ok(s, k as nat),
                self.zones() == map_after(s, j as nat),
                zones@ == allocations(s, j as nat),
                self.table() == old(self).table(),
                self.wf() == old(self).wf(),
                s == old(self).zones(),
            decreases k - j,
        {
            proof {
                lemma_allocations_ok_prefix(s, (j + 1) as nat, k as nat);
                lemma_map_after_len(s, j as nat);
            }
            let z = self.zmap.allocate();
            zones.push(z);
            j = j + 1;
        }
        let chunks: usize = len / CLUSTER_DATA + if len % CLUSTER_DATA == 0 {
            0
        } else {
            1
        };
        let ghost rs = zones@;
        let mut writes: Vec<(u32, Cluster)> = Vec::new();
        let mut index: usize = 0;
        while index < chunks
            invariant
                index <= chunks,
                chunks == chain_chunks(len as nat),
                k == chain_zones(len as nat),
                chunks <= k,
                len == data@.len(),
                zones@ == rs,
                rs == allocations(old(self).zones(), k as nat),
                self.zones() == map_after(old(self).zones(), k as nat),
                self.table() == old(self).table(),
                self.wf() == old(self).wf(),
                rs.len() == k,
                forall|i: int| 0 <= i < chunks && i < k - 1 ==> #[trigger] rs[i + 1] is Ok,
                rs[0] is Err ==> index == 0,
                writes@.len() == index,
                forall|i: int| 0 <= i < index ==> #[trigger] is_chain_write(writes@[i], rs, data@, i, hook),
            decreases chunks - index,
        {
            let next = if index < k - 1 {
                match zones[index + 1] {
                    Ok(z) => Some(z),
                    Err(_) => None,
                }
            } else {
                Some(hook)
            };
            proof {
                lemma_chunk_start(len as nat, index as nat);
            }
            let lo = index * CLUSTER_DATA;
            let hi = if len - lo >= CLUSTER_DATA { lo + CLUSTER_DATA } else { len };
            let cluster = Cluster::new(next, vstd::slice::slice_subrange(data, lo, hi));
            match zones[index] {
                Ok(z) => {
                    writes.push((z, cluster));
                    proof {
                        assert(is_chain_write(writes@[index as int], rs, data@, index as int, hook));
                    }
                },
                Err(e) => {
                    proof {
                        if index > 0 {
                            assert(rs[(index - 1) + 1] is Ok);
                        }
                    }
                    return (writes, Err(e));
                },
            }
            proof {
                if index + 1 < chunks {
                    assert(rs[index + 1] is Ok);
                }
            }
            index = index + 1;
        }
        (writes, zones[0])
    }
}

/// How a cluster write ends.
pub enum WriteEnd {
    /// The cluster was the last of its chain.
    Done,
    /// The cluster has a successor in this sector: the write reads it and then never returns.
    Stalled(u32),
}

/// `write_cluster` stays within the cluster's payload and the zone map.
pub open spec fn write_ok(s: Seq<u32>, cluster: Cluster, offset: u32, len: nat) -> bool {
    offset < cluster.len ==> {
        &&& offset <= CLUSTER_DATA
        &&& can_allocate(s)
        &&& !is_full(s) ==> chain_ok(alloc_step(s).1, len)
    }
}

impl Fs {
    /// Whether `write_cluster` can write `len` bytes at `offset` into `cluster`: the offset lies
    /// inside the payload and every zone allocation it makes succeeds inside the map.
    pub fn can_write_cluster(&self, cluster: &Cluster, offset: u32, len: usize) -> (r: bool)
        ensures
            r == write_ok(self.zones(), *cluster, offset, len as nat),
    {
        if offset >= cluster.len {
            return true;
        }
        if offset as usize > CLUSTER_DATA || !self.zmap.allocatable() {
            return false;
        }
        if self.zmap.full() {
            return true;
        }
        let mut m = self.zmap.duplicate();
        let _ = m.allocate();
        chain_fits(m, len)
    }
}

impl Fs {
    /// Writes `data` into the file at `offset` bytes into `cluster` (stored in sector
    /// `cluster_addr`), when the offset falls in this cluster: the cluster's tail from `offset`
    /// is copied to a newly allocated zone, `data` is chained in front of it, and the cluster
    /// is linked to the chain. Returns the sectors to write, in order, and how the write ends.
    pub fn write_cluster(&mut self, cluster: Cluster, cluster_addr: u32, offset: u32, data: &[u8]) -> (r: (
        Vec<(u32, Cluster)>,
        Result<WriteEnd, Error>,
    ))
        requires
            write_ok(old(self).zones(), cluster, offset, data@.len()),
        ensures
            final(self).table() == old(self).table(),
            final(self).wf() == old(self).wf(),
            offset >= cluster.len ==> {
                &&& r.0@.len() == 0
                &&& final(self).zones() == old(self).zones()
                &&& match cluster.next {
                    Some(n) => r.1 matches Ok(WriteEnd::Stalled(m)) && m == n,
                    None => r.1 matches Ok(WriteEnd::Done),
                }
            },
            offset < cluster.len && is_full(old(self).zones()) ==> {
                &&& r.0@.len() == 0
                &&& r.1 matches Err(e) && e == Error::LimitedSpace
                &&& final(self).zones() == old(self).zones()
            },
            offset < cluster.len && !is_full(old(self).zones()) ==> ({
                let hook = next_zone(old(self).zones()) as u32;
                let s1 = alloc_step(old(self).zones()).1;
                let k = chain_zones(data@.len());
                let rs = allocations(s1, k);
                let writes = r.0@;
                &&& final(self).zones() == map_after(s1, k)
                &&& writes.len() >= 1
                &&& writes[0].0 == hook
                &&& writes[0].1.next == cluster.next
                &&& writes[0].1.len == CLUSTER_DATA - offset
                &&& writes[0].1.data@ == cluster.data@.subrange(offset as int, CLUSTER_DATA as int)
                    + Seq::new(offset as nat, |i: int| 0u8)
                &&& match rs[0] {
                    Err(e) => writes.len() == 1 && (r.1 matches Err(f) && f == e),
                    Ok(head) => {
                        &&& writes.len() == chain_chunks(data@.len()) + 2
                        &&& forall|index: int| 0 <= index < chain_chunks(data@.len()) ==>
                            #[trigger] is_chain_write(writes[index + 1], rs, data@, index, hook)
                        &&& writes.last().0 == cluster_addr
                        &&& writes.last().1.next == Some(head)
                        &&& writes.last().1.len == cluster.len
                        &&& writes.last().1.data == cluster.data
                        &&& r.1 matches Ok(WriteEnd::Stalled(m)) && m == head
                    },
                }
            }),
    {
        let mut cluster = cluster;
        let mut writes: Vec<(u32, Cluster)> = Vec::new();
        if offset < cluster.len {
            let hook = match self.zmap.allocate() {
                Ok(z) => z,
                Err(e) => {
                    return (writes, Err(e));
                },
            };
            let tail = vstd::slice::slice_subrange(
                vstd::array::array_as_slice(&cluster.data),
                offset as usize,
                CLUSTER_DATA,
            );
            let split = Cluster::new(cluster.next, tail);
            writes.push((hook, split));
            let (mut chain, head) = self.chain_cluster(data, hook);
            let ghost chained = chain@;
            writes.append(&mut chain);
            let addr = match head {
                Ok(a) => a,
                Err(e) => {
                    return (writes, Err(e));
                },
            };
            cluster.next = Some(addr);
            writes.push((cluster_addr, cluster));
            proof {
                let rs = allocations(alloc_step(old(self).zones()).1, chain_zones(data@.len()));
                assert forall|index: int| 0 <= index < chain_chunks(data@.len()) implies
                    #[trigger] is_chain_write(writes@[index + 1], rs, data@, index, hook) by {
                    assert(writes@[index + 1] == chained[index]);
                }
            }
        }
        match cluster.next {
            Some(n) => (writes, Ok(WriteEnd::Stalled(n))),
            None => (writes, Ok(WriteEnd::Done)),
        }
    }
}

} // verus!

verus! {

/// The bytes that reading `start..end` gathers from a chain of clusters, given as (used length,
/// payload) pairs in chain order, from its `i`-th cluster on, that cluster starting at logical
/// offset `count`; none when the chain ends first.
pub open spec fn read_from(start: u32, end: u32, count: int, cs: Seq<(u32, Seq<u8>)>, i: int) -> Option<Seq<u8>>
    decreases cs.len() - i,
{
    if i < 0 || i >= cs.len() || count < 0 || count > u32::MAX {
        None
    } else {
        let (piece, done) = read_piece(start, end, count as u32, cs[i].0, cs[i].1);
        if done {
            Some(piece)
        } else {
            match read_from(start, end, count + cs[i].0, cs, i + 1) {
                Some(rest) => Some(piece + rest),
                None => None,
            }
        }
    }
}

/// The chain that holds `contents`: 500 bytes per cluster, each zero-padded to a full payload.
pub open spec fn laid_out(contents: Seq<u8>) -> Seq<(u32, Seq<u8>)> {
    Seq::new(
        chain_chunks(contents.len()),
        |i: int|
            (
                chunk_of(contents, i).len() as u32,
                chunk_of(contents, i) + Seq::new(
                    (CLUSTER_DATA - chunk_of(contents, i).len()) as nat,
                    |k: int| 0u8,
                ),
            ),
    )
}

/// A cluster index lies inside a chain of `len` bytes exactly when its first byte does.
proof fn lemma_chunk_index(len: nat, i: int)
    requires
        i >= 0,
    ensures
        (i < chain_chunks(len)) == (i * 500 < len),
{
    let q = len / 500;
    let r = len % 500;
    assert(len == q * 500 + r && 0 <= r < 500) by (nonlinear_arith)
        requires
            q == len / 500,
            r == len % 500,
    ;
    if i < chain_chunks(len) {
        lemma_chunk_start(len, i as nat);
    } else {
        if r == 0 {
            assert(i * 500 >= q * 500) by (nonlinear_arith)
                requires
                    i >= q,
            ;
        } else {
            assert(i * 500 >= q * 500 + 500) by (nonlinear_arith)
                requires
                    i >= q + 1,
            ;
        }
    }
}

/// The `i`-th chunk of `contents`: the 500 bytes from `500 i`, or the rest when fewer remain.
proof fn lemma_chunk_shape(contents: Seq<u8>, i: int)
    requires
        0 <= i,
        i * 500 < contents.len(),
    ensures
        chunk_of(contents, i) == contents.subrange(i * 500, if i * 500 + 500 <= contents.len() {
            i * 500 + 500
        } else {
            contents.len() as int
        }),
{
}

proof fn lemma_read_rest(contents: Seq<u8>, start: u32, end: u32, i: int)
    requires
        contents.len() <= u32::MAX,
        1 <= i,
        start < i * 500,
        i * 500 <= end,
        end < contents.len(),
    ensures
        read_from(start, end, i * 500, laid_out(contents), i) == Some(contents.subrange(i * 500, end as int)),
    decreases contents.len() - i * 500,
{
    let n = contents.len();
    let cs = laid_out(contents);
    lemma_chunk_index(n, i);
    let c = chunk_of(contents, i);
    lemma_chunk_shape(contents, i);
    let count = i * 500;
    let len = c.len() as u32;
    assert(cs[i].0 == len);
    assert(cs[i].1 == c + Seq::new((CLUSTER_DATA - c.len()) as nat, |k: int| 0u8));
    if end < count + len {
        assert(cs[i].1.subrange(0, end - count) =~= contents.subrange(count, end as int));
    } else {
        assert(len == 500);
        assert(cs[i].1 =~= contents.subrange(count, count + 500));
        lemma_read_rest(contents, start, end, i + 1);
        assert(contents.subrange(count, count + 500) + contents.subrange(count + 500, end as int)
            =~= contents.subrange(count, end as int));
    }
}

/// Reading back what the image builder wrote: over the chain that holds `contents`, a read of
/// `start..end` that starts in the first cluster and ends before the last byte gathers exactly
/// `contents[start..end]`.
pub proof fn lemma_read_back(contents: Seq<u8>, start: u32, end: u32)
    requires
        contents.len() <= u32::MAX,
        start < CLUSTER_DATA,
        start <= end,
        end < contents.len(),
    ensures
        read_from(start, end, 0, laid_out(contents), 0) == Some(contents.subrange(start as int, end as int)),
{
    let n = contents.len();
    let cs = laid_out(contents);
    lemma_chunk_index(n, 0);
    let c = chunk_of(contents, 0);
    lemma_chunk_shape(contents, 0);
    let len = c.len() as u32;
    assert(cs[0].0 == len);
    assert(cs[0].1 == c + Seq::new((CLUSTER_DATA - c.len()) as nat, |k: int| 0u8));
    if end < len {
        assert(cs[0].1.subrange(start as int, end as int) =~= contents.subrange(start as int, end as int));
    } else {
        assert(len == 500);
        assert(cs[0].1.subrange(start as int, 500) =~= contents.subrange(start as int, 500));
        lemma_read_rest(contents, start, end, 1);
        assert(contents.subrange(start as int, 500) + contents.subrange(500, end as int) =~= contents.subrange(
            start as int,
            end as int,
        ));
    }
}

} // verus!
