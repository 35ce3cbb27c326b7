//! The on-disk file system: a header sector, a directory table mapping names to the first
//! cluster of each file, and chained clusters of file data.
pub mod chain;
pub mod error;
pub mod keys;
pub mod vfs;
pub mod layout;
pub mod mount;
pub mod zmap;

pub use error::Error;
pub use layout::{Cluster, DirEntry, Header};
pub use zmap::ZMap;

use layout::{opt_at, BLOCK_SIZE, NAME_LEN};
use vstd::prelude::*;
use zmap::{is_used, lemma_read_after_set, with_zone};

verus! {

/// A directory entry's name and zone, as plain values.
pub type Listing = (Seq<u8>, Option<u32>);

/// The name-to-zone table described by a sequence of entries (later entries win).
pub open spec fn table_of(es: Seq<Listing>) -> Map<Seq<u8>, Option<u32>>
    decreases es.len(),
{
    if es.len() == 0 {
        Map::empty()
    } else {
        table_of(es.drop_last()).insert(es.last().0, es.last().1)
    }
}

/// No two entries share a name.
pub open spec fn names_unique(es: Seq<Listing>) -> bool {
    forall|i: int, j: int| 0 <= i < es.len() && 0 <= j < es.len() && i != j ==> es[i].0 != es[j].0
}

/// The listing of a directory entry.
pub open spec fn listing(e: DirEntry) -> Listing {
    (e.name@, e.addr)
}

/// Chunk `k` of a directory sector is all zero bytes: the end of the table.
pub open spec fn is_blank(b: Seq<u8>, k: int) -> bool {
    forall|j: int| k * 64 <= j < k * 64 + 64 ==> b[j] == 0u8
}

/// Index of the first blank chunk of a sector at or after `k` (8 when there is none).
pub open spec fn first_blank_from(b: Seq<u8>, k: int) -> int
    decreases 8 - k,
{
    if k >= 8 {
        8
    } else if is_blank(b, k) {
        k
    } else {
        first_blank_from(b, k + 1)
    }
}

/// Number of entries a directory sector lists: the chunks before the first blank one.
pub open spec fn listed_count(b: Seq<u8>) -> int {
    first_blank_from(b, 0)
}

/// The entry in chunk `k` of a directory sector.
pub open spec fn listed_at(b: Seq<u8>, k: int) -> Listing {
    (b.subrange(k * 64, k * 64 + 56), opt_at(b, k * 64 + 56))
}

/// The table after remembering the first `n` entries of a sector.
pub open spec fn cached_upto(m: Map<Seq<u8>, Option<u32>>, b: Seq<u8>, n: int) -> Map<Seq<u8>, Option<u32>>
    decreases n,
{
    if n <= 0 {
        m
    } else {
        cached_upto(m, b, n - 1).insert(listed_at(b, n - 1).0, listed_at(b, n - 1).1)
    }
}

/// The zone map after marking the zones of the first `n` entries of a sector used.
pub open spec fn marked_upto(z: Seq<u32>, b: Seq<u8>, n: int) -> Seq<u32>
    decreases n,
{
    if n <= 0 {
        z
    } else {
        match listed_at(b, n - 1).1 {
            Some(zone) => with_zone(marked_upto(z, b, n - 1), zone, true),
            None => marked_upto(z, b, n - 1),
        }
    }
}

/// Every zone that the entries of a sector name lies inside a zone map of `words` words.
pub open spec fn zones_fit(b: Seq<u8>, words: int) -> bool {
    forall|k: int|
        0 <= k < listed_count(b) ==> match #[trigger] listed_at(b, k).1 {
            Some(zone) => zone / 32 < words,
            None => true,
        }
}

/// What a lookup of `path` answers for a table.
pub open spec fn query_result(m: Map<Seq<u8>, Option<u32>>, path: Seq<u8>) -> Result<u32, Error> {
    if !m.contains_key(path) {
        Err(Error::InvalidPath)
    } else {
        match m[path] {
            Some(addr) => Ok(addr),
            None => Err(Error::ExpectedFile),
        }
    }
}

proof fn lemma_table_lookup(es: Seq<Listing>, i: int)
    requires
        names_unique(es),
        0 <= i < es.len(),
    ensures
        table_of(es).contains_key(es[i].0),
        table_of(es)[es[i].0] == es[i].1,
    decreases es.len(),
{
    if i < es.len() - 1 {
        lemma_table_lookup(es.drop_last(), i);
    }
}

proof fn lemma_table_missing(es: Seq<Listing>, k: Seq<u8>)
    requires
        forall|i: int| 0 <= i < es.len() ==> es[i].0 != k,
    ensures
        !table_of(es).contains_key(k),
    decreases es.len(),
{
    if es.len() > 0 {
        lemma_table_missing(es.drop_last(), k);
    }
}

proof fn lemma_table_keys(es: Seq<Listing>, k: Seq<u8>)
    requires
        table_of(es).contains_key(k),
    ensures
        exists|i: int| 0 <= i < es.len() && es[i].0 == k,
    decreases es.len(),
{
    if es.len() > 0 && es.last().0 != k {
        lemma_table_keys(es.drop_last(), k);
        let i = choose|i: int| 0 <= i < es.drop_last().len() && es.drop_last()[i].0 == k;
        assert(es[i].0 == k);
    }
}

proof fn lemma_table_update(es: Seq<Listing>, i: int, e: Listing)
    requires
        names_unique(es),
        0 <= i < es.len(),
        e.0 == es[i].0,
    ensures
        table_of(es.update(i, e)) == table_of(es).insert(e.0, e.1),
    decreases es.len(),
{
    let t = es.update(i, e);
    if i == es.len() - 1 {
        assert(t.drop_last() =~= es.drop_last());
        assert(table_of(t) =~= table_of(es).insert(e.0, e.1));
    } else {
        assert(t.drop_last() =~= es.drop_last().update(i, e));
        lemma_table_update(es.drop_last(), i, e);
        assert(es.last().0 != e.0);
        assert(table_of(t) =~= table_of(es).insert(e.0, e.1));
    }
}

pub(crate) proof fn lemma_first_blank(b: Seq<u8>, i: int, k: int)
    requires
        0 <= i <= k <= 8,
        forall|j: int| i <= j < k ==> !is_blank(b, j),
        k == 8 || is_blank(b, k),
    ensures
        first_blank_from(b, i) == k,
    decreases k - i,
{
    if i < k {
        lemma_first_blank(b, i + 1, k);
    }
}

proof fn lemma_first_blank_bounds(b: Seq<u8>, i: int)
    requires
        0 <= i <= 8,
    ensures
        i <= first_blank_from(b, i) <= 8,
        forall|j: int| i <= j < first_blank_from(b, i) ==> !is_blank(b, j),
        first_blank_from(b, i) < 8 ==> is_blank(b, first_blank_from(b, i)),
    decreases 8 - i,
{
    if i < 8 && !is_blank(b, i) {
        lemma_first_blank_bounds(b, i + 1);
    }
}

proof fn lemma_marked_len(z: Seq<u32>, b: Seq<u8>, n: int)
    requires
        n <= listed_count(b),
        zones_fit(b, z.len() as int),
    ensures
        marked_upto(z, b, n).len() == z.len(),
    decreases n,
{
    if n > 0 {
        lemma_marked_len(z, b, n - 1);
    }
}

/// `zone` is the zone of one of the first `n` entries of a directory sector.
pub open spec fn names_zone(b: Seq<u8>, n: int, zone: u32) -> bool {
    exists|k: int| 0 <= k < n && #[trigger] listed_at(b, k).1 == Some(zone)
}

/// Caching a directory sector marks the zone of every listed file used, and leaves every
/// other zone as it was.
pub proof fn lemma_cache_marks(z: Seq<u32>, b: Seq<u8>, n: int)
    requires
        0 <= n <= listed_count(b),
        zones_fit(b, z.len() as int),
    ensures
        forall|k: int|
            0 <= k < n ==> match #[trigger] listed_at(b, k).1 {
                Some(zone) => is_used(marked_upto(z, b, n), zone),
                None => true,
            },
        forall|other: u32| !names_zone(b, n, other) ==> #[trigger] is_used(marked_upto(z, b, n), other)
            == is_used(z, other),
    decreases n,
{
    if n > 0 {
        lemma_cache_marks(z, b, n - 1);
        lemma_marked_len(z, b, n - 1);
        let m = marked_upto(z, b, n - 1);
        match listed_at(b, n - 1).1 {
            Some(zone) => {
                assert(zone / 32 < z.len());
                lemma_read_after_set(m, zone, true, zone);
                assert forall|k: int| 0 <= k < n implies match #[trigger] listed_at(b, k).1 {
                    Some(zk) => is_used(marked_upto(z, b, n), zk),
                    None => true,
                } by {
                    if let Some(zk) = listed_at(b, k).1 {
                        lemma_read_after_set(m, zone, true, zk);
                    }
                }
                assert forall|other: u32| !names_zone(b, n, other) implies #[trigger] is_used(
                    marked_upto(z, b, n),
                    other,
                ) == is_used(z, other) by {
                    lemma_read_after_set(m, zone, true, other);
                    if names_zone(b, n - 1, other) {
                        let k = choose|k: int| 0 <= k < n - 1 && #[trigger] listed_at(b, k).1 == Some(other);
                        assert(listed_at(b, k).1 == Some(other));
                    }
                    assert(listed_at(b, n - 1).1 == Some(zone));
                }
            },
            None => {
                assert forall|other: u32| !names_zone(b, n, other) implies #[trigger] is_used(
                    marked_upto(z, b, n),
                    other,
                ) == is_used(z, other) by {
                    if names_zone(b, n - 1, other) {
                        let k = choose|k: int| 0 <= k < n - 1 && #[trigger] listed_at(b, k).1 == Some(other);
                        assert(listed_at(b, k).1 == Some(other));
                    }
                }
            },
        }
    }
}

/// Caching a directory sector records each listed name with its zone (the last listing of a
/// name wins) and leaves every name it does not list as it was.
pub proof fn lemma_cache_table(m: Map<Seq<u8>, Option<u32>>, b: Seq<u8>, n: int)
    requires
        n >= 0,
    ensures
        forall|k: int|
            0 <= k < n && (forall|j: int| k < j < n ==> (#[trigger] listed_at(b, j)).0 != listed_at(b, k).0)
                ==> cached_upto(m, b, n).contains_key(#[trigger] listed_at(b, k).0) && cached_upto(m, b, n)[listed_at(
                b,
                k,
            ).0] == listed_at(b, k).1,
        forall|key: Seq<u8>|
            (forall|k: int| 0 <= k < n ==> (#[trigger] listed_at(b, k)).0 != key) ==> (#[trigger] cached_upto(
                m,
                b,
                n,
            ).contains_key(key) == m.contains_key(key) && (m.contains_key(key) ==> cached_upto(m, b, n)[key]
                == m[key])),
    decreases n,
{
    if n > 0 {
        lemma_cache_table(m, b, n - 1);
        let last = listed_at(b, n - 1);
        assert forall|k: int|
            0 <= k < n && (forall|j: int| k < j < n ==> (#[trigger] listed_at(b, j)).0 != listed_at(b, k).0)
                implies cached_upto(m, b, n).contains_key(#[trigger] listed_at(b, k).0) && cached_upto(m, b, n)[listed_at(
                b,
                k,
            ).0] == listed_at(b, k).1 by {
            if k < n - 1 {
                assert(listed_at(b, n - 1).0 != listed_at(b, k).0);
            }
        }
        assert forall|key: Seq<u8>|
            (forall|k: int| 0 <= k < n ==> (#[trigger] listed_at(b, k)).0 != key) implies (#[trigger] cached_upto(
                m,
                b,
                n,
            ).contains_key(key) == m.contains_key(key) && (m.contains_key(key) ==> cached_upto(m, b, n)[key]
                == m[key])) by {
            assert(listed_at(b, n - 1).0 != key);
            assert(forall|k: int| 0 <= k < n - 1 ==> (#[trigger] listed_at(b, k)).0 != key);
            let prev = cached_upto(m, b, n - 1);
            assert(prev.contains_key(key) == m.contains_key(key));
            assert(m.contains_key(key) ==> prev[key] == m[key]);
            assert(cached_upto(m, b, n) == prev.insert(listed_at(b, n - 1).0, listed_at(b, n - 1).1));
        }
    }
}

/// A lookup finds the first cluster of a known file, answers `ExpectedFile` for a known
/// directory and `InvalidPath` for an unknown name.
pub proof fn lemma_query_cases(m: Map<Seq<u8>, Option<u32>>, path: Seq<u8>)
    ensures
        !m.contains_key(path) ==> query_result(m, path) == Err::<u32, Error>(Error::InvalidPath),
        m.contains_key(path) && m[path] is None ==> query_result(m, path) == Err::<u32, Error>(
            Error::ExpectedFile,
        ),
        forall|z: u32| m.contains_key(path) && m[path] == Some(z) ==> query_result(m, path) == Ok::<
            u32,
            Error,
        >(z),
{
}

/// Compares two names byte by byte.
pub fn names_equal(a: &[u8; 56], b: &[u8; 56]) -> (r: bool)
    ensures
        r == (a@ == b@),
{
    let mut i: usize = 0;
    while i < NAME_LEN
        invariant
            i <= NAME_LEN,
            a@.len() == NAME_LEN,
            b@.len() == NAME_LEN,
            forall|k: int| 0 <= k < i ==> a@[k] == b@[k],
        decreases NAME_LEN - i,
    {
        if a[i] != b[i] {
            return false;
        }
        i = i + 1;
    }
    proof {
        assert(a@ =~= b@);
    }
    true
}

/// The chunk `k` of `b` is all zero bytes.
fn chunk_is_blank(b: &[u8], k: usize) -> (r: bool)
    requires
        k < 8,
        b@.len() == BLOCK_SIZE,
    ensures
        r == is_blank(b@, k as int),
{
    let mut j: usize = k * 64;
    while j < k * 64 + 64
        invariant
            k * 64 <= j <= k * 64 + 64,
            k < 8,
            b@.len() == BLOCK_SIZE,
            forall|x: int| k * 64 <= x < j ==> b@[x] == 0u8,
        decreases k * 64 + 64 - j,
    {
        if b[j] != 0 {
            return false;
        }
        j = j + 1;
    }
    true
}

/// The mounted file system: the zone map and the directory table read from disk. The table
/// is a vector of entries whose names are unique (`wf`); an entry is found by comparing names.
pub struct Fs {
    zmap: ZMap,
    entries: Vec<DirEntry>,
}

impl Fs {
    /// The directory table as a map from names to first clusters.
    pub closed spec fn table(&self) -> Map<Seq<u8>, Option<u32>> {
        table_of(self.entries@.map_values(|e: DirEntry| listing(e)))
    }

    /// The zone map's words.
    pub closed spec fn zones(&self) -> Seq<u32> {
        self.zmap@
    }

    /// The directory table holds each name once.
    pub closed spec fn wf(&self) -> bool {
        names_unique(self.entries@.map_values(|e: DirEntry| listing(e)))
    }

    /// A file system for a disk of `sectors` sectors, with an empty directory table.
    pub fn new(sectors: usize) -> (fs: Fs)
        requires
            sectors >= 5,
            sectors - 5 + zmap::RESERVED_WORDS <= usize::MAX,
        ensures
            fs.wf(),
            fs.table() == Map::<Seq<u8>, Option<u32>>::empty(),
            fs.zones() == Seq::new(zmap::RESERVED_WORDS as nat, |i: int| u32::MAX) + Seq::new(
                (sectors - 5) as nat,
                |i: int| 0u32,
            ),
    {
        let fs = Fs { zmap: ZMap::new(sectors), entries: Vec::new() };
        proof {
            assert(fs.entries@.map_values(|e: DirEntry| listing(e)) =~= Seq::<Listing>::empty());
        }
        fs
    }

    /// Puts `entry` into the directory table, replacing an entry of the same name.
    fn remember(&mut self, entry: DirEntry)
        requires
            old(self).wf(),
        ensures
            final(self).wf(),
            final(self).table() == old(self).table().insert(entry.name@, entry.addr),
            final(self).zones() == old(self).zones(),
    {
        let ghost es = self.entries@.map_values(|e: DirEntry| listing(e));
        let mut i: usize = 0;
        while i < self.entries.len()
            invariant
                i <= self.entries@.len(),
                self.entries@ == old(self).entries@,
                self.zmap@ == old(self).zmap@,
                es == self.entries@.map_values(|e: DirEntry| listing(e)),
                names_unique(es),
                forall|j: int| 0 <= j < i ==> es[j].0 != entry.name@,
            decreases self.entries@.len() - i,
        {
            if names_equal(&self.entries[i].name, &entry.name) {
                self.entries.set(i, entry);
                proof {
                    lemma_table_update(es, i as int, listing(entry));
                    let ns = es.update(i as int, listing(entry));
                    assert forall|a: int, b: int| 0 <= a < ns.len() && 0 <= b < ns.len() && a != b
                        implies ns[a].0 != ns[b].0 by {
                        if a != i && b != i {
                            assert(es[a].0 != es[b].0);
                        } else if a == i {
                            assert(es[i as int].0 != es[b].0);
                        } else {
                            assert(es[a].0 != es[i as int].0);
                        }
                    }
                    assert(self.entries@.map_values(|e: DirEntry| listing(e)) =~= es.update(
                        i as int,
                        listing(entry),
                    ));
                }
                return;
            }
            i = i + 1;
        }
        self.entries.push(entry);
        proof {
            let ns = self.entries@.map_values(|e: DirEntry| listing(e));
            assert(ns =~= es.push(listing(entry)));
            assert(ns.drop_last() =~= es);
        }
    }

    /// Remembers the entries of one directory sector, up to its first blank chunk, and marks
    /// the zones they start at used.
    pub fn cache(&mut self, block: &[u8])
        requires
            old(self).wf(),
            block@.len() == BLOCK_SIZE,
            zones_fit(block@, old(self).zones().len() as int),
        ensures
            final(self).wf(),
            final(self).table() == cached_upto(old(self).table(), block@, listed_count(block@)),
            final(self).zones() == marked_upto(old(self).zones(), block@, listed_count(block@)),
            forall|k: int|
                0 <= k < listed_count(block@) ==> match #[trigger] listed_at(block@, k).1 {
                    Some(zone) => is_used(final(self).zones(), zone),
                    None => true,
                },
            forall|other: u32|
                !names_zone(block@, listed_count(block@), other) ==> #[trigger] is_used(
                    final(self).zones(),
                    other,
                ) == is_used(old(self).zones(), other),            forall|k: int|
                0 <= k < listed_count(block@) && (forall|j: int|
                    k < j < listed_count(block@) ==> (#[trigger] listed_at(block@, j)).0 != listed_at(block@, k).0)
                    ==> final(self).table().contains_key(#[trigger] listed_at(block@, k).0)
                    && final(self).table()[listed_at(block@, k).0] == listed_at(block@, k).1,
            forall|key: Seq<u8>|
                (forall|k: int| 0 <= k < listed_count(block@) ==> (#[trigger] listed_at(block@, k)).0 != key)
                    ==> (#[trigger] final(self).table().contains_key(key) == old(self).table().contains_key(key)
                    && (old(self).table().contains_key(key) ==> final(self).table()[key] == old(self).table()[key])),
    {
        let mut k: usize = 0;
        proof {
            lemma_first_blank_bounds(block@, 0);
        }
        while k < 8
            invariant
                k <= 8,
                block@.len() == BLOCK_SIZE,
                self.wf(),
                forall|j: int| 0 <= j < k ==> !is_blank(block@, j),
                0 <= listed_count(block@) <= 8,
                k <= listed_count(block@),
                forall|j: int| 0 <= j < listed_count(block@) ==> !is_blank(block@, j),
                zones_fit(block@, old(self).zones().len() as int),
                self.table() == cached_upto(old(self).table(), block@, k as int),
                self.zones() == marked_upto(old(self).zones(), block@, k as int),
            decreases 8 - k,
        {
            if chunk_is_blank(block, k) {
                proof {
                    lemma_first_blank(block@, 0, k as int);
                    lemma_cache_marks(old(self).zones(), block@, listed_count(block@));
                    lemma_cache_table(old(self).table(), block@, listed_count(block@));
                }
                return;
            }
            proof {
                lemma_first_blank_bounds(block@, 0);
            }
            let chunk = slice_subrange_of(block, k * 64, k * 64 + 64);
            let entry = DirEntry::decode(chunk);
            proof {
                assert(entry.name@ =~= listed_at(block@, k as int).0);
                assert(chunk@.subrange(56, 60) =~= block@.subrange(k * 64 + 56, k * 64 + 60));
                assert(chunk@.subrange(60, 64) =~= block@.subrange(k * 64 + 60, k * 64 + 64));
                assert(entry.addr == listed_at(block@, k as int).1);
            }
            self.remember(entry);
            if let Some(zone) = entry.addr {
                proof {
                    lemma_marked_len(old(self).zones(), block@, k as int);
                    assert(zones_fit(block@, old(self).zones().len() as int));
                    let _ = listed_at(block@, k as int);
                }
                self.zmap.set(zone, true);
            }
            k = k + 1;
        }
        proof {
            lemma_first_blank(block@, 0, 8);
            lemma_cache_marks(old(self).zones(), block@, listed_count(block@));
            lemma_cache_table(old(self).table(), block@, listed_count(block@));
        }
    }

    /// Every zone that the entries of `block` name lies inside the zone map, so that `cache`
    /// can mark them.
    pub fn can_cache(&self, block: &[u8]) -> (r: bool)
        requires
            block@.len() == BLOCK_SIZE,
        ensures
            r == zones_fit(block@, self.zones().len() as int),
    {
        let words = self.zmap.len();
        let mut k: usize = 0;
        proof {
            lemma_first_blank_bounds(block@, 0);
        }
        while k < 8
            invariant
                k <= 8,
                block@.len() == BLOCK_SIZE,
                words == self.zones().len(),
                forall|j: int| 0 <= j < k ==> !is_blank(block@, j),
                0 <= listed_count(block@) <= 8,
                k <= listed_count(block@),
                forall|j: int| 0 <= j < listed_count(block@) ==> !is_blank(block@, j),
                listed_count(block@) < 8 ==> is_blank(block@, listed_count(block@)),
                forall|j: int|
                    0 <= j < k ==> match #[trigger] listed_at(block@, j).1 {
                        Some(zone) => zone / 32 < words,
                        None => true,
                    },
            decreases 8 - k,
        {
            if chunk_is_blank(block, k) {
                return true;
            }
            let addr = layout::read_opt(block, k * 64 + 56);
            proof {
                assert(addr == listed_at(block@, k as int).1);
            }
            if let Some(zone) = addr {
                if (zone / 32) as usize >= words {
                    return false;
                }
            }
            k = k + 1;
        }
        true
    }

    /// The first cluster of the file named `path`: `InvalidPath` when the name is unknown and
    /// `ExpectedFile` when it names a directory.
    pub fn query(&self, path: [u8; 56]) -> (r: Result<u32, Error>)
        requires
            self.wf(),
        ensures
            r == query_result(self.table(), path@),
    {
        let ghost es = self.entries@.map_values(|e: DirEntry| listing(e));
        let mut i: usize = 0;
        while i < self.entries.len()
            invariant
                i <= self.entries@.len(),
                es == self.entries@.map_values(|e: DirEntry| listing(e)),
                names_unique(es),
                forall|j: int| 0 <= j < i ==> es[j].0 != path@,
            decreases self.entries@.len() - i,
        {
            if names_equal(&self.entries[i].name, &path) {
                proof {
                    lemma_table_lookup(es, i as int);
                }
                return match self.entries[i].addr {
                    Some(addr) => Ok(addr),
                    None => Err(Error::ExpectedFile),
                };
            }
            i = i + 1;
        }
        proof {
            lemma_table_missing(es, path@);
        }
        Err(Error::InvalidPath)
    }

    /// Marks `zone` used or free in the zone map.
    pub fn mark(&mut self, zone: u32, status: bool)
        requires
            zone / 32 < old(self).zones().len(),
        ensures
            final(self).zones() == with_zone(old(self).zones(), zone, status),
            final(self).table() == old(self).table(),
            final(self).wf() == old(self).wf(),
    {
        self.zmap.set(zone, status);
    }

    /// Creating files is not supported: does nothing.
    pub fn touch(&mut self, path: &str)
        ensures
            final(self).table() == old(self).table(),
            final(self).zones() == old(self).zones(),
            final(self).wf() == old(self).wf(),
    {
    }

    /// Creating directories is not supported: does nothing.
    pub fn mkdir(&mut self, path: &str)
        ensures
            final(self).table() == old(self).table(),
            final(self).zones() == old(self).zones(),
            final(self).wf() == old(self).wf(),
    {
    }

    /// Listing directories is not supported: does nothing.
    pub fn list(&mut self, path: &str)
        ensures
            final(self).table() == old(self).table(),
            final(self).zones() == old(self).zones(),
            final(self).wf() == old(self).wf(),
    {
    }

    /// Whether `zone` is marked used.
    pub open spec fn zone_used(&self, zone: u32) -> bool {
        is_used(self.zones(), zone)
    }
}

/// `b[from..to]`.
fn slice_subrange_of(b: &[u8], from: usize, to: usize) -> (s: &[u8])
    requires
        from <= to <= b@.len(),
    ensures
        s@ == b@.subrange(from as int, to as int),
{
    vstd::slice::slice_subrange(b, from, to)
}

} // verus!
