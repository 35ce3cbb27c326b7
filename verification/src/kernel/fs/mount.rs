//! Mounting a built image: the directory table that the image builder writes (entry `i` at
//! byte `512 + 64 * i`) read back sector by sector through the directory cache.
use vstd::prelude::*;
use super::{cached_upto, is_blank, listed_at, listed_count, table_of, Listing};
use super::layout::{lemma_opt_roundtrip, opt_at, opt_bytes, u32_at};

verus! {

/// The 64 bytes of a directory entry: its name, then its encoded zone.
pub open spec fn entry_bytes(l: Listing) -> Seq<u8> {
    l.0 + opt_bytes(l.1)
}

/// Directory sector `k` (disk sector `1 + k`) of an image whose table lists `es`: byte `p`
/// is byte `p % 64` of entry `8 * k + p / 64`, or zero past the last entry.
pub open spec fn dir_sector(es: Seq<Listing>, k: int) -> Seq<u8> {
    Seq::new(
        512,
        |p: int|
            if 8 * k + p / 64 < es.len() {
                entry_bytes(es[8 * k + p / 64])[p % 64]
            } else {
                0u8
            },
    )
}

/// Every name is 56 bytes long and not all zero bytes.
pub open spec fn well_named(es: Seq<Listing>) -> bool {
    forall|i: int|
        0 <= i < es.len() ==> (#[trigger] es[i]).0.len() == 56 && exists|x: int|
            0 <= x < 56 && es[i].0[x] != 0u8
}

/// The table that caching the first `s` directory sectors of the image builds, from an empty
/// table.
pub open spec fn mount_table(es: Seq<Listing>, s: nat) -> Map<Seq<u8>, Option<u32>>
    decreases s,
{
    if s == 0 {
        Map::empty()
    } else {
        let b = dir_sector(es, s - 1);
        cached_upto(mount_table(es, (s - 1) as nat), b, listed_count(b))
    }
}

/// Byte `64 * j + x` of directory sector `k` is byte `x` of entry `8 * k + j`.
pub proof fn lemma_sector_byte(es: Seq<Listing>, k: int, j: int, x: int)
    requires
        0 <= j < 8,
        0 <= x < 64,
    ensures
        dir_sector(es, k)[64 * j + x] == (if 8 * k + j < es.len() {
            entry_bytes(es[8 * k + j])[x]
        } else {
            0u8
        }),
{
    vstd::arithmetic::div_mod::lemma_fundamental_div_mod_converse(64 * j + x, 64, j, x);
}

proof fn lemma_sector_entry(es: Seq<Listing>, k: int, j: int)
    requires
        well_named(es),
        k >= 0,
        0 <= j < 8,
        8 * k + j < es.len(),
    ensures
        listed_at(dir_sector(es, k), j) == es[8 * k + j],
        !is_blank(dir_sector(es, k), j),
{
    let b = dir_sector(es, k);
    let l = es[8 * k + j];
    let e = entry_bytes(l);
    lemma_opt_roundtrip(l.1, l.0, Seq::empty());
    assert(e =~= l.0 + opt_bytes(l.1) + Seq::empty());
    assert forall|x: int| 0 <= x < 64 implies b[64 * j + x] == #[trigger] e[x] by {
        lemma_sector_byte(es, k, j, x);
    }
    assert(b.subrange(64 * j, 64 * j + 56) =~= l.0) by {
        assert forall|x: int| 0 <= x < 56 implies b.subrange(64 * j, 64 * j + 56)[x] == l.0[x] by {
            assert(b[64 * j + x] == e[x]);
        }
    }
    assert(b.subrange(64 * j + 56, 64 * j + 60) =~= e.subrange(56, 60)) by {
        assert forall|x: int| 0 <= x < 4 implies b.subrange(64 * j + 56, 64 * j + 60)[x] == e.subrange(56, 60)[x] by {
            assert(b[64 * j + 56 + x] == e[56 + x]);
        }
    }
    assert(b.subrange(64 * j + 60, 64 * j + 64) =~= e.subrange(60, 64)) by {
        assert forall|x: int| 0 <= x < 4 implies b.subrange(64 * j + 60, 64 * j + 64)[x] == e.subrange(60, 64)[x] by {
            assert(b[64 * j + 60 + x] == e[60 + x]);
        }
    }
    assert(u32_at(b, 64 * j + 56) == u32_at(e, 56));
    assert(u32_at(b, 64 * j + 60) == u32_at(e, 60));
    assert(opt_at(b, 64 * j + 56) == opt_at(e, 56));
    let x = choose|x: int| 0 <= x < 56 && l.0[x] != 0u8;
    assert(b[64 * j + x] == e[x]);
}

proof fn lemma_sector_blank(es: Seq<Listing>, k: int, j: int)
    requires
        0 <= j < 8,
        8 * k + j >= es.len(),
    ensures
        is_blank(dir_sector(es, k), j),
{
    assert forall|p: int| j * 64 <= p < j * 64 + 64 implies dir_sector(es, k)[p] == 0u8 by {
        lemma_sector_byte(es, k, j, p - 64 * j);
    }
}

/// Directory sector `k` lists the entries `8 * k ..` of the table, at most eight.
proof fn lemma_sector_count(es: Seq<Listing>, k: int)
    requires
        well_named(es),
        k >= 0,
    ensures
        listed_count(dir_sector(es, k)) == (if es.len() <= 8 * k {
            0
        } else if es.len() - 8 * k >= 8 {
            8
        } else {
            es.len() - 8 * k
        }),
{
    let b = dir_sector(es, k);
    let c = if es.len() <= 8 * k {
        0
    } else if es.len() - 8 * k >= 8 {
        8
    } else {
        es.len() - 8 * k
    };
    assert forall|j: int| 0 <= j < c implies !is_blank(b, j) by {
        lemma_sector_entry(es, k, j);
    }
    if c < 8 {
        lemma_sector_blank(es, k, c);
    }
    super::lemma_first_blank(b, 0, c);
}

proof fn lemma_cached(es: Seq<Listing>, k: int, c: int)
    requires
        well_named(es),
        k >= 0,
        0 <= c <= 8,
        8 * k + c <= es.len(),
    ensures
        cached_upto(table_of(es.take(8 * k)), dir_sector(es, k), c) == table_of(es.take(8 * k + c)),
    decreases c,
{
    if c > 0 {
        lemma_cached(es, k, c - 1);
        lemma_sector_entry(es, k, c - 1);
        let t = es.take(8 * k + c);
        assert(t.drop_last() =~= es.take(8 * k + c - 1));
    }
}

/// Mounting gives back the built table: caching the directory sectors of an image whose table
/// lists `es` (with names that are not all zero bytes), as many sectors as hold all entries,
/// builds exactly the table of `es`, a later entry winning over an earlier one of the same
/// name.
pub proof fn lemma_mount(es: Seq<Listing>, s: nat)
    requires
        well_named(es),
        es.len() <= 8 * s,
    ensures
        mount_table(es, s) == table_of(es),
    decreases s,
{
    lemma_mount_prefix(es, s);
    assert(es.take(es.len() as int) =~= es);
}

proof fn lemma_mount_prefix(es: Seq<Listing>, s: nat)
    requires
        well_named(es),
    ensures
        mount_table(es, s) == table_of(es.take(if 8 * s <= es.len() {
            (8 * s) as int
        } else {
            es.len() as int
        })),
    decreases s,
{
    if s == 0 {
        assert(es.take(0) =~= Seq::<Listing>::empty());
    } else {
        let k = s - 1;
        lemma_mount_prefix(es, k as nat);
        lemma_sector_count(es, k);
        if 8 * k <= es.len() {
            let c = if es.len() - 8 * k >= 8 {
                8
            } else {
                es.len() - 8 * k
            };
            lemma_cached(es, k, c);
        } else {
        }
    }
}

} // verus!
