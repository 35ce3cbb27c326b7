//! The zone map: one bit per disk sector, set when the sector is in use.
use vstd::prelude::*;
use vstd::std_specs::bits::u32_leading_ones;
use super::error::Error;

verus! {

broadcast use vstd::std_specs::bits::axiom_u32_leading_ones;

/// Words at the front of a new map that are marked fully used (header and directory table).
pub const RESERVED_WORDS: usize = 11;

/// Bit `bit` of `word` is set.
pub open spec fn bit_of(word: u32, bit: u32) -> bool {
    (word >> bit) & 1u32 == 1u32
}

/// Zone `zone` is marked used in the bitmap `s`.
pub open spec fn is_used(s: Seq<u32>, zone: u32) -> bool {
    &&& zone / 32 < s.len()
    &&& bit_of(s[(zone / 32) as int], zone & 31u32)
}

/// The bitmap after marking zone `zone` used (`status`) or free.
pub open spec fn with_zone(s: Seq<u32>, zone: u32, status: bool) -> Seq<u32> {
    let w = zone / 32;
    let mask = 1u32 << (zone & 31u32);
    s.update(w as int, if status { s[w as int] | mask } else { s[w as int] & !mask })
}

/// Every word of the bitmap is full.
pub open spec fn is_full(s: Seq<u32>) -> bool {
    forall|i: int| 0 <= i < s.len() ==> #[trigger] s[i] == u32::MAX
}

/// `i` is the first word with a clear bit.
pub open spec fn is_first_partial(s: Seq<u32>, i: int) -> bool {
    &&& 0 <= i < s.len()
    &&& s[i] != u32::MAX
    &&& forall|j: int| 0 <= j < i ==> #[trigger] s[j] == u32::MAX
}

/// The first word with a clear bit (meaningful when the map is not full).
pub open spec fn first_partial(s: Seq<u32>) -> int {
    choose|i: int| is_first_partial(s, i)
}

/// The zone number that allocation picks for word `i` holding `word`: the word's base zone
/// plus `2^(leading ones of word) - 1`.
pub open spec fn zone_for(i: int, word: u32) -> int {
    i * 32 + (1u32 << u32_leading_ones(word)) - 1
}

/// The zone that `allocate` hands out from a map that is not full.
pub open spec fn next_zone(s: Seq<u32>) -> int {
    let i = first_partial(s);
    zone_for(i, s[i])
}

/// The zone `allocate` picks is computed without overflowing a `u32` (it is below
/// `u32::MAX`) and lies inside the map.
pub open spec fn can_allocate(s: Seq<u32>) -> bool {
    !is_full(s) ==> next_zone(s) < u32::MAX && next_zone(s) / 32 < s.len()
}

pub proof fn lemma_first_partial(s: Seq<u32>, i: int)
    requires
        is_first_partial(s, i),
    ensures
        first_partial(s) == i,
{
    let k = first_partial(s);
    assert(is_first_partial(s, k));
    if k < i {
        assert(s[k] == u32::MAX);
    } else if i < k {
        assert(s[i] == u32::MAX);
    }
}

pub proof fn lemma_first_partial_exists(s: Seq<u32>, k: int)
    requires
        0 <= k < s.len(),
        s[k] != u32::MAX,
    ensures
        is_first_partial(s, first_partial(s)),
    decreases k,
{
    if forall|j: int| 0 <= j < k ==> #[trigger] s[j] == u32::MAX {
        assert(is_first_partial(s, k));
    } else {
        let j = choose|j: int| 0 <= j < k && #[trigger] s[j] != u32::MAX;
        lemma_first_partial_exists(s, j);
    }
}

/// Allocation looks at the first word that is not full and picks, counting from that word's
/// first zone, `2^(its leading one bits) - 1` zones on; on a clear word that is the word's
/// first zone.
pub proof fn lemma_allocation_pick(s: Seq<u32>, i: int)
    requires
        0 <= i < s.len(),
        s[i] != u32::MAX,
        forall|j: int| 0 <= j < i ==> #[trigger] s[j] == u32::MAX,
    ensures
        !is_full(s),
        next_zone(s) == i * 32 + (1u32 << u32_leading_ones(s[i])) - 1,
        s[i] == 0 ==> next_zone(s) == i * 32,
{
    assert(is_first_partial(s, i));
    lemma_first_partial(s, i);
    if s[i] == 0 {
        let k = u32_leading_ones(0);
        assert(!0u32 == 0xffff_ffffu32) by (bit_vector);
        let shift = (32 - k) as u32;
        assert((!0u32) >> shift == 0);
        assert(k == 0) by (bit_vector)
            requires
                k <= 32,
                shift == 32 - k,
                0xffff_ffffu32 >> shift == 0,
        ;
        assert(1u32 << 0u32 == 1) by (bit_vector);
    }
}

/// In a map that is not full, allocation picks a zone at or after its word's base zone.
pub proof fn lemma_next_zone_bounds(s: Seq<u32>)
    requires
        !is_full(s),
    ensures
        is_first_partial(s, first_partial(s)),
        first_partial(s) * 32 <= next_zone(s) < first_partial(s) * 32 + 0x8000_0000,
{
    let k = choose|k: int| 0 <= k < s.len() && #[trigger] s[k] != u32::MAX;
    lemma_first_partial_exists(s, k);
    let i = first_partial(s);
    let ones = u32_leading_ones(s[i]);
    assert(ones < 32);
    assert(1u32 <= 1u32 << ones <= 0x8000_0000u32) by (bit_vector)
        requires
            ones < 32,
    ;
}

proof fn lemma_bits(w: u32, k: u32, j: u32)
    requires
        k < 32,
        j < 32,
    ensures
        bit_of(w | (1u32 << k), j) == (j == k || bit_of(w, j)),
        bit_of(w & !(1u32 << k), j) == (j != k && bit_of(w, j)),
{
    assert(((w | (1u32 << k)) >> j) & 1u32 == 1u32 <==> (j == k || (w >> j) & 1u32 == 1u32))
        by (bit_vector)
        requires
            k < 32,
            j < 32,
    ;
    assert(((w & !(1u32 << k)) >> j) & 1u32 == 1u32 <==> (j != k && (w >> j) & 1u32 == 1u32))
        by (bit_vector)
        requires
            k < 32,
            j < 32,
    ;
}

/// Marking a zone and reading the map back: the zone reads as what was written and every other
/// zone reads as before.
pub proof fn lemma_read_after_set(s: Seq<u32>, zone: u32, status: bool, other: u32)
    requires
        zone / 32 < s.len(),
    ensures
        is_used(with_zone(s, zone, status), zone) == status,
        other != zone ==> is_used(with_zone(s, zone, status), other) == is_used(s, other),
{
    let k = zone & 31u32;
    assert(k < 32) by (bit_vector)
        requires
            k == zone & 31u32,
    ;
    lemma_bits(s[(zone / 32) as int], k, k);
    let j = other & 31u32;
    assert(j < 32) by (bit_vector)
        requires
            j == other & 31u32,
    ;
    if other / 32 == zone / 32 && other != zone {
        assert(j != k) by (bit_vector)
            requires
                j == other & 31u32,
                k == zone & 31u32,
                other / 32 == zone / 32,
                other != zone,
        ;
        lemma_bits(s[(zone / 32) as int], k, j);
    }
}

/// The zone map.
pub struct ZMap {
    bitmap: Vec<u32>,
}

impl View for ZMap {
    type V = Seq<u32>;

    closed spec fn view(&self) -> Seq<u32> {
        self.bitmap@
    }
}

impl ZMap {
    /// A map for a disk of `len` sectors: eleven full words for the header and the directory
    /// table, followed by `len - 5` clear words.
    pub fn new(len: usize) -> (z: ZMap)
        requires
            len >= 5,
            len - 5 + RESERVED_WORDS <= usize::MAX,
        ensures
            z@ == Seq::new(RESERVED_WORDS as nat, |i: int| u32::MAX) + Seq::new(
                (len - 5) as nat,
                |i: int| 0u32,
            ),
    {
        let mut bitmap: Vec<u32> = Vec::new();
        let mut i: usize = 0;
        while i < RESERVED_WORDS
            invariant
                i <= RESERVED_WORDS,
                bitmap@ =~= Seq::new(i as nat, |k: int| u32::MAX),
            decreases RESERVED_WORDS - i,
        {
            bitmap.push(0xffffffff);
            i = i + 1;
        }
        let mut j: usize = 0;
        while j < len - 5
            invariant
                j <= len - 5,
                len >= 5,
                bitmap@ =~= Seq::new(RESERVED_WORDS as nat, |k: int| u32::MAX) + Seq::new(
                    j as nat,
                    |k: int| 0u32,
                ),
            decreases len - 5 - j,
        {
            bitmap.push(0);
            j = j + 1;
        }
        ZMap { bitmap }
    }

    /// Number of words in the map.
    pub fn len(&self) -> (n: usize)
        ensures
            n == self@.len(),
    {
        self.bitmap.len()
    }

    /// Marks `zone` used (`status`) or free.
    pub fn set(&mut self, zone: u32, status: bool)
        requires
            zone / 32 < old(self)@.len(),
        ensures
            final(self)@ == with_zone(old(self)@, zone, status),
            is_used(final(self)@, zone) == status,
            forall|other: u32|
                other != zone ==> #[trigger] is_used(final(self)@, other) == is_used(old(self)@, other),
    {
        let w = (zone / 32) as usize;
        let bit = zone & 0b11111;
        assert(bit < 32) by (bit_vector)
            requires
                bit == zone & 31u32,
        ;
        let mask: u32 = 1u32 << bit;
        if status {
            let v = self.bitmap[w] | mask;
            self.bitmap.set(w, v);
        } else {
            let v = self.bitmap[w] & !mask;
            self.bitmap.set(w, v);
        }
        proof {
            assert(self@ =~= with_zone(old(self)@, zone, status));
            lemma_read_after_set(old(self)@, zone, status, zone);
            assert forall|other: u32| other != zone implies #[trigger] is_used(self@, other) == is_used(
                old(self)@,
                other,
            ) by {
                lemma_read_after_set(old(self)@, zone, status, other);
            }
        }
    }

    /// A copy of the map.
    pub fn duplicate(&self) -> (z: ZMap)
        ensures
            z@ == self@,
    {
        let mut bitmap: Vec<u32> = Vec::new();
        let mut i: usize = 0;
        while i < self.bitmap.len()
            invariant
                i <= self.bitmap@.len(),
                bitmap@ == self.bitmap@.take(i as int),
            decreases self.bitmap@.len() - i,
        {
            bitmap.push(self.bitmap[i]);
            i = i + 1;
            proof {
                assert(bitmap@ =~= self.bitmap@.take(i as int));
            }
        }
        proof {
            assert(self.bitmap@.take(i as int) =~= self.bitmap@);
        }
        ZMap { bitmap }
    }

    /// Every zone is in use.
    pub fn full(&self) -> (r: bool)
        ensures
            r == is_full(self@),
    {
        let mut i: usize = 0;
        while i < self.bitmap.len()
            invariant
                i <= self.bitmap@.len(),
                forall|j: int| 0 <= j < i ==> #[trigger] self.bitmap@[j] == u32::MAX,
            decreases self.bitmap@.len() - i,
        {
            if self.bitmap[i] != u32::MAX {
                return false;
            }
            i = i + 1;
        }
        true
    }

    /// `allocate` can run on this map: the zone it would pick is below `u32::MAX` and inside
    /// the map.
    pub fn allocatable(&self) -> (r: bool)
        ensures
            r == can_allocate(self@),
    {
        let ghost s = self@;
        let mut index: usize = 0;
        while index < self.bitmap.len()
            invariant
                index <= self.bitmap@.len(),
                self.bitmap@ == s,
                forall|j: int| 0 <= j < index ==> #[trigger] s[j] == u32::MAX,
            decreases self.bitmap@.len() - index,
        {
            let word = self.bitmap[index];
            if word != u32::MAX {
                let ones = word.leading_ones();
                proof {
                    lemma_first_partial(s, index as int);
                    assert(ones < 32);
                    assert(1u32 <= 1u32 << ones <= 0x8000_0000u32) by (bit_vector)
                        requires
                            ones < 32,
                    ;
                    assert(!is_full(s)) by {
                        assert(s[index as int] != u32::MAX);
                    }
                }
                let zone: u128 = (index as u128) * 32 + ((1u32 << ones) as u128) - 1;
                assert(zone == next_zone(s));
                return zone < u32::MAX as u128 && zone / 32 < self.bitmap.len() as u128;
            }
            index = index + 1;
        }
        true
    }

    /// Hands out a zone from the first word that is not full and marks it used; fails with
    /// `LimitedSpace` when every word is full.
    pub fn allocate(&mut self) -> (r: Result<u32, Error>)
        requires
            can_allocate(old(self)@),
        ensures
            match r {
                Ok(zone) => {
                    &&& !is_full(old(self)@)
                    &&& zone == next_zone(old(self)@)
                    &&& final(self)@ == with_zone(old(self)@, zone, true)
                    &&& is_used(final(self)@, zone)
                },
                Err(e) => {
                    &&& e == Error::LimitedSpace
                    &&& is_full(old(self)@)
                    &&& final(self)@ == old(self)@
                },
            },
    {
        let ghost s = self@;
        let mut index: usize = 0;
        while index < self.bitmap.len()
            invariant
                index <= self.bitmap@.len(),
                self.bitmap@ == s,
                s == old(self)@,
                can_allocate(s),
                forall|j: int| 0 <= j < index ==> #[trigger] s[j] == u32::MAX,
            decreases self.bitmap@.len() - index,
        {
            let word = self.bitmap[index];
            if word != u32::MAX {
                let ones = word.leading_ones();
                proof {
                    lemma_first_partial(s, index as int);
                    assert(ones < 32);
                    assert(1u32 <= 1u32 << ones <= 0x8000_0000u32) by (bit_vector)
                        requires
                            ones < 32,
                    ;
                }
                proof {
                    assert(index * 32 + (1u32 << ones) - 1 == next_zone(s));
                    assert((index as u32) as int == index);
                }
                let zone = (index as u32) * 32 + (1u32 << ones) - 1;
                assert(!is_full(s)) by {
                    assert(s[index as int] != u32::MAX);
                }
                assert(zone == next_zone(s));
                self.set(zone, true);
                return Ok(zone);
            }
            index = index + 1;
        }
        Err(Error::LimitedSpace)
    }
}

} // verus!
