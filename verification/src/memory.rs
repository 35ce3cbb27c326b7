//! The kernel's free-list memory allocator.
//!
//! Free memory is kept in a fixed table of `CHUNK_LIMIT` chunks. A chunk is a
//! half-open address range `[base, base + length)`; the all-zero chunk marks an
//! unused slot of the table.
use vstd::prelude::*;

verus! {

/// Number of slots in the chunk table.
pub const CHUNK_LIMIT: usize = 999;

/// Size in bytes of one chunk record in the table (two `u64` fields).
pub const CHUNK_SIZE: u64 = 16;

/// A range of free memory.
#[derive(Debug, Clone, Copy, PartialEq, Eq)]
pub struct Chunk {
    pub base: u64,
    pub length: u64,
}

impl Chunk {
    /// The slot is unused.
    pub open spec fn spec_is_empty(&self) -> bool {
        self.base == 0 && self.length == 0
    }

    /// One past the last address of the chunk.
    pub open spec fn end(self) -> int {
        self.base + self.length
    }

    /// The chunk's end address fits in a `u64`.
    pub open spec fn fits(self) -> bool {
        self.base + self.length <= u64::MAX
    }

    /// `addr` lies inside the chunk.
    pub open spec fn covers(self, addr: int) -> bool {
        self.base <= addr < self.base + self.length
    }

    pub fn new(base: u64, length: u64) -> (c: Chunk)
        ensures
            c.base == base,
            c.length == length,
    {
        Chunk { base, length }
    }

    #[verifier::when_used_as_spec(spec_is_empty)]
    pub fn is_empty(&self) -> (r: bool)
        ensures
            r == self.spec_is_empty(),
    {
        self.base == 0 && self.length == 0
    }
}

/// Some chunk of the table covers `addr`.
pub open spec fn covered(s: Seq<Chunk>, addr: int) -> bool {
    exists|i: int| 0 <= i < s.len() && #[trigger] s[i].covers(addr)
}

/// Two tables describe the same set of free addresses.
pub open spec fn same_cover(s: Seq<Chunk>, t: Seq<Chunk>) -> bool {
    forall|addr: int| #[trigger] covered(s, addr) == #[trigger] covered(t, addr)
}

/// No address is covered by two different slots.
pub open spec fn disjoint(s: Seq<Chunk>) -> bool {
    forall|i: int, j: int, addr: int|
        0 <= i < s.len() && 0 <= j < s.len() && i != j && #[trigger] s[i].covers(addr)
            ==> !#[trigger] s[j].covers(addr)
}

/// Sum of the lengths of all chunks: the amount of free memory.
pub open spec fn total_free(s: Seq<Chunk>) -> int
    decreases s.len(),
{
    if s.len() == 0 {
        0
    } else {
        total_free(s.drop_last()) + s.last().length
    }
}

/// Number of used slots.
pub open spec fn live_count(s: Seq<Chunk>) -> nat
    decreases s.len(),
{
    if s.len() == 0 {
        0
    } else {
        live_count(s.drop_last()) + if s.last().spec_is_empty() {
            0nat
        } else {
            1nat
        }
    }
}

/// Two used slots `i` and `j` where chunk `j` starts where chunk `i` ends.
pub open spec fn adjacent_at(s: Seq<Chunk>, i: int, j: int) -> bool {
    &&& 0 <= i < s.len()
    &&& 0 <= j < s.len()
    &&& !s[i].spec_is_empty()
    &&& !s[j].spec_is_empty()
    &&& s[i].end() == s[j].base
}

/// The table holds a pair of used chunks that `merge` would join.
pub open spec fn has_adjacent(s: Seq<Chunk>) -> bool {
    exists|i: int, j: int| adjacent_at(s, i, j)
}

/// One comparison of `merge`: chunk `b`, when used and starting where chunk `a` ends, is
/// joined onto chunk `a` and its slot cleared.
pub open spec fn merge_step(s: Seq<Chunk>, a: int, b: int) -> Seq<Chunk> {
    if !s[b].spec_is_empty() && s[a].base + s[a].length == s[b].base {
        s.update(a, Chunk { base: s[a].base, length: (s[a].length + s[b].length) as u64 }).update(
            b,
            Chunk { base: 0, length: 0 },
        )
    } else {
        s
    }
}

/// The table after comparing chunk `a` with the chunks of slots `0..n` in turn.
pub open spec fn merge_row(s: Seq<Chunk>, a: int, n: nat) -> Seq<Chunk>
    decreases n,
{
    if n == 0 {
        s
    } else {
        merge_step(merge_row(s, a, (n - 1) as nat), a, n - 1)
    }
}

/// The table after the rows of the used chunks of slots `0..n`, each row starting from the
/// table the previous rows left.
pub open spec fn merge_rows(s: Seq<Chunk>, n: nat) -> Seq<Chunk>
    decreases n,
{
    if n == 0 {
        s
    } else {
        let t = merge_rows(s, (n - 1) as nat);
        if t[n - 1].spec_is_empty() {
            t
        } else {
            merge_row(t, n - 1, t.len())
        }
    }
}

/// The table after one pass of `merge`.
pub open spec fn merge_table(s: Seq<Chunk>) -> Seq<Chunk> {
    merge_rows(s, s.len())
}

/// The table after `n` passes of `merge`.
pub open spec fn merge_iter(s: Seq<Chunk>, n: nat) -> Seq<Chunk>
    decreases n,
{
    if n == 0 {
        s
    } else {
        merge_table(merge_iter(s, (n - 1) as nat))
    }
}

/// `t` is the table that repeating `merge` on `s` settles at: a number of passes after which
/// no two used chunks are adjacent. Once reached, further passes leave it as it is, so it is
/// the only such table (`lemma_settled_unique`).
pub open spec fn settled(s: Seq<Chunk>, t: Seq<Chunk>) -> bool {
    exists|n: nat| #[trigger] merge_iter(s, n) == t && !has_adjacent(t)
}

proof fn lemma_merge_row_still(t: Seq<Chunk>, a: int, n: nat)
    requires
        !has_adjacent(t),
        0 <= a < t.len(),
        !t[a].spec_is_empty(),
        n <= t.len(),
    ensures
        merge_row(t, a, n) == t,
    decreases n,
{
    if n > 0 {
        lemma_merge_row_still(t, a, (n - 1) as nat);
        let b = n - 1;
        if !t[b].spec_is_empty() && t[a].base + t[a].length == t[b].base {
            assert(adjacent_at(t, a, b));
        }
    }
}

proof fn lemma_merge_rows_still(t: Seq<Chunk>, n: nat)
    requires
        !has_adjacent(t),
        n <= t.len(),
    ensures
        merge_rows(t, n) == t,
    decreases n,
{
    if n > 0 {
        lemma_merge_rows_still(t, (n - 1) as nat);
        if !t[n - 1].spec_is_empty() {
            lemma_merge_row_still(t, n - 1, t.len());
        }
    }
}

/// A pass of `merge` over a table without adjacent used chunks leaves it as it is.
pub proof fn lemma_merge_still(t: Seq<Chunk>)
    requires
        !has_adjacent(t),
    ensures
        merge_table(t) == t,
{
    lemma_merge_rows_still(t, t.len());
}

proof fn lemma_settled_stays(s: Seq<Chunk>, n: nat, m: nat)
    requires
        n <= m,
        !has_adjacent(merge_iter(s, n)),
    ensures
        merge_iter(s, m) == merge_iter(s, n),
    decreases m - n,
{
    if m > n {
        lemma_settled_stays(s, n, (m - 1) as nat);
        lemma_merge_still(merge_iter(s, n));
    }
}

/// Repeating `merge` settles at one table only.
pub proof fn lemma_settled_unique(s: Seq<Chunk>, t1: Seq<Chunk>, t2: Seq<Chunk>)
    requires
        settled(s, t1),
        settled(s, t2),
    ensures
        t1 == t2,
{
    let n1 = choose|n: nat| #[trigger] merge_iter(s, n) == t1 && !has_adjacent(t1);
    let n2 = choose|n: nat| #[trigger] merge_iter(s, n) == t2 && !has_adjacent(t2);
    if n1 <= n2 {
        lemma_settled_stays(s, n1, n2);
    } else {
        lemma_settled_stays(s, n2, n1);
    }
}

/// Some slot of the table is unused.
pub open spec fn has_empty(s: Seq<Chunk>) -> bool {
    exists|i: int| 0 <= i < s.len() && #[trigger] s[i].spec_is_empty()
}

/// `i` is the first unused slot.
pub open spec fn is_first_empty(s: Seq<Chunk>, i: int) -> bool {
    &&& 0 <= i < s.len()
    &&& s[i].spec_is_empty()
    &&& forall|j: int| 0 <= j < i ==> !#[trigger] s[j].spec_is_empty()
}

/// The first unused slot (meaningful when `has_empty`).
pub open spec fn first_empty(s: Seq<Chunk>) -> int {
    choose|i: int| is_first_empty(s, i)
}

/// A chunk is large enough to serve a request of `size` bytes at alignment `align`.
pub open spec fn serves(c: Chunk, size: u64, align: u64) -> bool {
    c.length > size + align
}

/// Some chunk serves the request.
pub open spec fn has_fit(s: Seq<Chunk>, size: u64, align: u64) -> bool {
    exists|i: int| 0 <= i < s.len() && serves(#[trigger] s[i], size, align)
}

/// `i` is the first chunk that serves the request.
pub open spec fn is_first_fit(s: Seq<Chunk>, i: int, size: u64, align: u64) -> bool {
    &&& 0 <= i < s.len()
    &&& serves(s[i], size, align)
    &&& forall|j: int| 0 <= j < i ==> !serves(#[trigger] s[j], size, align)
}

/// The first chunk that serves the request (meaningful when `has_fit`).
pub open spec fn first_fit(s: Seq<Chunk>, size: u64, align: u64) -> int {
    choose|i: int| is_first_fit(s, i, size, align)
}

/// `length` rounded down by the alignment mask of `align`.
pub open spec fn masked(length: u64, align: u64) -> u64 {
    length & !((align - 1) as u64)
}

/// What stays in a chunk of length `length` once `size` bytes are carved off its top.
pub open spec fn kept_length(length: u64, size: u64, align: u64) -> u64 {
    masked((length - size) as u64, align)
}

/// The part of the chunk above the carved block that goes back to the table.
pub open spec fn rest_length(length: u64, size: u64, align: u64) -> u64 {
    ((length - size) as u64 - kept_length(length, size, align)) as u64
}

/// The table after `alloc` served the request from chunk `first_fit`.
pub open spec fn after_alloc(s: Seq<Chunk>, size: u64, align: u64) -> Seq<Chunk> {
    let i = first_fit(s, size, align);
    let c = s[i];
    let kept = kept_length(c.length, size, align);
    let rest = rest_length(c.length, size, align);
    let t = s.update(i, Chunk { base: c.base, length: kept });
    if rest > 0 {
        t.update(first_empty(s), Chunk { base: (c.base + kept + size) as u64, length: rest })
    } else {
        t
    }
}

/// The address `alloc` hands out.
pub open spec fn alloc_result(s: Seq<Chunk>, size: u64, align: u64) -> u64 {
    let c = s[first_fit(s, size, align)];
    (c.base + kept_length(c.length, size, align)) as u64
}

/// `alloc` can serve the request without running out of chunks or slots.
pub open spec fn can_alloc(s: Seq<Chunk>, size: u64, align: u64) -> bool {
    &&& has_fit(s, size, align)
    &&& rest_length(s[first_fit(s, size, align)].length, size, align) > 0 ==> has_empty(s)
}

pub proof fn lemma_first_empty(s: Seq<Chunk>, i: int)
    requires
        is_first_empty(s, i),
    ensures
        first_empty(s) == i,
{
    let k = first_empty(s);
    assert(is_first_empty(s, k));
    if k < i {
        assert(!s[k].spec_is_empty());
    } else if i < k {
        assert(!s[i].spec_is_empty());
    }
}

pub proof fn lemma_first_fit(s: Seq<Chunk>, i: int, size: u64, align: u64)
    requires
        is_first_fit(s, i, size, align),
    ensures
        first_fit(s, size, align) == i,
{
    let k = first_fit(s, size, align);
    assert(is_first_fit(s, k, size, align));
    if k < i {
        assert(!serves(s[k], size, align));
    } else if i < k {
        assert(!serves(s[i], size, align));
    }
}

/// Replacing one slot changes the free total by the difference of the lengths.
pub proof fn lemma_total_free_update(s: Seq<Chunk>, i: int, c: Chunk)
    requires
        0 <= i < s.len(),
    ensures
        total_free(s.update(i, c)) == total_free(s) - s[i].length + c.length,
    decreases s.len(),
{
    let t = s.update(i, c);
    if i == s.len() - 1 {
        assert(t.drop_last() =~= s.drop_last());
    } else {
        lemma_total_free_update(s.drop_last(), i, c);
        assert(t.drop_last() =~= s.drop_last().update(i, c));
    }
}

/// Replacing one slot changes the used count by at most the change of that slot.
pub proof fn lemma_live_count_update(s: Seq<Chunk>, i: int, c: Chunk)
    requires
        0 <= i < s.len(),
    ensures
        live_count(s.update(i, c)) + (if s[i].spec_is_empty() {
            0int
        } else {
            1int
        }) == live_count(s) + (if c.spec_is_empty() {
            0int
        } else {
            1int
        }),
    decreases s.len(),
{
    let t = s.update(i, c);
    if i == s.len() - 1 {
        assert(t.drop_last() =~= s.drop_last());
    } else {
        lemma_live_count_update(s.drop_last(), i, c);
        assert(t.drop_last() =~= s.drop_last().update(i, c));
    }
}


/// Allocation serves the first chunk longer than `size + align`: it takes `size` bytes off that
/// chunk's length, rounds the rest down to a multiple of the (power-of-two) alignment, leaves
/// the chunk that long and hands out the address right after it. The block lies inside the
/// chunk, and when the chunk starts on an `align` boundary, so does the block.
pub proof fn lemma_allocate_aligned(s: Seq<Chunk>, size: u64, align: u64, i: int)
    requires
        s.len() == CHUNK_LIMIT,
        forall|j: int| 0 <= j < s.len() ==> (#[trigger] s[j]).fits(),
        align >= 1,
        size + align <= u64::MAX,
        can_alloc(s, size, align),
        0 <= i < s.len(),
        s[i].length > size + align,
        forall|j: int| 0 <= j < i ==> (#[trigger] s[j]).length <= size + align,
    ensures
        alloc_result(s, size, align) == s[i].base + ((s[i].length - size) as u64 & !((align - 1) as u64)),
        after_alloc(s, size, align)[i] == (Chunk {
            base: s[i].base,
            length: (s[i].length - size) as u64 & !((align - 1) as u64),
        }),
        s[i].base <= alloc_result(s, size, align),
        alloc_result(s, size, align) + size <= s[i].base + s[i].length,
        align & (align - 1) as u64 == 0 && s[i].base % align == 0 ==> alloc_result(s, size, align)
            % align == 0,
        ({
            let lp = (s[i].length - size) as u64;
            let rest = lp - (lp & !((align - 1) as u64));
            &&& rest == 0 ==> forall|j: int| 0 <= j < s.len() && j != i ==> after_alloc(s, size, align)[j] == s[j]
            &&& rest > 0 ==> forall|e: int|
                0 <= e < s.len() && s[e].spec_is_empty() && (forall|j: int| 0 <= j < e ==> !(#[trigger] s[j]).spec_is_empty())
                    ==> {
                    &&& after_alloc(s, size, align)[e] == (Chunk {
                        base: (alloc_result(s, size, align) + size) as u64,
                        length: rest as u64,
                    })
                    &&& forall|j: int| 0 <= j < s.len() && j != i && j != e ==> after_alloc(s, size, align)[j] == s[j]
                }
        }),
{
    lemma_first_fit(s, i, size, align);
    let c = s[i];
    let lp = (c.length - size) as u64;
    let m = (align - 1) as u64;
    let kept = lp & !m;
    lemma_mask_le(lp, m);
    if rest_length(c.length, size, align) > 0 {
        let k1 = choose|k: int| 0 <= k < s.len() && #[trigger] s[k].spec_is_empty();
        lemma_first_empty_exists(s, k1);
        assert(first_empty(s) != i);
        assert forall|e: int|
            0 <= e < s.len() && s[e].spec_is_empty() && (forall|j: int| 0 <= j < e ==> !(#[trigger] s[j]).spec_is_empty())
                implies first_empty(s) == e by {
            lemma_first_empty(s, e);
        }
    }
    if align & (align - 1) as u64 == 0 && c.base % align == 0 {
        let b = c.base;
        let r = (b + kept) as u64;
        lemma_multiple_has_mask_clear(b, align);
        assert(r & m == 0) by (bit_vector)
            requires
                kept == lp & !m,
                b & m == 0,
                r == b + kept,
                b + kept <= u64::MAX,
                align >= 1,
                m == align - 1,
                align & m == 0,
        ;
        lemma_mod_is_mask(r, align);
    }
}

/// For a power-of-two `a`, a multiple of `a` has its bits below `a` clear.
proof fn lemma_multiple_has_mask_clear(x: u64, a: u64)
    requires
        a >= 1,
        a & (a - 1) as u64 == 0,
        x % a == 0,
    ensures
        x & (a - 1) as u64 == 0,
    decreases a,
{
    if a == 1 {
        assert(x & 0u64 == 0) by (bit_vector);
    } else {
        let h = a / 2;
        assert(a % 2 == 0 && h & (h - 1) as u64 == 0 && h >= 1) by (bit_vector)
            requires
                a > 1,
                a & (a - 1) as u64 == 0,
                h == a / 2,
        ;
        let q = x / a;
        vstd::arithmetic::div_mod::lemma_fundamental_div_mod(x as int, a as int);
        let y = x / 2;
        assert(y == h * q && x % 2 == 0) by (nonlinear_arith)
            requires
                x == a * q + 0,
                a == 2 * h,
                y == x / 2,
        ;
        assert(y == q * h) by (nonlinear_arith)
            requires
                y == h * q,
        ;
        vstd::arithmetic::div_mod::lemma_mod_multiples_basic(q as int, h as int);
        lemma_multiple_has_mask_clear(y, h);
        assert(x & (a - 1) as u64 == 0) by (bit_vector)
            requires
                a > 1,
                a & (a - 1) as u64 == 0,
                h == a / 2,
                y == x / 2,
                x % 2 == 0,
                y & (h - 1) as u64 == 0,
        ;
    }
}

/// For a power-of-two `a`, an `x` whose bits below `a` are clear is a multiple of `a`.
proof fn lemma_mod_is_mask(x: u64, a: u64)
    requires
        a >= 1,
        a & (a - 1) as u64 == 0,
        x & (a - 1) as u64 == 0,
    ensures
        x % a == 0,
    decreases a,
{
    if a > 1 {
        let h = a / 2;
        let y = x / 2;
        assert(a % 2 == 0 && h & (h - 1) as u64 == 0 && h >= 1 && x % 2 == 0 && y & (h - 1) as u64 == 0)
            by (bit_vector)
            requires
                a > 1,
                a & (a - 1) as u64 == 0,
                x & (a - 1) as u64 == 0,
                h == a / 2,
                y == x / 2,
        ;
        lemma_mod_is_mask(y, h);
        let q = y / h;
        vstd::arithmetic::div_mod::lemma_fundamental_div_mod(y as int, h as int);
        assert(x == q * a) by (nonlinear_arith)
            requires
                y == h * q + 0,
                x == 2 * y,
                a == 2 * h,
        ;
        vstd::arithmetic::div_mod::lemma_mod_multiples_basic(q as int, a as int);
    }
}

/// Allocation carves the handed-out block out of free memory: the free total drops by exactly
/// `size`, every address stays free except those of the block, and, when the free chunks did
/// not overlap, they still do not and none of them touches the block.
pub proof fn lemma_allocate_carves(s: Seq<Chunk>, size: u64, align: u64)
    requires
        s.len() == CHUNK_LIMIT,
        forall|i: int| 0 <= i < s.len() ==> (#[trigger] s[i]).fits(),
        align >= 1,
        size + align <= u64::MAX,
        can_alloc(s, size, align),
    ensures
        ({
            let t = after_alloc(s, size, align);
            let r = alloc_result(s, size, align);
            &&& total_free(t) == total_free(s) - size
            &&& forall|x: int| #[trigger] covered(s, x) == (covered(t, x) || r <= x < r + size)
            &&& disjoint(s) ==> disjoint(t)
            &&& disjoint(s) ==> forall|x: int| r <= x < r + size ==> !#[trigger] covered(t, x)
        }),
{
    let i = first_fit(s, size, align);
    let k0 = choose|k: int| 0 <= k < s.len() && serves(#[trigger] s[k], size, align);
    lemma_first_fit_exists(s, size, align, k0);
    let c = s[i];
    let lp = (c.length - size) as u64;
    lemma_mask_le(lp, (align - 1) as u64);
    let kept = kept_length(c.length, size, align);
    let rest = rest_length(c.length, size, align);
    let low = Chunk { base: c.base, length: kept };
    let high = Chunk { base: (c.base + kept + size) as u64, length: rest };
    let t1 = s.update(i, low);
    let t = after_alloc(s, size, align);
    let r = alloc_result(s, size, align);
    lemma_total_free_update(s, i, low);
    let e = first_empty(s);
    if rest > 0 {
        let k1 = choose|k: int| 0 <= k < s.len() && #[trigger] s[k].spec_is_empty();
        lemma_first_empty_exists(s, k1);
        assert(e != i);
        lemma_total_free_update(t1, e, high);
    }
    assert forall|x: int| #[trigger] covered(s, x) == (covered(t, x) || r <= x < r + size) by {
        if covered(s, x) {
            let k = choose|k: int| 0 <= k < s.len() && #[trigger] s[k].covers(x);
            if k == i {
                if x < c.base + kept {
                    assert(t[i].covers(x));
                } else if x >= c.base + kept + size {
                    assert(t[e].covers(x));
                }
            } else {
                assert(!(rest > 0 && k == e));
                assert(t[k].covers(x));
            }
        }
        if covered(t, x) {
            let k = choose|k: int| 0 <= k < t.len() && #[trigger] t[k].covers(x);
            if k == i || (rest > 0 && k == e) {
                assert(s[i].covers(x));
            } else {
                assert(s[k].covers(x));
            }
        }
        if r <= x < r + size {
            assert(s[i].covers(x));
        }
    }
    if disjoint(s) {
        assert forall|x: int| r <= x < r + size implies !#[trigger] covered(t, x) by {
            if covered(t, x) {
                let k = choose|k: int| 0 <= k < t.len() && #[trigger] t[k].covers(x);
                if k == i || (rest > 0 && k == e) {
                } else {
                    assert(s[k].covers(x));
                    assert(s[i].covers(x));
                }
            }
        }
        assert forall|a: int, b: int, x: int|
            0 <= a < t.len() && 0 <= b < t.len() && a != b && #[trigger] t[a].covers(x)
                implies !#[trigger] t[b].covers(x) by {
            let ia = a == i || (rest > 0 && a == e);
            let ib = b == i || (rest > 0 && b == e);
            if t[b].covers(x) {
                if ia && ib {
                } else if ia {
                    assert(s[i].covers(x));
                    assert(s[b].covers(x));
                } else if ib {
                    assert(s[i].covers(x));
                    assert(s[a].covers(x));
                } else {
                    assert(s[a].covers(x));
                    assert(s[b].covers(x));
                }
            }
        }
    }
}

/// Freeing a block that was just allocated gives back exactly the free memory there was
/// before: the same free addresses and the same free total, for any table that `deallocate`
/// may leave.
pub proof fn lemma_allocate_then_free(s: Seq<Chunk>, size: u64, align: u64, u: Seq<Chunk>)
    requires
        s.len() == CHUNK_LIMIT,
        forall|i: int| 0 <= i < s.len() ==> (#[trigger] s[i]).fits(),
        align >= 1,
        size + align <= u64::MAX,
        can_alloc(s, size, align),
        forall|x: int| #[trigger] covered(u, x) == (covered(after_alloc(s, size, align), x) || alloc_result(
            s,
            size,
            align,
        ) <= x < alloc_result(s, size, align) + size),
        total_free(u) == total_free(after_alloc(s, size, align)) + size,
    ensures
        same_cover(s, u),
        total_free(u) == total_free(s),
{
    lemma_allocate_carves(s, size, align);
    let t = after_alloc(s, size, align);
    assert forall|x: int| #[trigger] covered(s, x) == #[trigger] covered(u, x) by {
        assert(covered(u, x) == (covered(t, x) || alloc_result(s, size, align) <= x < alloc_result(s, size, align) + size));
        assert(covered(s, x) == (covered(t, x) || alloc_result(s, size, align) <= x < alloc_result(s, size, align) + size));
    }
}

/// When some chunk serves a request there is a first one.
pub proof fn lemma_first_fit_exists(s: Seq<Chunk>, size: u64, align: u64, k: int)
    requires
        0 <= k < s.len(),
        serves(s[k], size, align),
    ensures
        is_first_fit(s, first_fit(s, size, align), size, align),
    decreases k,
{
    if forall|j: int| 0 <= j < k ==> !serves(#[trigger] s[j], size, align) {
        assert(is_first_fit(s, k, size, align));
    } else {
        let j = choose|j: int| 0 <= j < k && !!serves(#[trigger] s[j], size, align);
        lemma_first_fit_exists(s, size, align, j);
    }
}

/// When some slot is unused there is a first one.
pub proof fn lemma_first_empty_exists(s: Seq<Chunk>, k: int)
    requires
        0 <= k < s.len(),
        s[k].spec_is_empty(),
    ensures
        is_first_empty(s, first_empty(s)),
    decreases k,
{
    if forall|j: int| 0 <= j < k ==> !(#[trigger] s[j]).spec_is_empty() {
        assert(is_first_empty(s, k));
    } else {
        let j = choose|j: int| 0 <= j < k && (#[trigger] s[j]).spec_is_empty();
        lemma_first_empty_exists(s, j);
    }
}

proof fn lemma_mask_le(x: u64, m: u64)
    ensures
        x & !m <= x,
{
    assert(x & !m <= x) by (bit_vector);
}

/// The free-list allocator: a table of `CHUNK_LIMIT` chunk slots.
pub struct MemoryAllocator {
    chunks: Vec<Chunk>,
}

impl View for MemoryAllocator {
    type V = Seq<Chunk>;

    closed spec fn view(&self) -> Seq<Chunk> {
        self.chunks@
    }
}

impl MemoryAllocator {
    /// The table has its fixed size and no chunk runs past the end of the address space.
    pub open spec fn wf(&self) -> bool {
        &&& self@.len() == CHUNK_LIMIT
        &&& forall|i: int| 0 <= i < self@.len() ==> (#[trigger] self@[i]).fits()
    }

    /// A table with every slot unused.
    pub fn new() -> (a: MemoryAllocator)
        ensures
            a.wf(),
            forall|i: int| 0 <= i < CHUNK_LIMIT ==> (#[trigger] a@[i]).spec_is_empty(),
            total_free(a@) == 0,
    {
        let mut chunks: Vec<Chunk> = Vec::new();
        let mut i: usize = 0;
        while i < CHUNK_LIMIT
            invariant
                i <= CHUNK_LIMIT,
                chunks@.len() == i,
                forall|j: int| 0 <= j < i ==> (#[trigger] chunks@[j]).spec_is_empty(),
                total_free(chunks@) == 0,
            decreases CHUNK_LIMIT - i,
        {
            let ghost before = chunks@;
            chunks.push(Chunk::new(0, 0));
            assert(chunks@.drop_last() =~= before);
            i = i + 1;
        }
        MemoryAllocator { chunks }
    }

    /// Places the table at the start of RAM and makes the rest of RAM, from the end of the
    /// table up to `ram_end`, the first free chunk.
    pub fn init(&mut self, ram: u64, ram_end: u64)
        requires
            old(self).wf(),
            ram + CHUNK_LIMIT * CHUNK_SIZE <= ram_end,
        ensures
            final(self).wf(),
            final(self)@ == old(self)@.update(
                0,
                Chunk {
                    base: (ram + CHUNK_LIMIT * CHUNK_SIZE) as u64,
                    length: (ram_end - (ram + CHUNK_LIMIT * CHUNK_SIZE)) as u64,
                },
            ),
    {
        let base = ram + (CHUNK_LIMIT as u64) * CHUNK_SIZE;
        self.chunks.set(0, Chunk::new(base, ram_end - base));
    }

    /// The chunk in slot `i`.
    pub fn chunk(&self, i: usize) -> (c: Chunk)
        requires
            i < self@.len(),
        ensures
            c == self@[i as int],
    {
        self.chunks[i]
    }

    /// Stores `new` in the first unused slot.
    pub fn push(&mut self, new: Chunk)
        requires
            old(self).wf(),
            new.fits(),
            has_empty(old(self)@),
        ensures
            final(self).wf(),
            final(self)@ == old(self)@.update(first_empty(old(self)@), new),
            is_first_empty(old(self)@, first_empty(old(self)@)),
    {
        let mut i: usize = 0;
        while i < self.chunks.len()
            invariant
                i <= self.chunks@.len(),
                self.chunks@ == old(self)@,
                old(self).wf(),
                new.fits(),
                forall|j: int| 0 <= j < i ==> !(#[trigger] self.chunks@[j]).spec_is_empty(),
            decreases self.chunks@.len() - i,
        {
            if self.chunks[i].is_empty() {
                proof {
                    lemma_first_empty(old(self)@, i as int);
                }
                self.chunks.set(i, new);
                assert forall|j: int| 0 <= j < self@.len() implies (#[trigger] self@[j]).fits() by {
                    if j != i {
                        assert(self@[j] == old(self)@[j]);
                    }
                }
                return;
            }
            i = i + 1;
        }
        proof {
            let k = choose|k: int| 0 <= k < old(self)@.len() && #[trigger] old(self)@[k].spec_is_empty();
            assert(!self.chunks@[k].spec_is_empty());
        }
    }

    /// Joins, in one pass over the table, every used chunk with the used chunks that start
    /// where it ends. Returns whether anything was joined.
    pub fn merge(&mut self) -> (merged: bool)
        requires
            old(self).wf(),
        ensures
            final(self).wf(),
            same_cover(old(self)@, final(self)@),
            total_free(final(self)@) == total_free(old(self)@),
            merged == has_adjacent(old(self)@),
            final(self)@ == merge_table(old(self)@),
            !merged ==> final(self)@ == old(self)@,
            merged ==> live_count(final(self)@) < live_count(old(self)@),
            disjoint(old(self)@) ==> disjoint(final(self)@),
    {
        let ghost orig = self@;
        let mut merged = false;
        let mut a: usize = 0;
        while a < CHUNK_LIMIT
            invariant
                self.wf(),
                a <= CHUNK_LIMIT,
                orig.len() == CHUNK_LIMIT,
                self@ == merge_rows(orig, a as nat),
                same_cover(orig, self@),
                total_free(self@) == total_free(orig),
                live_count(self@) <= live_count(orig),
                merged ==> live_count(self@) < live_count(orig),
                merged ==> has_adjacent(orig),
                !merged ==> self@ == orig,
                !merged ==> forall|i: int, j: int| 0 <= i < a && #[trigger] adjacent_at(orig, i, j) ==> false,
                disjoint(orig) ==> disjoint(self@),
            decreases CHUNK_LIMIT - a,
        {
            if !self.chunks[a].is_empty() {
                let ghost s0 = self@;
                let ghost merged0 = merged;
                let mut merged_here = false;
                let mut b: usize = 0;
                while b < CHUNK_LIMIT
                    invariant
                        self.wf(),
                        a < CHUNK_LIMIT,
                        b <= CHUNK_LIMIT,
                        !s0[a as int].spec_is_empty(),
                        s0.len() == CHUNK_LIMIT,
                        s0 == merge_rows(orig, a as nat),
                        self@ == merge_row(s0, a as int, b as nat),
                        same_cover(orig, self@),
                        total_free(self@) == total_free(orig),
                        live_count(self@) <= live_count(s0),
                        live_count(s0) <= live_count(orig),
                        merged0 ==> live_count(s0) < live_count(orig),
                        merged0 ==> has_adjacent(orig),
                        !merged0 ==> s0 == orig,
                        merged == (merged0 || merged_here),
                        merged_here ==> live_count(self@) < live_count(s0),
                        merged_here ==> has_adjacent(orig),
                        !merged_here ==> self@ == s0,
                        !merged_here ==> forall|j: int| 0 <= j < b ==> !#[trigger] adjacent_at(s0, a as int, j),
                        !merged0 ==> forall|i: int, j: int| 0 <= i < a && #[trigger] adjacent_at(orig, i, j) ==> false,
                        disjoint(orig) ==> disjoint(self@),
                    decreases CHUNK_LIMIT - b,
                {
                    if !self.chunks[b].is_empty() {
                        let ca = self.chunks[a];
                        let cb = self.chunks[b];
                        if ca.base + ca.length == cb.base {
                            let ghost before = self@;
                            proof {
                                if !merged_here {
                                    assert(adjacent_at(s0, a as int, b as int));
                                    if !merged0 {
                                        assert(adjacent_at(orig, a as int, b as int));
                                    }
                                }
                            }
                            self.chunks.set(a, Chunk::new(ca.base, ca.length + cb.length));
                            self.chunks.set(b, Chunk::new(0, 0));
                            proof {
                                self.lemma_merge_step(before, a as int, b as int);
                                assert forall|x: int| #[trigger] covered(orig, x) == #[trigger] covered(self@, x) by {
                                    assert(covered(orig, x) == covered(before, x));
                                    assert(covered(before, x) == covered(self@, x));
                                }
                            }
                            merged = true;
                            merged_here = true;
                        }
                    }
                    b = b + 1;
                }
            }
            a = a + 1;
        }
        proof {
            if merged {
            } else {
                assert(!has_adjacent(orig)) by {
                    if has_adjacent(orig) {
                        let (i, j) = choose|i: int, j: int| adjacent_at(orig, i, j);
                        assert(adjacent_at(orig, i, j));
                    }
                }
            }
        }
        merged
    }

    proof fn lemma_merge_step(&self, before: Seq<Chunk>, a: int, b: int)
        requires
            before.len() == CHUNK_LIMIT,
            forall|i: int| 0 <= i < before.len() ==> (#[trigger] before[i]).fits(),
            0 <= a < CHUNK_LIMIT,
            0 <= b < CHUNK_LIMIT,
            !before[b].spec_is_empty(),
            before[a].end() == before[b].base,
            self@ == before.update(
                a,
                Chunk { base: before[a].base, length: (before[a].length + before[b].length) as u64 },
            ).update(b, Chunk { base: 0, length: 0 }),
        ensures
            self.wf(),
            same_cover(before, self@),
            total_free(self@) == total_free(before),
            live_count(self@) <= live_count(before),
            !before[a].spec_is_empty() ==> live_count(self@) < live_count(before),
            disjoint(before) ==> disjoint(self@),
    {
        let joined = Chunk { base: before[a].base, length: (before[a].length + before[b].length) as u64 };
        let mid = before.update(a, joined);
        let empty = Chunk { base: 0, length: 0 };
        lemma_total_free_update(before, a, joined);
        lemma_total_free_update(mid, b, empty);
        lemma_live_count_update(before, a, joined);
        lemma_live_count_update(mid, b, empty);
        assert(self.wf()) by {
            assert forall|i: int| 0 <= i < self@.len() implies (#[trigger] self@[i]).fits() by {
                if i != a && i != b {
                    assert(self@[i] == before[i]);
                }
            }
        }
        if a == b {
            assert(self@ =~= before.update(a, empty));
        }
        assert forall|addr: int| #[trigger] covered(before, addr) == #[trigger] covered(self@, addr) by {
            if covered(before, addr) {
                let k = choose|k: int| 0 <= k < before.len() && #[trigger] before[k].covers(addr);
                if k == a || k == b {
                    if a != b {
                        assert(self@[a].covers(addr));
                    } else {
                        assert(false);
                    }
                } else {
                    assert(self@[k].covers(addr));
                }
            }
            if covered(self@, addr) {
                let k = choose|k: int| 0 <= k < self@.len() && #[trigger] self@[k].covers(addr);
                if k == a {
                    if addr < before[a].end() {
                        assert(before[a].covers(addr));
                    } else {
                        assert(before[b].covers(addr));
                    }
                } else {
                    assert(k != b);
                    assert(before[k].covers(addr));
                }
            }
        }
        if disjoint(before) {
            assert forall|i: int, j: int, addr: int|
                0 <= i < self@.len() && 0 <= j < self@.len() && i != j && #[trigger] self@[i].covers(addr)
                    implies !#[trigger] self@[j].covers(addr) by {
                if i == b || j == b {
                } else if i == a {
                    assert(j != a);
                    if addr < before[a].end() {
                        assert(before[a].covers(addr));
                        assert(!before[j].covers(addr));
                    } else {
                        assert(before[b].covers(addr));
                        assert(!before[j].covers(addr));
                    }
                } else if j == a {
                    assert(before[i].covers(addr));
                    assert(!before[a].covers(addr));
                    assert(!before[b].covers(addr));
                } else {
                    assert(before[i].covers(addr));
                }
            }
        }
    }

    /// Repeats `merge` until no two used chunks are adjacent.
    pub fn defrag(&mut self)
        requires
            old(self).wf(),
        ensures
            final(self).wf(),
            same_cover(old(self)@, final(self)@),
            total_free(final(self)@) == total_free(old(self)@),
            !has_adjacent(final(self)@),
            settled(old(self)@, final(self)@),
            disjoint(old(self)@) ==> disjoint(final(self)@),
    {
        let ghost mut n: nat = 0;
        loop
            invariant
                self.wf(),
                self@ == merge_iter(old(self)@, n),
                same_cover(old(self)@, self@),
                total_free(self@) == total_free(old(self)@),
                disjoint(old(self)@) ==> disjoint(self@),
            ensures
                self.wf(),
                same_cover(old(self)@, self@),
                total_free(self@) == total_free(old(self)@),
                !has_adjacent(self@),
                settled(old(self)@, self@),
                disjoint(old(self)@) ==> disjoint(self@),
            decreases live_count(self@),
        {
            let ghost before = self@;
            let merged = self.merge();
            proof {
                n = n + 1;
                assert(merge_iter(old(self)@, n) == self@);
            }
            assert forall|addr: int| #[trigger] covered(old(self)@, addr) == #[trigger] covered(self@, addr) by {
                assert(covered(old(self)@, addr) == covered(before, addr));
                assert(covered(before, addr) == covered(self@, addr));
            }
            if !merged {
                break;
            }
        }
    }

    /// Returns the part of `chunk` above its aligned length, with `size` bytes left out after
    /// the aligned part, to the table.
    pub fn align(&mut self, chunk: &Chunk, align: u64, size: u64)
        requires
            old(self).wf(),
            align >= 1,
            chunk.base + chunk.length + size <= u64::MAX,
            chunk.length - masked(chunk.length, align) > 0 ==> has_empty(old(self)@),
        ensures
            final(self).wf(),
            masked(chunk.length, align) <= chunk.length,
            chunk.length - masked(chunk.length, align) > 0 ==> final(self)@ == old(self)@.update(
                first_empty(old(self)@),
                Chunk {
                    base: (chunk.base + masked(chunk.length, align) + size) as u64,
                    length: (chunk.length - masked(chunk.length, align)) as u64,
                },
            ),
            chunk.length - masked(chunk.length, align) > 0 ==> is_first_empty(old(self)@, first_empty(old(self)@)),
            chunk.length - masked(chunk.length, align) == 0 ==> final(self)@ == old(self)@,
    {
        let mask = !(align - 1);
        proof {
            lemma_mask_le(chunk.length, (align - 1) as u64);
        }
        let kept = chunk.length & mask;
        if chunk.length - kept > 0 {
            self.push(Chunk::new(chunk.base + kept + size, chunk.length - kept));
        }
    }

    /// Serves a request for `size` bytes at alignment `align` from the first chunk that is
    /// larger than `size + align`: the block is carved off the top of the chunk's aligned
    /// length and the part above it goes back to the table. Returns the block's address.
    pub fn allocate(&mut self, size: u64, align: u64) -> (addr: u64)
        requires
            old(self).wf(),
            align >= 1,
            size + align <= u64::MAX,
            can_alloc(old(self)@, size, align),
        ensures
            final(self).wf(),
            final(self)@ == after_alloc(old(self)@, size, align),
            addr == alloc_result(old(self)@, size, align),
    {
        let ghost s = self@;
        let mut i: usize = 0;
        while i < self.chunks.len() && self.chunks[i].length <= size + align
            invariant
                i <= self.chunks@.len(),
                self.chunks@ == s,
                size + align <= u64::MAX,
                forall|j: int| 0 <= j < i ==> !serves(#[trigger] s[j], size, align),
            decreases self.chunks@.len() - i,
        {
            i = i + 1;
        }
        if i == self.chunks.len() {
            proof {
                let k = choose|k: int| 0 <= k < s.len() && serves(#[trigger] s[k], size, align);
                assert(!serves(s[k], size, align));
            }
        }
        proof {
            lemma_first_fit(s, i as int, size, align);
        }
        let c = self.chunks[i];
        let lowered = Chunk::new(c.base, c.length - size);
        self.chunks.set(i, lowered);
        proof {
            lemma_mask_le((c.length - size) as u64, (align - 1) as u64);
            assert forall|j: int| 0 <= j < self@.len() implies (#[trigger] self@[j]).fits() by {
                if j != i {
                    assert(self@[j] == s[j]);
                }
            }
            assert(has_empty(self@) == has_empty(s)) by {
                if has_empty(s) {
                    let k = choose|k: int| 0 <= k < s.len() && #[trigger] s[k].spec_is_empty();
                    assert(k != i);
                    assert(self@[k].spec_is_empty());
                }
                if has_empty(self@) {
                    let k = choose|k: int| 0 <= k < self@.len() && #[trigger] self@[k].spec_is_empty();
                    assert(k != i);
                    assert(s[k].spec_is_empty());
                }
            }
        }
        let ghost mid = self@;
        self.align(&lowered, align, size);
        proof {
            if rest_length(c.length, size, align) > 0 {
                let e = first_empty(mid);
                assert(is_first_empty(mid, e));
                assert(e != i);
                assert(is_first_empty(s, e)) by {
                    assert forall|j: int| 0 <= j < e implies !(#[trigger] s[j]).spec_is_empty() by {
                        if j != i {
                            assert(s[j] == mid[j]);
                        }
                    }
                }
                lemma_first_empty(s, e);
            }
        }
        let kept = lowered.length & !(align - 1);
        self.chunks.set(i, Chunk::new(c.base, kept));
        proof {
            assert forall|j: int| 0 <= j < self@.len() implies (#[trigger] self@[j]).fits() by {}
            if rest_length(c.length, size, align) > 0 {
                assert(self@ =~= after_alloc(s, size, align));
            } else {
                assert(self@ =~= after_alloc(s, size, align));
            }
        }
        c.base + kept
    }

    /// Gives the block `[addr, addr + size)` back to the table and joins it with its
    /// neighbours.
    pub fn deallocate(&mut self, addr: u64, size: u64)
        requires
            old(self).wf(),
            addr + size <= u64::MAX,
            has_empty(old(self)@),
        ensures
            final(self).wf(),
            forall|x: int| #[trigger] covered(final(self)@, x) == (covered(old(self)@, x) || addr <= x < addr + size),
            total_free(final(self)@) == total_free(old(self)@) + size,
            !has_adjacent(final(self)@),
            settled(
                old(self)@.update(first_empty(old(self)@), Chunk { base: addr, length: size }),
                final(self)@,
            ),
    {
        let ghost s = self@;
        let block = Chunk::new(addr, size);
        self.push(block);
        proof {
            let e = first_empty(s);
            lemma_total_free_update(s, e, block);
            assert forall|x: int| #[trigger] covered(self@, x) == (covered(s, x) || addr <= x < addr + size) by {
                if covered(s, x) {
                    let k = choose|k: int| 0 <= k < s.len() && #[trigger] s[k].covers(x);
                    assert(k != e);
                    assert(self@[k].covers(x));
                }
                if addr <= x < addr + size {
                    assert(self@[e].covers(x));
                }
                if covered(self@, x) {
                    let k = choose|k: int| 0 <= k < self@.len() && #[trigger] self@[k].covers(x);
                    if k != e {
                        assert(s[k].covers(x));
                    }
                }
            }
        }
        let ghost pushed = self@;
        self.defrag();
        proof {
            assert forall|x: int| #[trigger] covered(self@, x) == (covered(s, x) || addr <= x < addr + size) by {
                assert(covered(pushed, x) == covered(self@, x));
                assert(covered(pushed, x) == (covered(s, x) || addr <= x < addr + size));
            }
        }
    }

    /// The used chunks, in table order.
    pub fn dump(&self) -> (live: Vec<Chunk>)
        ensures
            live@ == self@.filter(|c: Chunk| !c.spec_is_empty()),
    {
        let mut live: Vec<Chunk> = Vec::new();
        let mut i: usize = 0;
        while i < self.chunks.len()
            invariant
                i <= self.chunks@.len(),
                live@ == self.chunks@.take(i as int).filter(|c: Chunk| !c.spec_is_empty()),
            decreases self.chunks@.len() - i,
        {
            let c = self.chunks[i];
            proof {
                let t = self.chunks@.take(i as int + 1);
                assert(t.drop_last() =~= self.chunks@.take(i as int));
                reveal(Seq::filter);
            }
            if !c.is_empty() {
                live.push(c);
            }
            i = i + 1;
        }
        assert(self.chunks@.take(i as int) =~= self.chunks@);
        live
    }
}

} // verus!

verus! {

/// An allocator front that raises every request's alignment to at least `N`.
pub struct AlignedAlloc<const N: usize>;

impl<const N: usize> AlignedAlloc<N> {
    pub fn new() -> (a: AlignedAlloc<N>) {
        AlignedAlloc
    }

    /// The (size, alignment) actually requested for a request of `size` bytes at alignment
    /// `align`: the same size at the larger of the two alignments. Both alignments are powers
    /// of two and the size rounded up to the new alignment stays within `isize::MAX`.
    pub fn layout(&self, size: usize, align: usize) -> (l: (usize, usize))
        requires
            N > 0,
            N & (N - 1) as usize == 0,
            align > 0,
            align & (align - 1) as usize == 0,
            size + (if align >= N { align } else { N }) - 1 <= isize::MAX,
        ensures
            l.0 == size,
            l.1 == (if align >= N { align } else { N }),
    {
        let a = if align >= N { align } else { N };
        (size, a)
    }
}

} // verus!
