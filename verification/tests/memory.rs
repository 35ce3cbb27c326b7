use zeus::memory::{AlignedAlloc, Chunk, MemoryAllocator, CHUNK_LIMIT};

fn with_chunks(chunks: &[(u64, u64)]) -> MemoryAllocator {
    let mut a = MemoryAllocator::new();
    for &(base, length) in chunks {
        a.push(Chunk::new(base, length));
    }
    a
}

fn live(a: &MemoryAllocator) -> Vec<(u64, u64)> {
    a.dump().iter().map(|c| (c.base, c.length)).collect()
}

#[test]
fn new_table_is_empty() {
    let a = MemoryAllocator::new();
    assert!(a.dump().is_empty());
    for i in 0..CHUNK_LIMIT {
        assert!(a.chunk(i).is_empty());
    }
}

#[test]
fn chunk_emptiness() {
    assert!(Chunk::new(0, 0).is_empty());
    assert!(!Chunk::new(5, 0).is_empty());
    assert!(!Chunk::new(0, 5).is_empty());
}

#[test]
fn init_places_free_memory_after_the_table() {
    let mut a = MemoryAllocator::new();
    a.init(0x8000_0000, 0x8800_0000);
    let base = 0x8000_0000 + 999 * 16;
    assert_eq!(live(&a), vec![(base, 0x8800_0000 - base)]);
}

#[test]
fn push_fills_the_first_free_slot() {
    let mut a = with_chunks(&[(0x1000, 0x100), (0x3000, 0x100)]);
    assert_eq!(a.chunk(0), Chunk::new(0x1000, 0x100));
    assert_eq!(a.chunk(1), Chunk::new(0x3000, 0x100));
    a.push(Chunk::new(0x5000, 0x10));
    assert_eq!(a.chunk(2), Chunk::new(0x5000, 0x10));
}

#[test]
fn allocate_takes_the_top_of_the_first_large_chunk() {
    let mut a = with_chunks(&[(0x1000, 0x10000)]);
    let addr = a.allocate(0x100, 0x10);
    assert_eq!(addr, 0x10f00);
    assert_eq!(live(&a), vec![(0x1000, 0xff00)]);
}

#[test]
fn allocate_skips_chunks_that_are_too_small() {
    let mut a = with_chunks(&[(0x1000, 0x110), (0x8000, 0x1000)]);
    let addr = a.allocate(0x100, 0x10);
    assert_eq!(addr, 0x8f00);
    assert_eq!(live(&a), vec![(0x1000, 0x110), (0x8000, 0xf00)]);
}

#[test]
fn allocate_returns_the_unaligned_rest_to_the_table() {
    let mut a = with_chunks(&[(0x1000, 0x1005)]);
    let addr = a.allocate(0x100, 0x10);
    assert_eq!(addr, 0x1f00);
    assert_eq!(live(&a), vec![(0x1000, 0xf00), (0x2000, 5)]);
}

#[test]
fn align_pushes_the_masked_off_rest() {
    let mut a = MemoryAllocator::new();
    a.align(&Chunk::new(0x1000, 0x27), 0x10, 0x40);
    assert_eq!(live(&a), vec![(0x1000 + 0x20 + 0x40, 7)]);
    let mut b = MemoryAllocator::new();
    b.align(&Chunk::new(0x1000, 0x20), 0x10, 0x40);
    assert!(live(&b).is_empty());
}

#[test]
fn merge_joins_adjacent_chunks() {
    let mut a = with_chunks(&[(0x1000, 0x100), (0x1100, 0x200), (0x5000, 0x10)]);
    assert!(a.merge());
    assert_eq!(live(&a), vec![(0x1000, 0x300), (0x5000, 0x10)]);
    assert!(!a.merge());
}

#[test]
fn merge_erases_a_zero_length_chunk() {
    let mut a = with_chunks(&[(0x4000, 0), (0x1000, 0x10)]);
    assert!(a.merge());
    assert_eq!(live(&a), vec![(0x1000, 0x10)]);
}

#[test]
fn defrag_joins_a_whole_run() {
    let mut a = with_chunks(&[(0x1200, 0x100), (0x1000, 0x100), (0x1100, 0x100)]);
    a.defrag();
    let chunks = live(&a);
    assert_eq!(chunks.len(), 1);
    assert_eq!(chunks[0], (0x1000, 0x300));
}

#[test]
fn allocate_then_deallocate_restores_the_free_memory() {
    let mut a = with_chunks(&[(0x1000, 0x10000)]);
    let addr = a.allocate(0x100, 0x10);
    a.deallocate(addr, 0x100);
    assert_eq!(live(&a), vec![(0x1000, 0x10000)]);
}

#[test]
fn deallocate_a_separate_block() {
    let mut a = with_chunks(&[(0x1000, 0x100)]);
    a.deallocate(0x9000, 0x40);
    assert_eq!(live(&a), vec![(0x1000, 0x100), (0x9000, 0x40)]);
}

#[test]
fn aligned_alloc_raises_the_alignment() {
    let a: AlignedAlloc<4096> = AlignedAlloc::new();
    assert_eq!(a.layout(100, 8), (100, 4096));
    assert_eq!(a.layout(100, 8192), (100, 8192));
}

#[test]
fn freed_blocks_settle_in_their_slots() {
    let mut a = with_chunks(&[(0x3000, 0x100), (0x1000, 0x100)]);
    a.deallocate(0x1100, 0x100);
    // the freed block went to slot 2; the chunk in slot 1 absorbed it, then slot 0's chunk
    // was not adjacent to anything
    assert_eq!((a.chunk(0).base, a.chunk(0).length), (0x3000, 0x100));
    assert_eq!((a.chunk(1).base, a.chunk(1).length), (0x1000, 0x200));
    assert!(a.chunk(2).is_empty());
    a.deallocate(0x1200, 0x1e00);
    // now slot 1 reaches slot 0's chunk: it is joined onto slot 1's
    assert_eq!((a.chunk(1).base, a.chunk(1).length), (0x1000, 0x2100));
    assert!(a.chunk(0).is_empty());
    assert!(a.chunk(2).is_empty());
}
