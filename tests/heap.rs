use rust_alloc::{
    class_for_size, copy_prefix, route, zero_fill, AllocStep, Bin, FreeList, MemLayout,
    PageAllocator, RSBMalloc, ReallocPlan, ResizeStep, Route, CHUNK_SIZE, MAX_ALIGN,
};

/// Hands out chunk bases the way a kernel would: page aligned and never overlapping.
struct FakeKernel {
    next: usize,
}

impl FakeKernel {
    fn new() -> Self {
        FakeKernel { next: 0x1000_0000 }
    }

    fn map(&mut self, len: usize) -> usize {
        let base = self.next;
        self.next += (len + 0xfff) / 0x1000 * 0x1000 + 0x1000;
        base
    }
}

fn heap() -> RSBMalloc {
    RSBMalloc::new(0, PageAllocator::new(4096).unwrap())
}

fn layout(size: usize, align: usize) -> MemLayout {
    MemLayout::from_size_align(size, align).unwrap()
}

fn obtain(h: &mut RSBMalloc, k: &mut FakeKernel, l: MemLayout) -> (usize, usize) {
    match h.allocate(l) {
        AllocStep::Cell { addr, len } => (addr, len),
        AllocStep::NeedChunk { class, chunk } => {
            let base = k.map(chunk.size);
            let addr = h.chunk_arrived(class, base).unwrap();
            (addr, l.pad_to_align())
        }
        AllocStep::Mapping { len } => (k.map(len), len),
        AllocStep::Failed => panic!("allocation failed"),
    }
}

/// Grows a dynamic array of `elem`-sized, `align`-aligned items one item at a
/// time, doubling its capacity, and returns every block address it held.
fn grow_array(h: &mut RSBMalloc, k: &mut FakeKernel, elem: usize, align: usize, n: usize) -> Vec<usize> {
    let mut seen = Vec::new();
    let mut cap = 4;
    let mut cur = layout(cap * elem, align);
    let (mut addr, _) = obtain(h, k, cur);
    seen.push(addr);
    for len in 0..n {
        if len == cap {
            let next = layout(cap * 2 * elem, align);
            match h.grow(cur, next) {
                ResizeStep::Move { copy_len } => {
                    assert_eq!(copy_len, cur.size);
                    let (a, _) = obtain(h, k, next);
                    assert_eq!(h.deallocate(addr, cur), None);
                    addr = a;
                }
                ResizeStep::Remap { plan } => {
                    if let ReallocPlan::Extend { .. } = plan {
                    } else {
                        panic!("growing a mapping must extend it");
                    }
                }
                ResizeStep::Failed => panic!("grow failed"),
            }
            seen.push(addr);
            cap *= 2;
            cur = next;
        }
    }
    if cur.pad_to_align() <= CHUNK_SIZE {
        assert_eq!(h.deallocate(addr, cur), None);
    }
    seen
}

#[test]
fn basic_vec() {
    let mut h = heap();
    let mut k = FakeKernel::new();
    let small = grow_array(&mut h, &mut k, 4, 4, 10_000);
    let big = grow_array(&mut h, &mut k, 512, 512, 10_000);
    for a in &big {
        assert_eq!(a % 512, 0);
    }
    assert!(!small.is_empty());
    let chunks = h.free_all();
    assert!(!chunks.is_empty());
    for (base, l) in &chunks {
        assert_eq!(l.size, CHUNK_SIZE);
        assert_eq!(base % l.align, 0);
    }
}

#[test]
fn dense_small_vector_reclaims_every_chunk() {
    let mut h = heap();
    let mut k = FakeKernel::new();
    let four = layout(4, 4);
    let mut cells = Vec::new();
    for _ in 0..10_000 {
        let (a, len) = obtain(&mut h, &mut k, four);
        assert_eq!(len, 4);
        cells.push(a);
    }
    for a in &cells {
        h.deallocate(*a, four);
    }
    let chunks = h.free_all();
    for a in &cells {
        assert!(chunks.iter().any(|(b, _)| *b <= *a && *a + 4 <= *b + CHUNK_SIZE));
    }
}

#[test]
fn live_cells_are_disjoint() {
    let mut h = heap();
    let mut k = FakeKernel::new();
    let l = layout(24, 8);
    let mut cells = Vec::new();
    for i in 0..3000 {
        let (a, _) = obtain(&mut h, &mut k, l);
        cells.push(a);
        if i % 3 == 0 {
            let victim = cells.remove(cells.len() / 2);
            h.deallocate(victim, l);
        }
    }
    let mut sorted = cells.clone();
    sorted.sort();
    for w in sorted.windows(2) {
        assert!(w[0] + 32 <= w[1]);
    }
}

#[test]
fn freed_cells_are_reused() {
    let mut h = heap();
    let mut k = FakeKernel::new();
    let l = layout(100, 4);
    let first: Vec<usize> = (0..50).map(|_| obtain(&mut h, &mut k, l).0).collect();
    for a in &first {
        h.deallocate(*a, l);
    }
    let second: Vec<usize> = (0..50).map(|_| obtain(&mut h, &mut k, l).0).collect();
    let mut x = first.clone();
    let mut y = second.clone();
    x.sort();
    y.sort();
    assert_eq!(x, y);
    assert_eq!(second[0], first[49]);
}

#[test]
fn addresses_follow_class_alignment() {
    let mut h = heap();
    let mut k = FakeKernel::new();
    for (size, align, class_align) in [(1, 1, 8), (3, 2, 8), (12, 4, 16), (100, 64, 128), (3000, 1024, 4096), (9000, 4096, 4096)] {
        for _ in 0..40 {
            let (a, _) = obtain(&mut h, &mut k, layout(size, align));
            assert_eq!(a % class_align, 0);
            assert_eq!(a % align, 0);
        }
    }
}

#[test]
fn dispatch_by_padded_size() {
    assert_eq!(route(layout(4, 1)), Route::Bin { class: 0 });
    assert_eq!(route(layout(0, 1)), Route::Bin { class: 0 });
    assert_eq!(route(layout(5, 1)), Route::Bin { class: 1 });
    assert_eq!(route(layout(3, 16)), Route::Bin { class: 2 });
    assert_eq!(route(layout(513, 1)), Route::Bin { class: 8 });
    assert_eq!(route(layout(65_536, 4096)), Route::Bin { class: 14 });
    assert_eq!(route(layout(65_537, 1)), Route::Huge);
    assert_eq!(route(layout(8, 8192)), Route::Reject);
    assert_eq!(class_for_size(4097), Some(11));
    assert_eq!(class_for_size(65_537), None);
}

#[test]
fn over_aligned_requests_fail() {
    let mut h = heap();
    assert_eq!(h.allocate(layout(16, 2 * MAX_ALIGN)), AllocStep::Failed);
    assert_eq!(h.grow(layout(16, 8), layout(32, 8192)), ResizeStep::Failed);
    assert_eq!(h.grow_zeroed(layout(16, 8), layout(32, 8192)), ResizeStep::Failed);
}

#[test]
fn huge_requests_map_whole_pages() {
    let mut h = heap();
    assert_eq!(h.allocate(layout(80_000, 4)), AllocStep::Mapping { len: 81_920 });
    assert_eq!(h.deallocate(0x5000_0000, layout(80_000, 4)), Some(81_920));
    let pages = PageAllocator::new(4096).unwrap();
    assert_eq!(pages.mapping_size(layout(1, 8192)), Some(8192));
    assert_eq!(pages.mapping_size(layout(4097, 4)), Some(8192));
}

#[test]
fn page_realloc_plans() {
    let pages = PageAllocator::new(4096).unwrap();
    assert_eq!(
        pages.realloc(layout(80_000, 4), 200),
        ReallocPlan::Keep { unmap_offset: 4096, unmap_len: 77_824 }
    );
    assert_eq!(
        pages.realloc(layout(80_000, 4), 81_000),
        ReallocPlan::Keep { unmap_offset: 81_920, unmap_len: 0 }
    );
    assert_eq!(
        pages.realloc(layout(80_000, 4), 100_000),
        ReallocPlan::Extend { old_len: 81_920, extra_len: 20_480, new_len: 102_400, copy_len: 80_000 }
    );
    assert_eq!(pages.realloc(layout(10, 4), usize::MAX), ReallocPlan::Fail);
    assert!(PageAllocator::new(3000).is_none());
}

#[test]
fn huge_allocate_grow_shrink_keeps_prefix() {
    let mut h = heap();
    let mut k = FakeKernel::new();
    let l400 = layout(400, 4);
    let (_, len) = obtain(&mut h, &mut k, l400);
    assert_eq!(len, 400);
    let mut block = vec![0u8; 400];
    for i in 0..100u32 {
        block[i as usize * 4..i as usize * 4 + 4].copy_from_slice(&i.to_le_bytes());
    }
    let l80k = layout(80_000, 4);
    let ResizeStep::Move { copy_len } = h.grow(l400, l80k) else { panic!("expected a move") };
    assert_eq!(copy_len, 400);
    let mut grown = vec![0xAAu8; 80_000];
    copy_prefix(&block, &mut grown, copy_len);
    assert_eq!(grown[400], 0xAA);
    let l200 = layout(200, 4);
    assert_eq!(h.shrink(l80k, l200), ResizeStep::Move { copy_len: 200 });
    let mut shrunk = vec![0u8; 200];
    copy_prefix(&grown, &mut shrunk, 200);
    for i in 0..50u32 {
        let b = &shrunk[i as usize * 4..i as usize * 4 + 4];
        assert_eq!(u32::from_le_bytes([b[0], b[1], b[2], b[3]]), i);
    }
}

#[test]
fn grow_of_a_mapping_remaps() {
    let h = heap();
    let step = h.grow(layout(80_000, 4), layout(200_000, 4));
    assert_eq!(
        step,
        ResizeStep::Remap {
            plan: ReallocPlan::Extend { old_len: 81_920, extra_len: 118_784, new_len: 200_704, copy_len: 80_000 }
        }
    );
    assert_eq!(h.grow_zeroed(layout(16, 8), layout(64, 8)), ResizeStep::Move { copy_len: 16 });
}

#[test]
fn zeroing_clears_the_padded_block() {
    let mut buf = vec![7u8; 512];
    zero_fill(&mut buf);
    assert!(buf.iter().all(|b| *b == 0));
    let mut empty: Vec<u8> = Vec::new();
    zero_fill(&mut empty);
    assert!(empty.is_empty());
}

#[test]
fn copy_prefix_leaves_the_tail() {
    let src = [1u8, 2, 3, 4];
    let mut dst = [9u8; 6];
    copy_prefix(&src, &mut dst, 3);
    assert_eq!(dst, [1, 2, 3, 9, 9, 9]);
}

#[test]
fn bin_hands_out_bump_then_free_cells() {
    let mut b = Bin::new(2);
    assert_eq!(b.alloc_cell(), None);
    assert!(!b.chunk_fits_at(0));
    assert!(!b.chunk_fits_at(0x1008));
    assert_eq!(b.add_chunk(0x10000), Some(0x10000));
    assert!(!b.chunk_fits_at(0x18000));
    assert_eq!(b.alloc_cell(), Some(0x10010));
    assert_eq!(b.alloc_cell(), Some(0x10020));
    b.dealloc(0x10000);
    b.dealloc(0x10020);
    assert_eq!(b.alloc_cell(), Some(0x10020));
    assert_eq!(b.alloc_cell(), Some(0x10000));
    assert_eq!(b.alloc_cell(), Some(0x10030));
    assert_eq!(b.free_all(), vec![0x10000]);
    assert_eq!(b.alloc_cell(), None);
}

#[test]
fn bin_runs_out_at_the_chunk_end() {
    let mut b = Bin::new(14);
    assert_eq!(b.add_chunk(0x40000), Some(0x40000));
    assert_eq!(b.alloc_cell(), None);
    let mut small = Bin::new(0);
    assert_eq!(small.add_chunk(0x80000), Some(0x80000));
    assert_eq!(small.alloc_cell(), Some(0x80008));
    let mut n = 2;
    while small.alloc_cell().is_some() {
        n += 1;
    }
    assert_eq!(n, CHUNK_SIZE / 8);
}

#[test]
fn free_list_is_a_stack() {
    let mut f = FreeList::null();
    assert!(!f.has_head());
    assert_eq!(f.option_nn(), None);
    f.push(16);
    f.push(32);
    assert!(f.has_head());
    assert_eq!(f.option_nn(), Some(32));
    assert_eq!(f.pop(), 32);
    assert_eq!(f.pop(), 16);
    assert!(!f.has_head());
}

#[test]
fn layouts_pad_to_alignment() {
    assert_eq!(layout(13, 8).pad_to_align(), 16);
    assert_eq!(layout(16, 8).pad_to_align(), 16);
    assert_eq!(layout(0, 4096).pad_to_align(), 0);
    assert!(MemLayout::from_size_align(8, 3).is_none());
    assert!(MemLayout::from_size_align(8, 0).is_none());
    assert!(MemLayout::from_size_align(usize::MAX, 1).is_none());
}

#[test]
fn soak_interleaved_owners() {
    let mut h = heap();
    let mut k = FakeKernel::new();
    let l = layout(513, 1);
    for _ in 0..1000 {
        let mut held: Vec<(usize, usize)> = Vec::new();
        for _owner in 0..32 {
            let (a, len) = obtain(&mut h, &mut k, l);
            assert_eq!(len, 513);
            held.push((a, len));
        }
        let mut sorted = held.clone();
        sorted.sort();
        for w in sorted.windows(2) {
            assert!(w[0].0 + 1024 <= w[1].0);
        }
        for (a, _) in held {
            assert_eq!(h.deallocate(a, l), None);
        }
    }
    assert_eq!(h.free_all().len(), 1);
}

#[test]
fn overlapping_or_misaligned_chunks_are_refused() {
    let mut h = heap();
    let l = layout(64, 64);
    let AllocStep::NeedChunk { class, chunk } = h.allocate(l) else { panic!("empty bin needs a chunk") };
    assert_eq!(class, 4);
    assert_eq!(chunk, layout(CHUNK_SIZE, 64));
    assert_eq!(h.chunk_arrived(class, 0x3000_0020), None);
    assert_eq!(h.chunk_arrived(class, 0), None);
    assert_eq!(h.chunk_arrived(class, 0x3000_0000), Some(0x3000_0000));
    assert_eq!(h.chunk_arrived(class, 0x3000_8000), None);
    assert_eq!(h.allocate(l), AllocStep::Cell { addr: 0x3000_0040, len: 64 });
}
