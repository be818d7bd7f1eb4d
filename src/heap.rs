use crate::bin::{returns_cell, takes_cell, takes_chunk, Bin};
use crate::class::{
    align_of_class, class_align, class_for_size, lemma_class_alignment_covers, serves, CHUNK_SIZE,
    MAX_ALIGN, NUM_CLASSES,
};
use crate::layout::{is_pow2, MemLayout};
use crate::page::{map_align, mapped_len, realloc_plan_of, PageAllocator, ReallocPlan};
use vstd::arithmetic::div_mod::{lemma_fundamental_div_mod, lemma_mod_multiples_basic};
use vstd::prelude::*;

verus! {

/// The layout of a chunk of class `c`.
pub open spec fn chunk_layout(c: int) -> MemLayout {
    MemLayout { size: CHUNK_SIZE, align: class_align(c) as usize }
}

/// One bin per size class, class `c` at index `c`.
pub struct Bins {
    bins: Vec<Bin>,
}

/// The chunks of the classes below `n`, class by class and oldest first, each
/// with the layout it was mapped with.
pub open spec fn chunks_below(bins: Bins, n: int) -> Seq<(usize, MemLayout)>
    decreases n,
{
    if n <= 0 {
        Seq::empty()
    } else {
        chunks_below(bins, n - 1) + bins.bin(n - 1).chunk_bases().map_values(
            |b: usize| (b, chunk_layout(n - 1)),
        )
    }
}

impl Bins {
    /// The bin of class `c`.
    pub closed spec fn bin(&self, c: int) -> Bin {
        self.bins@[c]
    }

    /// Number of bins held.
    pub closed spec fn count(&self) -> int {
        self.bins@.len() as int
    }

    /// One well-formed bin per class, in class order.
    pub open spec fn wf(&self) -> bool {
        &&& self.count() == NUM_CLASSES
        &&& forall|c: int|
            0 <= c < NUM_CLASSES ==> #[trigger] self.bin(c).wf() && self.bin(c).class_index()
                == c
    }

    /// Only the bin of class `c` may differ between `self` and `other`.
    pub open spec fn same_except(&self, other: Bins, c: int) -> bool {
        &&& other.count() == self.count()
        &&& forall|d: int| 0 <= d < NUM_CLASSES && d != c ==> #[trigger] other.bin(d) == self.bin(d)
    }

    /// Empty bins for every class.
    pub fn new() -> (r: Bins)
        ensures
            r.wf(),
            forall|c: int|
                0 <= c < NUM_CLASSES ==> {
                    &&& (#[trigger] r.bin(c)).free_stack().len() == 0
                    &&& r.bin(c).chunk_bases().len() == 0
                    &&& r.bin(c).live_cells().is_empty()
                    &&& r.bin(c).bump_remaining() == 0
                },
    {
        let mut bins: Vec<Bin> = Vec::new();
        let mut c: usize = 0;
        while c < NUM_CLASSES
            invariant
                c <= NUM_CLASSES,
                bins@.len() == c,
                forall|d: int|
                    0 <= d < c ==> {
                        &&& (#[trigger] bins@[d]).wf()
                        &&& bins@[d].class_index() == d
                        &&& bins@[d].free_stack().len() == 0
                        &&& bins@[d].chunk_bases().len() == 0
                        &&& bins@[d].live_cells().is_empty()
                        &&& bins@[d].bump_remaining() == 0
                    },
            decreases NUM_CLASSES - c,
        {
            bins.push(Bin::new(c));
            c = c + 1;
        }
        Bins { bins }
    }

    /// Hands out a cell of class `c` (see `takes_cell`).
    pub fn alloc_cell(&mut self, c: usize) -> (r: Option<usize>)
        requires
            old(self).wf(),
            c < NUM_CLASSES,
        ensures
            final(self).wf(),
            old(self).same_except(*final(self), c as int),
            takes_cell(old(self).bin(c as int), final(self).bin(c as int), r),
    {
        assert(self.bin(c as int).wf());
        let mut b = self.bins.remove(c);
        let r = b.alloc_cell();
        self.bins.insert(c, b);
        proof {
            assert(self.bins@ =~= old(self).bins@.update(c as int, b));
            assert forall|d: int| 0 <= d < NUM_CLASSES implies #[trigger] self.bin(d).wf()
                && self.bin(d).class_index() == d by {
                assert(old(self).bin(d).wf());
            }
        }
        r
    }

    /// Offers a fresh chunk at `base` to the bin of class `c` (see `takes_chunk`).
    pub fn add_chunk(&mut self, c: usize, base: usize) -> (r: Option<usize>)
        requires
            old(self).wf(),
            c < NUM_CLASSES,
        ensures
            final(self).wf(),
            old(self).same_except(*final(self), c as int),
            takes_chunk(old(self).bin(c as int), final(self).bin(c as int), base, r),
    {
        assert(self.bin(c as int).wf());
        let mut b = self.bins.remove(c);
        let r = b.add_chunk(base);
        self.bins.insert(c, b);
        proof {
            assert(self.bins@ =~= old(self).bins@.update(c as int, b));
            assert forall|d: int| 0 <= d < NUM_CLASSES implies #[trigger] self.bin(d).wf()
                && self.bin(d).class_index() == d by {
                assert(old(self).bin(d).wf());
            }
        }
        r
    }

    /// Returns the live cell `a` to the bin of class `c` (see `returns_cell`).
    pub fn dealloc(&mut self, c: usize, a: usize)
        requires
            old(self).wf(),
            c < NUM_CLASSES,
            old(self).bin(c as int).live_cells().contains(a as int),
        ensures
            final(self).wf(),
            old(self).same_except(*final(self), c as int),
            returns_cell(old(self).bin(c as int), final(self).bin(c as int), a),
    {
        assert(self.bin(c as int).wf());
        let mut b = self.bins.remove(c);
        b.dealloc(a);
        self.bins.insert(c, b);
        proof {
            assert(self.bins@ =~= old(self).bins@.update(c as int, b));
            assert forall|d: int| 0 <= d < NUM_CLASSES implies #[trigger] self.bin(d).wf()
                && self.bin(d).class_index() == d by {
                assert(old(self).bin(d).wf());
            }
        }
    }

    /// Teardown: empties every bin and hands back every chunk with the layout it
    /// was mapped with, class by class and oldest first.
    pub fn free_all(&mut self) -> (r: Vec<(usize, MemLayout)>)
        requires
            old(self).wf(),
        ensures
            final(self).wf(),
            r@ == chunks_below(*old(self), NUM_CLASSES as int),
            forall|c: int|
                0 <= c < NUM_CLASSES ==> {
                    &&& (#[trigger] final(self).bin(c)).free_stack().len() == 0
                    &&& final(self).bin(c).chunk_bases().len() == 0
                    &&& final(self).bin(c).live_cells().is_empty()
                    &&& final(self).bin(c).bump_remaining() == 0
                },
    {
        let mut r: Vec<(usize, MemLayout)> = Vec::new();
        let mut c: usize = 0;
        while c < NUM_CLASSES
            invariant
                c <= NUM_CLASSES,
                self.wf(),
                r@ == chunks_below(*old(self), c as int),
                forall|d: int| c <= d < NUM_CLASSES ==> #[trigger] self.bin(d) == old(self).bin(d),
                forall|d: int|
                    0 <= d < c ==> {
                        &&& (#[trigger] self.bin(d)).free_stack().len() == 0
                        &&& self.bin(d).chunk_bases().len() == 0
                        &&& self.bin(d).live_cells().is_empty()
                        &&& self.bin(d).bump_remaining() == 0
                    },
            decreases NUM_CLASSES - c,
        {
            let ghost before = *self;
            assert(self.bin(c as int).wf());
            let bases = self.bins[c].free_all();
            let align = align_of_class(c);
            let ghost r_before = r@;
            let mut i: usize = 0;
            while i < bases.len()
                invariant
                    i <= bases@.len(),
                    r@ == r_before + bases@.subrange(0, i as int).map_values(
                        |b: usize| (b, chunk_layout(c as int)),
                    ),
                    align == class_align(c as int),
                decreases bases@.len() - i,
            {
                r.push((bases[i], MemLayout { size: CHUNK_SIZE, align }));
                proof {
                    assert(bases@.subrange(0, i + 1).map_values(
                        |b: usize| (b, chunk_layout(c as int)),
                    ) =~= bases@.subrange(0, i as int).map_values(
                        |b: usize| (b, chunk_layout(c as int)),
                    ).push((bases@[i as int], chunk_layout(c as int))));
                }
                i = i + 1;
            }
            proof {
                assert(bases@.subrange(0, bases@.len() as int) =~= bases@);
                assert(self.bin(c as int).live_cells() =~= Set::<int>::empty());
                assert forall|d: int| c + 1 <= d < NUM_CLASSES implies #[trigger] self.bin(d)
                    == old(self).bin(d) by {
                    assert(self.bin(d) == before.bin(d));
                }
                assert forall|d: int| 0 <= d < c + 1 implies {
                    &&& (#[trigger] self.bin(d)).free_stack().len() == 0
                    &&& self.bin(d).chunk_bases().len() == 0
                    &&& self.bin(d).live_cells().is_empty()
                    &&& self.bin(d).bump_remaining() == 0
                } by {
                    if d < c {
                        assert(self.bin(d) == before.bin(d));
                    }
                }
                assert forall|d: int| 0 <= d < NUM_CLASSES implies #[trigger] self.bin(d).wf()
                    && self.bin(d).class_index() == d by {
                    assert(before.bin(d).wf());
                }
            }
            c = c + 1;
        }
        r
    }
}

/// Where a request for a layout is served.
#[derive(Clone, Copy, Debug, PartialEq, Eq, Structural)]
pub enum Route {
    /// The alignment is above what the heap honours.
    Reject,
    /// The bin of the class whose cells hold the padded size.
    Bin { class: usize },
    /// A mapping of its own, for a padded size above the largest class.
    Huge,
}

/// `r` is where a request for `l` is served.
pub open spec fn routes_to(l: MemLayout, r: Route) -> bool {
    if l.align > MAX_ALIGN {
        r == Route::Reject
    } else if l.padded() <= CHUNK_SIZE {
        r matches Route::Bin { class } && serves(class as int, l.padded() as int)
    } else {
        r == Route::Huge
    }
}

/// Decides where a request for `layout` is served.
pub fn route(layout: MemLayout) -> (r: Route)
    requires
        layout.wf(),
    ensures
        routes_to(layout, r),
{
    if layout.align > MAX_ALIGN {
        return Route::Reject;
    }
    let p = layout.pad_to_align();
    match class_for_size(p) {
        Some(c) => Route::Bin { class: c },
        None => Route::Huge,
    }
}

/// The first step of an allocation.
#[derive(Clone, Copy, Debug, PartialEq, Eq, Structural)]
pub enum AllocStep {
    /// The request cannot be served.
    Failed,
    /// The block is the `len` bytes at `addr`.
    Cell { addr: usize, len: usize },
    /// The bin of `class` is out of cells: a chunk of layout `chunk` must be mapped
    /// and handed to `RSBMalloc::chunk_arrived`.
    NeedChunk { class: usize, chunk: MemLayout },
    /// The block is a mapping of its own, `len` bytes long.
    Mapping { len: usize },
}

/// The cell an allocation step hands out, if it hands one out.
pub open spec fn step_cell(s: AllocStep) -> Option<usize> {
    match s {
        AllocStep::Cell { addr, .. } => Some(addr),
        _ => None,
    }
}

/// How a block is resized.
#[derive(Clone, Copy, Debug, PartialEq, Eq, Structural)]
pub enum ResizeStep {
    /// The request cannot be served.
    Failed,
    /// The block is a mapping of its own and is resized as the page allocator's plan says.
    Remap { plan: ReallocPlan },
    /// A new block is allocated, the first `copy_len` bytes of the old one are
    /// copied into it, and the old block is deallocated.
    Move { copy_len: usize },
}

/// How growing a block of layout `old` to layout `new` proceeds.
pub open spec fn grow_step_of(old: MemLayout, new: MemLayout, page: int) -> ResizeStep {
    if new.align > MAX_ALIGN {
        ResizeStep::Failed
    } else if old.padded() > CHUNK_SIZE {
        ResizeStep::Remap { plan: realloc_plan_of(old, new.size as int, page) }
    } else {
        ResizeStep::Move { copy_len: old.size }
    }
}

/// The binned heap: one bin per size class, and the page allocator for chunks and
/// for blocks too large for any class.
pub struct RSBMalloc {
    bins: Bins,
    pages: PageAllocator,
    pkey: i32,
}

impl RSBMalloc {
    /// The bins.
    pub closed spec fn heap(&self) -> Bins {
        self.bins
    }

    /// The page size in use.
    pub closed spec fn page(&self) -> int {
        self.pages.page()
    }

    /// The protection label the heap's pages carry.
    pub closed spec fn label(&self) -> int {
        self.pkey as int
    }

    /// The bins and the page allocator are well formed.
    pub open spec fn wf(&self) -> bool {
        &&& self.heap().wf()
        &&& is_pow2(self.page() as nat)
        &&& self.page() <= crate::layout::MAX_LAYOUT_SIZE
    }

    /// An empty heap whose pages carry label `pkey`.
    pub fn new(pkey: i32, pages: PageAllocator) -> (r: RSBMalloc)
        requires
            pages.wf(),
        ensures
            r.wf(),
            r.label() == pkey,
            r.page() == pages.page(),
            forall|c: int|
                0 <= c < NUM_CLASSES ==> {
                    &&& (#[trigger] r.heap().bin(c)).free_stack().len() == 0
                    &&& r.heap().bin(c).chunk_bases().len() == 0
                    &&& r.heap().bin(c).live_cells().is_empty()
                    &&& r.heap().bin(c).bump_remaining() == 0
                },
    {
        RSBMalloc { bins: Bins::new(), pages, pkey }
    }

    /// The protection label the heap's pages carry.
    pub fn pkey(&self) -> (r: i32)
        ensures
            r == self.label(),
    {
        self.pkey
    }

    /// The page allocator.
    pub fn pages(&self) -> (r: &PageAllocator)
        ensures
            r.page() == self.page(),
            r.wf() == (is_pow2(self.page() as nat) && self.page() <= crate::layout::MAX_LAYOUT_SIZE),
    {
        &self.pages
    }

    /// Teardown: empties every bin and hands back every chunk ever taken, with the
    /// layout it was mapped with.
    pub fn free_all(&mut self) -> (r: Vec<(usize, MemLayout)>)
        requires
            old(self).wf(),
        ensures
            final(self).wf(),
            final(self).label() == old(self).label(),
            final(self).page() == old(self).page(),
            r@ == chunks_below(old(self).heap(), NUM_CLASSES as int),
            forall|c: int|
                0 <= c < NUM_CLASSES ==> {
                    &&& (#[trigger] final(self).heap().bin(c)).free_stack().len() == 0
                    &&& final(self).heap().bin(c).chunk_bases().len() == 0
                    &&& final(self).heap().bin(c).live_cells().is_empty()
                    &&& final(self).heap().bin(c).bump_remaining() == 0
                },
    {
        self.bins.free_all()
    }

    /// The first step of allocating a block for `layout`. A request whose alignment
    /// is above the largest honoured one fails. One whose padded size a class holds
    /// takes a cell of that class (see `takes_cell`), whose length is the padded
    /// size, or asks for a chunk when the bin has none left. A larger one asks for
    /// a mapping of its own, or fails when its length cannot be represented.
    pub fn allocate(&mut self, layout: MemLayout) -> (r: AllocStep)
        requires
            old(self).wf(),
            layout.wf(),
        ensures
            final(self).wf(),
            final(self).label() == old(self).label(),
            final(self).page() == old(self).page(),
            layout.align > MAX_ALIGN ==> r == AllocStep::Failed && final(self).heap() == old(
                self,
            ).heap(),
            layout.align <= MAX_ALIGN && layout.padded() > CHUNK_SIZE ==> {
                &&& final(self).heap() == old(self).heap()
                &&& r == match mapped_len(
                    layout.size as int,
                    map_align(layout.align as int, old(self).page()),
                ) {
                    Some(n) => AllocStep::Mapping { len: n as usize },
                    None => AllocStep::Failed,
                }
            },
            forall|c: int|
                #![trigger serves(c, layout.padded() as int)]
                layout.align <= MAX_ALIGN && serves(c, layout.padded() as int) ==> {
                    &&& old(self).heap().same_except(final(self).heap(), c)
                    &&& takes_cell(
                        old(self).heap().bin(c),
                        final(self).heap().bin(c),
                        step_cell(r),
                    )
                    &&& r is Cell || r is NeedChunk
                    &&& r matches AllocStep::Cell { len, .. } ==> len == layout.padded()
                    &&& r matches AllocStep::NeedChunk { class, chunk } ==> class == c && chunk
                        == chunk_layout(c)
                },
    {
        match route(layout) {
            Route::Reject => AllocStep::Failed,
            Route::Huge => match self.pages.mapping_size(layout) {
                Some(n) => AllocStep::Mapping { len: n },
                None => AllocStep::Failed,
            },
            Route::Bin { class } => {
                let len = layout.pad_to_align();
                let r = match self.bins.alloc_cell(class) {
                    Some(addr) => AllocStep::Cell { addr, len },
                    None => AllocStep::NeedChunk {
                        class,
                        chunk: MemLayout { size: CHUNK_SIZE, align: align_of_class(class) },
                    },
                };
                proof {
                    assert forall|c: int| serves(c, layout.padded() as int) implies c == class by {
                        crate::class::lemma_serves_unique(c, class as int, layout.padded() as int);
                    }
                }
                r
            },
        }
    }

    /// Hands a freshly mapped chunk at `base` to the bin of `class` (see
    /// `takes_chunk`): its first cell, or `None` when the chunk may not join.
    pub fn chunk_arrived(&mut self, class: usize, base: usize) -> (r: Option<usize>)
        requires
            old(self).wf(),
            class < NUM_CLASSES,
        ensures
            final(self).wf(),
            final(self).label() == old(self).label(),
            final(self).page() == old(self).page(),
            old(self).heap().same_except(final(self).heap(), class as int),
            takes_chunk(old(self).heap().bin(class as int), final(self).heap().bin(class as int), base, r),
    {
        self.bins.add_chunk(class, base)
    }

    /// Deallocates the block at `addr` allocated for `layout`: a cell goes back to
    /// its bin (see `returns_cell`) and `None` comes back; for a mapping of its own
    /// the length to unmap comes back.
    pub fn deallocate(&mut self, addr: usize, layout: MemLayout) -> (r: Option<usize>)
        requires
            old(self).wf(),
            layout.wf(),
            layout.align <= MAX_ALIGN,
            forall|c: int|
                #![trigger serves(c, layout.padded() as int)]
                serves(c, layout.padded() as int) ==> old(self).heap().bin(c).live_cells().contains(
                    addr as int,
                ),
        ensures
            final(self).wf(),
            final(self).label() == old(self).label(),
            final(self).page() == old(self).page(),
            layout.padded() > CHUNK_SIZE ==> final(self).heap() == old(self).heap() && r == match mapped_len(
                layout.size as int,
                map_align(layout.align as int, old(self).page()),
            ) {
                Some(n) => Some(n as usize),
                None => None::<usize>,
            },
            forall|c: int|
                #![trigger serves(c, layout.padded() as int)]
                serves(c, layout.padded() as int) ==> {
                    &&& r is None
                    &&& old(self).heap().same_except(final(self).heap(), c)
                    &&& returns_cell(old(self).heap().bin(c), final(self).heap().bin(c), addr)
                },
    {
        match route(layout) {
            Route::Bin { class } => {
                self.bins.dealloc(class, addr);
                proof {
                    assert forall|c: int| serves(c, layout.padded() as int) implies c == class by {
                        crate::class::lemma_serves_unique(c, class as int, layout.padded() as int);
                    }
                }
                None
            },
            _ => self.pages.mapping_size(layout),
        }
    }

    /// How a block of layout `old_layout` grows to `new_layout`: it fails when the
    /// new alignment is above the largest honoured one, a block with a mapping of
    /// its own is remapped, and any other moves with its `old_layout.size` bytes.
    pub fn grow(&self, old_layout: MemLayout, new_layout: MemLayout) -> (r: ResizeStep)
        requires
            self.wf(),
            old_layout.wf(),
            new_layout.wf(),
            new_layout.size >= old_layout.size,
        ensures
            r == grow_step_of(old_layout, new_layout, self.page()),
    {
        if new_layout.align > MAX_ALIGN {
            return ResizeStep::Failed;
        }
        if old_layout.pad_to_align() > CHUNK_SIZE {
            return ResizeStep::Remap { plan: self.pages.realloc(old_layout, new_layout.size) };
        }
        ResizeStep::Move { copy_len: old_layout.size }
    }

    /// How a block of layout `old_layout` grows to `new_layout` with the new bytes
    /// zeroed: it fails when the new alignment is above the largest honoured one,
    /// and otherwise moves to a zeroed block with its `old_layout.size` bytes.
    pub fn grow_zeroed(&self, old_layout: MemLayout, new_layout: MemLayout) -> (r: ResizeStep)
        requires
            old_layout.wf(),
            new_layout.wf(),
            new_layout.size >= old_layout.size,
        ensures
            r == (if new_layout.align > MAX_ALIGN {
                ResizeStep::Failed
            } else {
                ResizeStep::Move { copy_len: old_layout.size }
            }),
    {
        if new_layout.align > MAX_ALIGN {
            return ResizeStep::Failed;
        }
        ResizeStep::Move { copy_len: old_layout.size }
    }

    /// How a block of layout `old_layout` shrinks to `new_layout`: it moves with
    /// its first `new_layout.size` bytes.
    pub fn shrink(&self, old_layout: MemLayout, new_layout: MemLayout) -> (r: ResizeStep)
        requires
            old_layout.wf(),
            new_layout.wf(),
            new_layout.size <= old_layout.size,
        ensures
            r == (ResizeStep::Move { copy_len: new_layout.size }),
    {
        ResizeStep::Move { copy_len: new_layout.size }
    }
}

/// A cell that a bin hands out for `layout`, from its free stack, its bump tail or
/// a fresh chunk, lies at a multiple of the class's alignment and of the requested
/// alignment. The two corners that `lemma_class_alignment_covers` names are left out.
pub proof fn lemma_bin_address_aligned(
    before: Bin,
    after: Bin,
    layout: MemLayout,
    c: int,
    addr: usize,
)
    requires
        before.wf(),
        before.class_index() == c,
        layout.wf(),
        layout.align <= MAX_ALIGN,
        serves(c, layout.padded() as int),
        !(layout.padded() == 0 && layout.align > 8),
        !(c == 1 && layout.align == 8),
        takes_cell(before, after, Some(addr)) || takes_chunk(before, after, addr, Some(addr)),
    ensures
        (addr as int) % class_align(c) == 0,
        (addr as int) % (layout.align as int) == 0,
{
    lemma_class_alignment_covers(layout.size, layout.align, c);
    let ca = class_align(c);
    let a = layout.align as int;
    assert((addr as int) % ca == 0);
    lemma_fundamental_div_mod(addr as int, ca);
    lemma_fundamental_div_mod(ca, a);
    let q1 = (addr as int) / ca;
    let q2 = ca / a;
    assert(addr as int == (q2 * q1) * a) by (nonlinear_arith)
        requires
            addr as int == ca * q1 + 0,
            ca == a * q2 + 0,
    ;
    lemma_mod_multiples_basic(q2 * q1, a);
}

} // verus!
