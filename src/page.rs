use crate::layout::{is_pow2, lemma_pow2_pos, round_up, round_up_within, MemLayout, MAX_LAYOUT_SIZE};
use vstd::prelude::*;

verus! {

/// Hands out page-aligned mappings. The mapping itself is done by the caller; this
/// type decides the sizes and the steps of a resize.
pub struct PageAllocator {
    page_size: usize,
}

/// The steps of resizing a mapping.
#[derive(Clone, Copy, Debug, PartialEq, Eq, Structural)]
pub enum ReallocPlan {
    /// A size cannot be represented: the resize fails.
    Fail,
    /// The mapping stays where it is; when `unmap_len` is not zero the
    /// `unmap_len` bytes from `unmap_offset` on are unmapped.
    Keep { unmap_offset: usize, unmap_len: usize },
    /// Try to map `extra_len` bytes right after the `old_len` bytes of the mapping.
    /// If the kernel places them there the mapping stays; else those bytes are
    /// unmapped, a fresh mapping of `new_len` bytes is made, `copy_len` bytes are
    /// copied over and the old mapping is unmapped.
    Extend { old_len: usize, extra_len: usize, new_len: usize, copy_len: usize },
}

/// The alignment of a mapping for a layout of alignment `align`.
pub open spec fn map_align(align: int, page: int) -> int {
    if align < page {
        page
    } else {
        align
    }
}

/// Length of a mapping of `size` bytes at alignment `a`, if it can be represented.
pub open spec fn mapped_len(size: int, a: int) -> Option<int> {
    if round_up(size as nat, a as nat) <= MAX_LAYOUT_SIZE {
        Some(round_up(size as nat, a as nat) as int)
    } else {
        None
    }
}

/// The plan that resizing a mapping for `layout` to `new_size` bytes follows.
pub open spec fn realloc_plan_of(layout: MemLayout, new_size: int, page: int) -> ReallocPlan {
    let p = map_align(layout.align as int, page);
    let copy_len = if layout.size < new_size {
        layout.size as int
    } else {
        new_size
    };
    match (mapped_len(layout.size as int, p), mapped_len(new_size, p)) {
        (Some(old_len), Some(new_len)) => {
            if new_size <= old_len {
                ReallocPlan::Keep {
                    unmap_offset: new_len as usize,
                    unmap_len: if new_len < old_len {
                        (old_len - new_len) as usize
                    } else {
                        0
                    },
                }
            } else {
                ReallocPlan::Extend {
                    old_len: old_len as usize,
                    extra_len: (new_len - old_len) as usize,
                    new_len: new_len as usize,
                    copy_len: copy_len as usize,
                }
            }
        },
        _ => ReallocPlan::Fail,
    }
}

/// A rounded-up size covers the size.
pub proof fn lemma_round_up_covers(n: nat, a: nat)
    requires
        a > 0,
    ensures
        n <= round_up(n, a),
{
}

impl PageAllocator {
    /// The page size.
    pub closed spec fn page(&self) -> int {
        self.page_size as int
    }

    /// The page size is a power of two.
    pub open spec fn wf(&self) -> bool {
        &&& is_pow2(self.page() as nat)
        &&& self.page() <= MAX_LAYOUT_SIZE
    }

    /// A page allocator for pages of `page_size` bytes; `None` unless that is a
    /// power of two that fits in an `isize`.
    pub fn new(page_size: usize) -> (r: Option<PageAllocator>)
        ensures
            r is Some <==> is_pow2(page_size as nat) && page_size <= MAX_LAYOUT_SIZE,
            r matches Some(pa) ==> pa.wf() && pa.page() == page_size,
    {
        if crate::layout::is_power_of_two(page_size) && page_size <= MAX_LAYOUT_SIZE {
            Some(PageAllocator { page_size })
        } else {
            None
        }
    }

    /// The page size.
    pub fn page_size(&self) -> (r: usize)
        ensures
            r == self.page(),
    {
        self.page_size
    }

    /// Length of the mapping that serves `layout`: its size rounded up to the
    /// larger of its alignment and the page size. `None` when that cannot be
    /// represented. Mapping and unmapping a block both use this length.
    pub fn mapping_size(&self, layout: MemLayout) -> (r: Option<usize>)
        requires
            self.wf(),
            layout.wf(),
        ensures
            r == (match mapped_len(layout.size as int, map_align(layout.align as int, self.page())) {
                Some(n) => Some(n as usize),
                None => None::<usize>,
            }),
    {
        proof {
            lemma_pow2_pos(self.page_size as nat);
            lemma_pow2_pos(layout.align as nat);
        }
        let p = if layout.align < self.page_size {
            self.page_size
        } else {
            layout.align
        };
        round_up_within(layout.size, p, MAX_LAYOUT_SIZE)
    }

    /// The steps that resize the mapping of `layout` to `new_size` bytes.
    pub fn realloc(&self, layout: MemLayout, new_size: usize) -> (r: ReallocPlan)
        requires
            self.wf(),
            layout.wf(),
        ensures
            r == realloc_plan_of(layout, new_size as int, self.page()),
    {
        proof {
            lemma_pow2_pos(self.page_size as nat);
            lemma_pow2_pos(layout.align as nat);
        }
        let p = if layout.align < self.page_size {
            self.page_size
        } else {
            layout.align
        };
        let copy_len = if layout.size < new_size {
            layout.size
        } else {
            new_size
        };
        match (round_up_within(layout.size, p, MAX_LAYOUT_SIZE), round_up_within(new_size, p, MAX_LAYOUT_SIZE)) {
            (Some(old_len), Some(new_len)) => {
                if new_size <= old_len {
                    ReallocPlan::Keep {
                        unmap_offset: new_len,
                        unmap_len: if new_len < old_len {
                            old_len - new_len
                        } else {
                            0
                        },
                    }
                } else {
                    proof {
                        lemma_round_up_covers(new_size as nat, p as nat);
                    }
                    ReallocPlan::Extend {
                        old_len,
                        extra_len: new_len - old_len,
                        new_len,
                        copy_len,
                    }
                }
            },
            _ => ReallocPlan::Fail,
        }
    }
}

} // verus!
