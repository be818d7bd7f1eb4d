use crate::heap::{grow_step_of, ResizeStep};
use crate::layout::MemLayout;
use crate::page::ReallocPlan;
use vstd::prelude::*;

verus! {

/// Sets every byte of `buf` to zero.
pub fn zero_fill(buf: &mut [u8])
    ensures
        final(buf)@.len() == old(buf)@.len(),
        forall|i: int| 0 <= i < final(buf)@.len() ==> #[trigger] final(buf)@[i] == 0,
{
    let n = buf.len();
    let mut i: usize = 0;
    while i < n
        invariant
            n == buf@.len(),
            i <= n,
            forall|j: int| 0 <= j < i ==> #[trigger] buf@[j] == 0,
        decreases n - i,
    {
        buf[i] = 0;
        i = i + 1;
    }
}

/// Copies the first `n` bytes of `src` over the first `n` bytes of `dst`; the rest
/// of `dst` is left as it was.
pub fn copy_prefix(src: &[u8], dst: &mut [u8], n: usize)
    requires
        n <= src@.len(),
        n <= old(dst)@.len(),
    ensures
        final(dst)@ == src@.subrange(0, n as int) + old(dst)@.subrange(n as int, old(dst)@.len() as int),
{
    let mut i: usize = 0;
    while i < n
        invariant
            i <= n,
            n <= src@.len(),
            n <= old(dst)@.len(),
            dst@.len() == old(dst)@.len(),
            forall|j: int| 0 <= j < i ==> #[trigger] dst@[j] == src@[j],
            forall|j: int| n <= j < dst@.len() ==> #[trigger] dst@[j] == old(dst)@[j],
        decreases n - i,
    {
        dst[i] = src[i];
        i = i + 1;
    }
    proof {
        assert(dst@ =~= src@.subrange(0, n as int) + old(dst)@.subrange(n as int, old(dst)@.len() as int));
    }
}

/// Growing a block keeps its first `old.size` bytes: a move copies exactly that
/// many, and a remap either leaves the mapping in place or copies the smaller of
/// the two sizes, which is `old.size`. So after the copy that the step names, the
/// first `old.size` bytes of the new block are those of the old one.
pub proof fn lemma_grow_keeps_prefix(
    old: MemLayout,
    new: MemLayout,
    page: int,
    src: Seq<u8>,
    dst_before: Seq<u8>,
    dst_after: Seq<u8>,
)
    requires
        old.wf(),
        new.wf(),
        new.size >= old.size,
        src.len() >= old.size,
        dst_before.len() >= new.size,
    ensures
        grow_step_of(old, new, page) matches ResizeStep::Move { copy_len } ==> copy_len == old.size,
        grow_step_of(old, new, page) matches ResizeStep::Remap { plan } ==> (plan matches ReallocPlan::Extend { copy_len, .. } ==> copy_len == old.size),
        dst_after == src.subrange(0, old.size as int) + dst_before.subrange(
            old.size as int,
            dst_before.len() as int,
        ) ==> dst_after.subrange(0, old.size as int) == src.subrange(0, old.size as int),
{
    if dst_after == src.subrange(0, old.size as int) + dst_before.subrange(
        old.size as int,
        dst_before.len() as int,
    ) {
        assert(dst_after.subrange(0, old.size as int) =~= src.subrange(0, old.size as int));
    }
}

/// Shrinking a block keeps its first `new.size` bytes: the move copies exactly that
/// many, so the first `new.size` bytes of the new block are those of the old one.
pub proof fn lemma_shrink_keeps_prefix(
    old: MemLayout,
    new: MemLayout,
    src: Seq<u8>,
    dst_before: Seq<u8>,
    dst_after: Seq<u8>,
)
    requires
        old.wf(),
        new.wf(),
        new.size <= old.size,
        src.len() >= old.size,
        dst_before.len() >= new.size,
        dst_after == src.subrange(0, new.size as int) + dst_before.subrange(
            new.size as int,
            dst_before.len() as int,
        ),
    ensures
        dst_after.subrange(0, new.size as int) == src.subrange(0, new.size as int),
{
    assert(dst_after.subrange(0, new.size as int) =~= src.subrange(0, new.size as int));
}

} // verus!
