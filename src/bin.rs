use crate::arith::{lemma_mod_diff_zero, lemma_mod_sum_zero, lemma_multiples_apart};
use crate::class::{
    align_of_class, class_align, class_stride, lemma_class_facts, stride_of_class, CHUNK_SIZE,
    NUM_CLASSES,
};
use vstd::prelude::*;

verus! {

/// The free cells of one size class, most recently freed last.
///
/// The stack is the bin's record of which cells are free: pushing a cell links it
/// in front of the others, popping hands back the one freed last.
pub struct FreeList {
    cells: Vec<usize>,
}

impl View for FreeList {
    type V = Seq<usize>;

    closed spec fn view(&self) -> Seq<usize> {
        self.cells@
    }
}

impl FreeList {
    /// An empty free list.
    pub fn null() -> (r: FreeList)
        ensures
            r@ == Seq::<usize>::empty(),
    {
        FreeList { cells: Vec::new() }
    }

    /// Whether any cell is free.
    pub fn has_head(&self) -> (r: bool)
        ensures
            r == (self@.len() > 0),
    {
        self.cells.len() > 0
    }

    /// The cell that the next pop hands out, if any.
    pub fn option_nn(&self) -> (r: Option<usize>)
        ensures
            r == (if self@.len() > 0 {
                Some(self@.last())
            } else {
                None::<usize>
            }),
    {
        if self.cells.len() > 0 {
            Some(self.cells[self.cells.len() - 1])
        } else {
            None
        }
    }

    /// Links `cell` in as the new head.
    pub fn push(&mut self, cell: usize)
        ensures
            final(self)@ == old(self)@.push(cell),
    {
        self.cells.push(cell);
    }

    /// Unlinks and returns the head.
    pub fn pop(&mut self) -> (r: usize)
        requires
            old(self)@.len() > 0,
        ensures
            r == old(self)@.last(),
            final(self)@ == old(self)@.drop_last(),
    {
        let r = self.cells[self.cells.len() - 1];
        self.cells.truncate(self.cells.len() - 1);
        proof {
            assert(self.cells@ =~= old(self).cells@.drop_last());
        }
        r
    }

    /// Drops every link.
    pub fn clear(&mut self)
        ensures
            final(self)@ == Seq::<usize>::empty(),
    {
        self.cells.clear();
    }
}

/// `a` is the address of a cell of stride `s` in the chunk that starts at `base`.
pub open spec fn in_chunk(a: int, base: int, s: int) -> bool {
    &&& base <= a
    &&& a + s <= base + CHUNK_SIZE
    &&& (a - base) % s == 0
}

/// `a` is a cell of stride `s` in one of the chunks that start at `bases`.
pub open spec fn cell_of(bases: Seq<usize>, s: int, a: int) -> bool {
    exists|i: int| 0 <= i < bases.len() && #[trigger] in_chunk(a, bases[i] as int, s)
}

/// A chunk may join `bases`: it is not at address zero, it is aligned, its end fits
/// in the address space, and it overlaps none of them.
pub open spec fn chunk_fits(bases: Seq<usize>, align: int, base: int) -> bool {
    &&& base > 0
    &&& base % align == 0
    &&& base + CHUNK_SIZE <= usize::MAX
    &&& forall|i: int| 0 <= i < bases.len() ==> chunks_disjoint(#[trigger] bases[i] as int, base)
}

/// A cell of some chunk stays a cell when a chunk is added.
proof fn lemma_cell_of_push(bases: Seq<usize>, s: int, a: int, b: usize)
    requires
        cell_of(bases, s, a),
    ensures
        cell_of(bases.push(b), s, a),
{
    let i = choose|i: int| 0 <= i < bases.len() && #[trigger] in_chunk(a, bases[i] as int, s);
    assert(bases.push(b)[i] == bases[i]);
}

/// A cell of the old chunks lies outside a chunk that overlaps none of them.
proof fn lemma_cell_outside(bases: Seq<usize>, s: int, a: int, b: int, align: int)
    requires
        cell_of(bases, s, a),
        chunk_fits(bases, align, b),
        s > 0,
    ensures
        !in_chunk(a, b, s),
{
    let i = choose|i: int| 0 <= i < bases.len() && #[trigger] in_chunk(a, bases[i] as int, s);
    assert(chunks_disjoint(bases[i] as int, b));
}

/// Two chunks do not overlap.
pub open spec fn chunks_disjoint(x: int, y: int) -> bool {
    x + CHUNK_SIZE <= y || y + CHUNK_SIZE <= x
}

/// What handing out a cell does to a bin, `r` being the cell handed out: the head
/// of the free stack if there is one, else the first cell of the bump tail, else
/// nothing, the bin unchanged. A cell handed out was not live and now is, and it
/// is a cell of the bin at the class's alignment.
pub open spec fn takes_cell(before: Bin, after: Bin, r: Option<usize>) -> bool {
    &&& after.class_index() == before.class_index()
    &&& after.chunk_bases() == before.chunk_bases()
    &&& before.free_stack().len() > 0 ==> {
        &&& r == Some(before.free_stack().last())
        &&& after.free_stack() == before.free_stack().drop_last()
        &&& after.bump_start() == before.bump_start()
        &&& after.bump_remaining() == before.bump_remaining()
    }
    &&& before.free_stack().len() == 0 && before.bump_remaining() > 0 ==> {
        &&& r == Some(before.bump_start() as usize)
        &&& after.free_stack() == before.free_stack()
        &&& after.bump_start() == before.bump_start() + before.stride()
        &&& after.bump_remaining() == before.bump_remaining() - before.stride()
    }
    &&& before.free_stack().len() == 0 && before.bump_remaining() == 0 ==> r is None && after
        == before
    &&& r matches Some(a) ==> {
        &&& !before.live_cells().contains(a as int)
        &&& after.live_cells() == before.live_cells().insert(a as int)
        &&& after.is_cell(a as int)
        &&& (a as int) % after.align() == 0
    }
}

/// What returning the live cell `a` to a bin does: it becomes the head of the free
/// stack and is no longer live.
pub open spec fn returns_cell(before: Bin, after: Bin, a: usize) -> bool {
    &&& after.class_index() == before.class_index()
    &&& after.chunk_bases() == before.chunk_bases()
    &&& after.free_stack() == before.free_stack().push(a)
    &&& after.live_cells() == before.live_cells().remove(a as int)
    &&& after.bump_start() == before.bump_start()
    &&& after.bump_remaining() == before.bump_remaining()
}

/// What offering a fresh chunk at `base` does to a bin. When the chunk fits it is
/// recorded, its first cell handed out as `r` and the rest becomes the bump tail;
/// otherwise `r` is `None` and the bin is unchanged.
pub open spec fn takes_chunk(before: Bin, after: Bin, base: usize, r: Option<usize>) -> bool {
    &&& after.class_index() == before.class_index()
    &&& r is Some <==> chunk_fits(before.chunk_bases(), before.align(), base as int)
    &&& r is None ==> after == before
    &&& r is Some ==> {
        &&& r == Some(base)
        &&& after.chunk_bases() == before.chunk_bases().push(base)
        &&& after.free_stack() == before.free_stack()
        &&& after.live_cells() == before.live_cells().insert(base as int)
        &&& after.bump_start() == base + before.stride()
        &&& after.bump_remaining() == CHUNK_SIZE - before.stride()
    }
}

/// One size class: its free stack, the unused tail of its newest chunk, and every
/// chunk it has taken, which it keeps until teardown.
pub struct Bin {
    class: usize,
    free_head: FreeList,
    bump_ptr: usize,
    bump_len: usize,
    chunks: Vec<usize>,
    live: Ghost<Set<int>>,
}

impl Bin {
    /// The size class this bin serves.
    pub closed spec fn class_index(&self) -> int {
        self.class as int
    }

    /// Free cells, most recently freed last.
    pub closed spec fn free_stack(&self) -> Seq<usize> {
        self.free_head@
    }

    /// Base addresses of the chunks taken so far, oldest first.
    pub closed spec fn chunk_bases(&self) -> Seq<usize> {
        self.chunks@
    }

    /// Cells handed out and not yet returned.
    pub closed spec fn live_cells(&self) -> Set<int> {
        self.live@
    }

    /// Start of the unused tail of the newest chunk.
    pub closed spec fn bump_start(&self) -> int {
        self.bump_ptr as int
    }

    /// Bytes left in the unused tail of the newest chunk.
    pub closed spec fn bump_remaining(&self) -> int {
        self.bump_len as int
    }

    /// The cell stride of this bin's class.
    pub open spec fn stride(&self) -> int {
        class_stride(self.class_index())
    }

    /// The alignment of this bin's class.
    pub open spec fn align(&self) -> int {
        class_align(self.class_index())
    }

    /// `a` is a cell of one of this bin's chunks.
    pub open spec fn is_cell(&self, a: int) -> bool {
        cell_of(self.chunk_bases(), self.stride(), a)
    }

    /// `a` is a cell of the newest chunk that the bump tail has not yet handed out.
    pub open spec fn unvended(&self, a: int) -> bool {
        &&& self.bump_remaining() > 0
        &&& a >= self.bump_start()
        &&& in_chunk(a, self.chunk_bases().last() as int, self.stride())
    }

    /// The bin's invariant.
    pub open spec fn wf(&self) -> bool {
        let bases = self.chunk_bases();
        let free = self.free_stack();
        let live = self.live_cells();
        &&& 0 <= self.class_index() < NUM_CLASSES
        &&& forall|i: int|
            #![trigger bases[i]]
            0 <= i < bases.len() ==> {
                &&& bases[i] > 0
                &&& (bases[i] as int) % self.align() == 0
                &&& bases[i] + CHUNK_SIZE <= usize::MAX
            }
        &&& forall|i: int, j: int|
            0 <= i < bases.len() && 0 <= j < bases.len() && i != j ==> chunks_disjoint(
                #[trigger] bases[i] as int,
                #[trigger] bases[j] as int,
            )
        &&& free.no_duplicates()
        &&& forall|k: int|
            0 <= k < free.len() ==> {
                &&& self.is_cell(#[trigger] free[k] as int)
                &&& !live.contains(free[k] as int)
                &&& (free[k] as int) % self.align() == 0
            }
        &&& forall|a: int|
            #[trigger] live.contains(a) ==> self.is_cell(a) && a % self.align() == 0
        &&& self.bump_remaining() % self.stride() == 0
        &&& self.bump_remaining() > 0 ==> {
            &&& bases.len() > 0
            &&& self.bump_start() + self.bump_remaining() == bases.last() + CHUNK_SIZE
            &&& self.bump_start() >= bases.last()
            &&& (self.bump_start() - bases.last()) % self.stride() == 0
            &&& self.bump_start() % self.align() == 0
        }
        &&& forall|a: int|
            #[trigger] self.unvended(a) ==> !live.contains(a) && !free.contains(a as usize)
    }

    /// An empty bin for class `class`.
    pub fn new(class: usize) -> (r: Bin)
        requires
            class < NUM_CLASSES,
        ensures
            r.wf(),
            r.class_index() == class,
            r.free_stack() == Seq::<usize>::empty(),
            r.chunk_bases() == Seq::<usize>::empty(),
            r.live_cells() == Set::<int>::empty(),
            r.bump_remaining() == 0,
    {
        proof {
            lemma_class_facts(class as int);
        }
        let r = Bin {
            class,
            free_head: FreeList::null(),
            bump_ptr: 0,
            bump_len: 0,
            chunks: Vec::new(),
            live: Ghost(Set::empty()),
        };
        assert(0int % r.stride() == 0) by (nonlinear_arith)
            requires
                r.stride() > 0,
        ;
        r
    }

    /// The class this bin serves.
    pub fn class(&self) -> (r: usize)
        ensures
            r == self.class_index(),
    {
        self.class
    }

    /// Hands out a cell: the head of the free stack if there is one, else the first
    /// cell of the bump tail. `None` when both are empty and a fresh chunk is needed.
    pub fn alloc_cell(&mut self) -> (r: Option<usize>)
        requires
            old(self).wf(),
        ensures
            final(self).wf(),
            takes_cell(*old(self), *final(self), r),
    {
        proof {
            lemma_class_facts(self.class as int);
        }
        if self.free_head.has_head() {
            let a = self.free_head.pop();
            proof {
                let old_free = old(self).free_head@;
                assert(old_free[old_free.len() - 1] == a);
                assert(old(self).is_cell(old_free[old_free.len() - 1] as int));
                self.live@ = self.live@.insert(a as int);
                assert forall|k: int| 0 <= k < self.free_head@.len() implies {
                    &&& self.is_cell(#[trigger] self.free_head@[k] as int)
                    &&& !self.live@.contains(self.free_head@[k] as int)
                    &&& (self.free_head@[k] as int) % self.align() == 0
                } by {
                    assert(self.free_head@[k] == old_free[k]);
                    assert(old_free[k] != old_free[old_free.len() - 1]);
                }
                assert forall|x: int| #[trigger] self.unvended(x) implies !self.live@.contains(
                    x,
                ) && !self.free_head@.contains(x as usize) by {
                    assert(old(self).unvended(x));
                    if self.free_head@.contains(x as usize) {
                        let k = choose|k: int|
                            0 <= k < self.free_head@.len() && self.free_head@[k] == x as usize;
                        assert(old_free[k] == x as usize);
                    }
                    if x == a as int {
                        assert(old_free.contains(a));
                    }
                }
                assert(self.is_cell(a as int));
            }
            Some(a)
        } else {
            let s = stride_of_class(self.class);
            if self.bump_len >= s {
                let a = self.bump_ptr;
                proof {
                    let last = self.chunks@.last() as int;
                    let n = self.chunks@.len() as int;
                    assert(self.chunks@[n - 1] as int == last);
                    assert(in_chunk(a as int, self.chunks@[n - 1] as int, s as int));
                    assert(self.unvended(a as int));
                }
                self.bump_ptr = self.bump_ptr + s;
                self.bump_len = self.bump_len - s;
                proof {
                    let last = self.chunks@.last() as int;
                    self.live@ = self.live@.insert(a as int);
                    lemma_mod_diff_zero(old(self).bump_len as int, s as int, s as int);
                    assert((s as int) % (s as int) == 0) by (nonlinear_arith)
                        requires
                            s > 0,
                    ;
                    lemma_mod_sum_zero(a - last, s as int, s as int);
                    lemma_mod_sum_zero(a as int, s as int, self.align());
                    assert forall|x: int| #[trigger] self.unvended(x) implies !self.live@.contains(
                        x,
                    ) && !self.free_head@.contains(x as usize) by {
                        assert(old(self).unvended(x));
                    }
                    assert(self.is_cell(a as int));
                    assert forall|x: int| #[trigger] self.live_cells().contains(x) implies self.is_cell(
                        x,
                    ) && x % self.align() == 0 by {
                        if x != a as int {
                            assert(old(self).live_cells().contains(x));
                        }
                    }
                }
                Some(a)
            } else {
                proof {
                    if self.bump_len > 0 {
                        assert((self.bump_len as int) % (s as int) == self.bump_len as int)
                            by (nonlinear_arith)
                            requires
                                0 < self.bump_len < s,
                        ;
                    }
                }
                None
            }
        }
    }

    /// Returns a live cell to the head of the free stack.
    pub fn dealloc(&mut self, a: usize)
        requires
            old(self).wf(),
            old(self).live_cells().contains(a as int),
        ensures
            final(self).wf(),
            returns_cell(*old(self), *final(self), a),
    {
        self.free_head.push(a);
        proof {
            let old_free = old(self).free_head@;
            self.live@ = self.live@.remove(a as int);
            assert(!old_free.contains(a));
            assert forall|k: int| 0 <= k < self.free_head@.len() implies {
                &&& self.is_cell(#[trigger] self.free_head@[k] as int)
                &&& !self.live@.contains(self.free_head@[k] as int)
                &&& (self.free_head@[k] as int) % self.align() == 0
            } by {
                if k < old_free.len() {
                    assert(self.free_head@[k] == old_free[k]);
                }
            }
            assert forall|x: int| #[trigger] self.unvended(x) implies !self.live@.contains(x)
                && !self.free_head@.contains(x as usize) by {
                assert(old(self).unvended(x));
                if self.free_head@.contains(x as usize) {
                    let k = choose|k: int|
                        0 <= k < self.free_head@.len() && self.free_head@[k] == x as usize;
                    if k < old_free.len() {
                        assert(old_free[k] == x as usize);
                    }
                }
            }
        }
    }

    /// Whether a chunk at `base` may join this bin.
    pub fn chunk_fits_at(&self, base: usize) -> (r: bool)
        requires
            self.wf(),
        ensures
            r == chunk_fits(self.chunk_bases(), self.align(), base as int),
    {
        let align = align_of_class(self.class);
        if base == 0 || base % align != 0 || base > usize::MAX - CHUNK_SIZE {
            return false;
        }
        let mut i: usize = 0;
        while i < self.chunks.len()
            invariant
                i <= self.chunks@.len(),
                base + CHUNK_SIZE <= usize::MAX,
                forall|j: int| 0 <= j < i ==> chunks_disjoint(#[trigger] self.chunks@[j] as int, base as int),
                self.wf(),
            decreases self.chunks@.len() - i,
        {
            let c = self.chunks[i];
            assert(self.chunk_bases()[i as int] + CHUNK_SIZE <= usize::MAX);
            if !(c + CHUNK_SIZE <= base || base + CHUNK_SIZE <= c) {
                return false;
            }
            i = i + 1;
        }
        true
    }

    /// Takes a fresh chunk at `base`: records it, hands out its first cell and
    /// makes the rest of it the bump tail. `None`, with the bin unchanged, when the
    /// chunk may not join (see `chunk_fits`).
    pub fn add_chunk(&mut self, base: usize) -> (r: Option<usize>)
        requires
            old(self).wf(),
        ensures
            final(self).wf(),
            takes_chunk(*old(self), *final(self), base, r),
    {
        if !self.chunk_fits_at(base) {
            return None;
        }
        proof {
            lemma_class_facts(self.class as int);
        }
        let s = stride_of_class(self.class);
        let ghost old_bases = self.chunks@;
        let ghost al = self.align();
        self.chunks.push(base);
        self.bump_ptr = base + s;
        self.bump_len = CHUNK_SIZE - s;
        proof {
            let si = s as int;
            let b = base as int;
            self.live@ = self.live@.insert(b);
            assert(si % si == 0 && 0int % si == 0) by (nonlinear_arith)
                requires
                    si > 0,
            ;
            assert(in_chunk(b, self.chunks@[old_bases.len() as int] as int, si));
            assert(self.is_cell(b));
            lemma_mod_diff_zero(CHUNK_SIZE as int, si, si);
            lemma_mod_sum_zero(b, si, al);
            assert forall|i: int| #![trigger self.chunks@[i]] 0 <= i < self.chunks@.len() implies {
                &&& self.chunks@[i] > 0
                &&& (self.chunks@[i] as int) % al == 0
                &&& self.chunks@[i] + CHUNK_SIZE <= usize::MAX
            } by {
                if i < old_bases.len() {
                    assert(self.chunks@[i] == old_bases[i]);
                }
            }
            assert forall|i: int, j: int|
                0 <= i < self.chunks@.len() && 0 <= j < self.chunks@.len() && i != j implies chunks_disjoint(
                #[trigger] self.chunks@[i] as int,
                #[trigger] self.chunks@[j] as int,
            ) by {
                if i < old_bases.len() {
                    assert(self.chunks@[i] == old_bases[i]);
                }
                if j < old_bases.len() {
                    assert(self.chunks@[j] == old_bases[j]);
                }
            }
            assert forall|k: int| 0 <= k < self.free_head@.len() implies {
                &&& self.is_cell(#[trigger] self.free_head@[k] as int)
                &&& !self.live@.contains(self.free_head@[k] as int)
                &&& (self.free_head@[k] as int) % self.align() == 0
            } by {
                let x = self.free_head@[k] as int;
                assert(old(self).is_cell(x));
                lemma_cell_of_push(old_bases, si, x, base);
                lemma_cell_outside(old_bases, si, x, b, al);
            }
            assert forall|x: int| #[trigger] self.live@.contains(x) implies self.is_cell(x) && x % self.align() == 0 by {
                if x != b {
                    assert(old(self).live_cells().contains(x));
                    lemma_cell_of_push(old_bases, si, x, base);
                }
            }
            assert forall|x: int| #[trigger] self.unvended(x) implies !self.live@.contains(x)
                && !self.free_head@.contains(x as usize) by {
                assert(self.chunks@.last() == base);
                if old(self).live_cells().contains(x) {
                    lemma_cell_outside(old_bases, si, x, b, al);
                }
                if self.free_head@.contains(x as usize) {
                    let k = choose|k: int|
                        0 <= k < self.free_head@.len() && self.free_head@[k] == x as usize;
                    assert(old(self).is_cell(self.free_head@[k] as int));
                    lemma_cell_outside(old_bases, si, x, b, al);
                }
            }
        }
        Some(base)
    }

    /// Teardown: forgets every cell and hands back the bases of all chunks ever
    /// taken, oldest first, so that they can be unmapped.
    pub fn free_all(&mut self) -> (r: Vec<usize>)
        requires
            old(self).wf(),
        ensures
            final(self).wf(),
            final(self).class_index() == old(self).class_index(),
            r@ == old(self).chunk_bases(),
            final(self).free_stack() == Seq::<usize>::empty(),
            final(self).chunk_bases() == Seq::<usize>::empty(),
            final(self).live_cells() == Set::<int>::empty(),
            final(self).bump_remaining() == 0,
    {
        proof {
            lemma_class_facts(self.class as int);
        }
        self.free_head.clear();
        self.bump_ptr = 0;
        self.bump_len = 0;
        self.live = Ghost(Set::empty());
        let mut r: Vec<usize> = Vec::new();
        core::mem::swap(&mut r, &mut self.chunks);
        proof {
            let si = self.stride();
            assert(0int % si == 0) by (nonlinear_arith)
                requires
                    si > 0,
            ;
        }
        r
    }
}

/// In a well-formed bin, two distinct cells occupy disjoint byte ranges, and each
/// lies inside one recorded chunk. Every operation on a bin keeps it well formed,
/// so this holds of the live and free cells after any sequence of operations.
pub proof fn lemma_cells_disjoint(bin: &Bin, a: int, b: int)
    requires
        bin.wf(),
        bin.is_cell(a),
        bin.is_cell(b),
        a != b,
    ensures
        a + bin.stride() <= b || b + bin.stride() <= a,
        exists|i: int|
            0 <= i < bin.chunk_bases().len() && bin.chunk_bases()[i] <= a && a + bin.stride()
                <= bin.chunk_bases()[i] + CHUNK_SIZE,
{
    lemma_class_facts(bin.class_index());
    let bases = bin.chunk_bases();
    let s = bin.stride();
    let i = choose|i: int| 0 <= i < bases.len() && #[trigger] in_chunk(a, bases[i] as int, s);
    let j = choose|j: int| 0 <= j < bases.len() && #[trigger] in_chunk(b, bases[j] as int, s);
    if i == j {
        lemma_multiples_apart(a - bases[i], b - bases[i], s);
    } else {
        assert(chunks_disjoint(bases[i] as int, bases[j] as int));
    }
}

/// Cells handed out again by successive pops of a free stack, first popped first.
pub open spec fn handed_out(stack: Seq<usize>, n: nat) -> Seq<usize>
    decreases n,
{
    if n == 0 || stack.len() == 0 {
        Seq::empty()
    } else {
        seq![stack.last()].add(handed_out(stack.drop_last(), (n - 1) as nat))
    }
}

/// Cells returned to a bin one after another, on top of a free stack `free`, are
/// exactly the next ones handed out, last returned first; so the same set of
/// addresses comes back.
pub proof fn lemma_reuse(free: Seq<usize>, returned: Seq<usize>)
    ensures
        handed_out(free + returned, returned.len()) == returned.reverse(),
        handed_out(free + returned, returned.len()).to_set() == returned.to_set(),
    decreases returned.len(),
{
    if returned.len() > 0 {
        let rest = returned.drop_last();
        assert((free + returned).drop_last() =~= free + rest);
        lemma_reuse(free, rest);
        assert(returned.reverse() =~= seq![returned.last()].add(rest.reverse()));
    } else {
        assert(returned.reverse() =~= Seq::<usize>::empty());
    }
    lemma_reverse_to_set(returned);
}

/// Reversing a sequence keeps its set of elements.
proof fn lemma_reverse_to_set(s: Seq<usize>)
    ensures
        s.reverse().to_set() == s.to_set(),
{
    assert forall|x: usize| s.reverse().to_set().contains(x) <==> s.to_set().contains(x) by {
        if s.to_set().contains(x) {
            let i = choose|i: int| 0 <= i < s.len() && s[i] == x;
            assert(s.reverse()[s.len() - 1 - i] == x);
        }
        if s.reverse().to_set().contains(x) {
            let i = choose|i: int| 0 <= i < s.len() && s.reverse()[i] == x;
            assert(s[s.len() - 1 - i] == x);
        }
    }
    assert(s.reverse().to_set() =~= s.to_set());
}

} // verus!
