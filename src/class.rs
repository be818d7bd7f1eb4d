use crate::layout::{is_pow2, round_up};
use vstd::arithmetic::div_mod::{lemma_fundamental_div_mod, lemma_mod_multiples_basic};
use vstd::prelude::*;

verus! {

/// Number of size classes served by bins.
pub const NUM_CLASSES: usize = 15;

/// Bytes in one chunk taken from the page allocator.
pub const CHUNK_SIZE: usize = 0x10000;

/// The largest alignment the heap honours.
pub const MAX_ALIGN: usize = 0x1000;

/// Size in bytes of the cells of class `c`.
pub open spec fn class_size(c: int) -> int {
    if c == 0 {
        4
    } else if c == 1 {
        8
    } else if c == 2 {
        16
    } else if c == 3 {
        32
    } else if c == 4 {
        64
    } else if c == 5 {
        128
    } else if c == 6 {
        256
    } else if c == 7 {
        512
    } else if c == 8 {
        1024
    } else if c == 9 {
        2048
    } else if c == 10 {
        4096
    } else if c == 11 {
        8192
    } else if c == 12 {
        16384
    } else if c == 13 {
        32768
    } else {
        65536
    }
}

/// Alignment guaranteed for the cells of class `c`.
pub open spec fn class_align(c: int) -> int {
    if c == 0 {
        8
    } else if c == 1 {
        4
    } else if class_size(c) < 4096 {
        class_size(c)
    } else {
        4096
    }
}

/// Distance between two neighbouring cells of class `c` in a chunk: the cell size,
/// raised to the alignment where the alignment is the larger.
pub open spec fn class_stride(c: int) -> int {
    if class_size(c) < class_align(c) {
        class_align(c)
    } else {
        class_size(c)
    }
}

/// The class that serves a padded size of `p` bytes: the first whose cells hold it.
pub open spec fn serves(c: int, p: int) -> bool {
    &&& 0 <= c < NUM_CLASSES
    &&& p <= class_size(c)
    &&& (c == 0 || class_size(c - 1) < p)
}

/// Size of the cells of class `c`.
pub fn size_of_class(c: usize) -> (r: usize)
    requires
        c < NUM_CLASSES,
    ensures
        r == class_size(c as int),
{
    if c == 0 {
        4
    } else if c == 1 {
        8
    } else if c == 2 {
        16
    } else if c == 3 {
        32
    } else if c == 4 {
        64
    } else if c == 5 {
        128
    } else if c == 6 {
        256
    } else if c == 7 {
        512
    } else if c == 8 {
        1024
    } else if c == 9 {
        2048
    } else if c == 10 {
        4096
    } else if c == 11 {
        8192
    } else if c == 12 {
        16384
    } else if c == 13 {
        32768
    } else {
        65536
    }
}

/// Alignment of the cells of class `c`.
pub fn align_of_class(c: usize) -> (r: usize)
    requires
        c < NUM_CLASSES,
    ensures
        r == class_align(c as int),
{
    if c == 0 {
        8
    } else if c == 1 {
        4
    } else {
        let s = size_of_class(c);
        if s < MAX_ALIGN {
            s
        } else {
            MAX_ALIGN
        }
    }
}

/// Distance between neighbouring cells of class `c`.
pub fn stride_of_class(c: usize) -> (r: usize)
    requires
        c < NUM_CLASSES,
    ensures
        r == class_stride(c as int),
{
    let s = size_of_class(c);
    let a = align_of_class(c);
    if s < a {
        a
    } else {
        s
    }
}

/// Facts about every class: sizes grow, strides are multiples of the alignment
/// and divide a chunk.
pub proof fn lemma_class_facts(c: int)
    requires
        0 <= c < NUM_CLASSES,
    ensures
        class_size(c) <= class_stride(c),
        0 < class_align(c) <= MAX_ALIGN,
        class_stride(c) % class_align(c) == 0,
        (CHUNK_SIZE as int) % class_stride(c) == 0,
        (CHUNK_SIZE as int) % class_align(c) == 0,
        class_stride(c) <= CHUNK_SIZE,
        c > 0 ==> class_size(c - 1) < class_size(c),
{
    if c == 0 {
        assert(class_stride(c) == 8 && class_align(c) == 8);
        assert(8int % 8int == 0 && 65536int % 8int == 0 && 65536int % 8int == 0) by (nonlinear_arith);
    } else if c == 1 {
        assert(class_stride(c) == 8 && class_align(c) == 4);
        assert(8int % 4int == 0 && 65536int % 8int == 0 && 65536int % 4int == 0) by (nonlinear_arith);
    } else if c == 2 {
        assert(class_stride(c) == 16 && class_align(c) == 16);
        assert(16int % 16int == 0 && 65536int % 16int == 0 && 65536int % 16int == 0) by (nonlinear_arith);
    } else if c == 3 {
        assert(class_stride(c) == 32 && class_align(c) == 32);
        assert(32int % 32int == 0 && 65536int % 32int == 0 && 65536int % 32int == 0) by (nonlinear_arith);
    } else if c == 4 {
        assert(class_stride(c) == 64 && class_align(c) == 64);
        assert(64int % 64int == 0 && 65536int % 64int == 0 && 65536int % 64int == 0) by (nonlinear_arith);
    } else if c == 5 {
        assert(class_stride(c) == 128 && class_align(c) == 128);
        assert(128int % 128int == 0 && 65536int % 128int == 0 && 65536int % 128int == 0) by (nonlinear_arith);
    } else if c == 6 {
        assert(class_stride(c) == 256 && class_align(c) == 256);
        assert(256int % 256int == 0 && 65536int % 256int == 0 && 65536int % 256int == 0) by (nonlinear_arith);
    } else if c == 7 {
        assert(class_stride(c) == 512 && class_align(c) == 512);
        assert(512int % 512int == 0 && 65536int % 512int == 0 && 65536int % 512int == 0) by (nonlinear_arith);
    } else if c == 8 {
        assert(class_stride(c) == 1024 && class_align(c) == 1024);
        assert(1024int % 1024int == 0 && 65536int % 1024int == 0 && 65536int % 1024int == 0) by (nonlinear_arith);
    } else if c == 9 {
        assert(class_stride(c) == 2048 && class_align(c) == 2048);
        assert(2048int % 2048int == 0 && 65536int % 2048int == 0 && 65536int % 2048int == 0) by (nonlinear_arith);
    } else if c == 10 {
        assert(class_stride(c) == 4096 && class_align(c) == 4096);
        assert(4096int % 4096int == 0 && 65536int % 4096int == 0 && 65536int % 4096int == 0) by (nonlinear_arith);
    } else if c == 11 {
        assert(class_stride(c) == 8192 && class_align(c) == 4096);
        assert(8192int % 4096int == 0 && 65536int % 8192int == 0 && 65536int % 4096int == 0) by (nonlinear_arith);
    } else if c == 12 {
        assert(class_stride(c) == 16384 && class_align(c) == 4096);
        assert(16384int % 4096int == 0 && 65536int % 16384int == 0 && 65536int % 4096int == 0) by (nonlinear_arith);
    } else if c == 13 {
        assert(class_stride(c) == 32768 && class_align(c) == 4096);
        assert(32768int % 4096int == 0 && 65536int % 32768int == 0 && 65536int % 4096int == 0) by (nonlinear_arith);
    } else {
        assert(class_stride(c) == 65536 && class_align(c) == 4096);
        assert(65536int % 4096int == 0 && 65536int % 65536int == 0 && 65536int % 4096int == 0) by (nonlinear_arith);
    }
}

/// The class that serves a padded size, or `None` above the largest class.
pub fn class_for_size(p: usize) -> (r: Option<usize>)
    ensures
        r matches Some(c) ==> serves(c as int, p as int),
        r is None <==> p > CHUNK_SIZE,
{
    let mut c: usize = 0;
    while c < NUM_CLASSES
        invariant
            c <= NUM_CLASSES,
            c > 0 ==> class_size(c - 1) < p,
        decreases NUM_CLASSES - c,
    {
        if p <= size_of_class(c) {
            return Some(c);
        }
        c = c + 1;
    }
    None
}

/// At most one class serves a given padded size.
pub proof fn lemma_serves_unique(c1: int, c2: int, p: int)
    requires
        serves(c1, p),
        serves(c2, p),
    ensures
        c1 == c2,
{
    if c1 < c2 {
        lemma_sizes_monotone(c1, c2 - 1);
    } else if c2 < c1 {
        lemma_sizes_monotone(c2, c1 - 1);
    }
}

/// Class sizes do not decrease.
pub proof fn lemma_sizes_monotone(a: int, b: int)
    requires
        0 <= a <= b < NUM_CLASSES,
    ensures
        class_size(a) <= class_size(b),
    decreases b - a,
{
    if a < b {
        lemma_sizes_monotone(a, b - 1);
    }
}

/// A power of two divides every larger power of two.
pub proof fn lemma_pow2_divides(a: nat, b: nat)
    requires
        is_pow2(a),
        is_pow2(b),
        a <= b,
    ensures
        b % a == 0,
    decreases a,
{
    if a <= 1 {
        assert(b % 1 == 0);
    } else {
        assert(b > 1);
        let ha = a / 2;
        let hb = b / 2;
        lemma_pow2_divides(ha, hb);
        lemma_fundamental_div_mod(hb as int, ha as int);
        let q = hb as int / ha as int;
        assert(b as int == q * (a as int)) by (nonlinear_arith)
            requires
                hb as int == (ha as int) * q + 0,
                a == 2 * ha,
                b == 2 * hb,
        ;
        lemma_mod_multiples_basic(q, a as int);
    }
}

/// A padded size is a multiple of the alignment.
pub proof fn lemma_round_up_multiple(n: nat, a: nat)
    requires
        a > 0,
    ensures
        round_up(n, a) % a == 0,
{
    if n % a != 0 {
        lemma_fundamental_div_mod(n as int, a as int);
        let q = n as int / a as int;
        assert(round_up(n, a) as int == (q + 1) * (a as int)) by (nonlinear_arith)
            requires
                n as int == (a as int) * q + (n as int % a as int),
                round_up(n, a) as int == n as int + (a as int - n as int % a as int),
        ;
        lemma_mod_multiples_basic(q + 1, a as int);
    }
}

/// The alignment of every class is a power of two.
pub proof fn lemma_class_align_pow2(c: int)
    requires
        0 <= c < NUM_CLASSES,
    ensures
        is_pow2(class_align(c) as nat),
{
    reveal_with_fuel(is_pow2, 14);
}

/// A request whose padded size class `c` serves gets the class's alignment, and
/// that alignment is a multiple of the one requested. Two corners fall outside:
/// a zero-sized request aligned above 8 bytes, served by the first class, and an
/// 8-byte-aligned request served by the second class, whose cells are aligned
/// to 4 bytes.
pub proof fn lemma_class_alignment_covers(size: usize, align: usize, c: int)
    requires
        is_pow2(align as nat),
        align <= MAX_ALIGN,
        serves(c, round_up(size as nat, align as nat) as int),
        !(round_up(size as nat, align as nat) == 0 && align > 8),
        !(c == 1 && align == 8),
    ensures
        class_align(c) % (align as int) == 0,
        class_align(c) >= align,
{
    let p = round_up(size as nat, align as nat);
    let a = align as nat;
    reveal_with_fuel(is_pow2, 14);
    lemma_class_align_pow2(c);
    assert(a >= 1);
    lemma_round_up_multiple(size as nat, a);
    if p > 0 {
        lemma_fundamental_div_mod(p as int, a as int);
        assert(p >= a) by (nonlinear_arith)
            requires
                p as int == (a as int) * (p as int / a as int),
                p > 0,
                a >= 1,
        ;
    }
    if c == 1 {
        assert(a <= 8);
        assert(a != 5 && a != 6 && a != 7);
    }
    lemma_pow2_divides(a, class_align(c) as nat);
}

} // verus!
