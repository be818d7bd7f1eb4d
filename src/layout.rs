use vstd::prelude::*;

verus! {

/// True when `a` is a power of two.
pub open spec fn is_pow2(a: nat) -> bool
    decreases a,
{
    if a <= 1 {
        a == 1
    } else {
        a % 2 == 0 && is_pow2(a / 2)
    }
}

/// `n` rounded up to the next multiple of `a`.
pub open spec fn round_up(n: nat, a: nat) -> nat
    recommends
        a > 0,
{
    if n % a == 0 {
        n
    } else {
        n + (a - n % a) as nat
    }
}

/// The largest size a layout may reach once padded.
pub const MAX_LAYOUT_SIZE: usize = usize::MAX / 2;

/// Tests whether `a` is a power of two.
pub fn is_power_of_two(a: usize) -> (r: bool)
    ensures
        r == is_pow2(a as nat),
{
    let mut x: usize = a;
    while x > 1 && x % 2 == 0
        invariant
            is_pow2(x as nat) == is_pow2(a as nat),
        decreases x,
    {
        x = x / 2;
    }
    x == 1
}

/// `n` rounded up to a multiple of `a`, or `None` when that passes `limit`.
pub fn round_up_within(n: usize, a: usize, limit: usize) -> (r: Option<usize>)
    requires
        a > 0,
        limit <= MAX_LAYOUT_SIZE,
    ensures
        r == (if round_up(n as nat, a as nat) <= limit {
            Some(round_up(n as nat, a as nat) as usize)
        } else {
            None::<usize>
        }),
{
    let rem = n % a;
    if rem == 0 {
        if n <= limit {
            Some(n)
        } else {
            None
        }
    } else {
        let pad = a - rem;
        if n > limit || pad > limit - n {
            None
        } else {
            Some(n + pad)
        }
    }
}

/// The size and alignment of a block of memory.
#[derive(Clone, Copy, Debug, PartialEq, Eq, Structural)]
pub struct MemLayout {
    pub size: usize,
    pub align: usize,
}

impl MemLayout {
    /// The size rounded up to a multiple of the alignment.
    pub open spec fn padded(self) -> nat {
        round_up(self.size as nat, self.align as nat)
    }

    /// The alignment is a power of two and the padded size fits in an `isize`.
    pub open spec fn wf(self) -> bool {
        &&& is_pow2(self.align as nat)
        &&& self.padded() <= MAX_LAYOUT_SIZE
    }

    /// Builds a layout, or `None` where the alignment is no power of two or the
    /// padded size does not fit in an `isize`.
    pub fn from_size_align(size: usize, align: usize) -> (r: Option<MemLayout>)
        ensures
            r is Some <==> (is_pow2(align as nat) && round_up(size as nat, align as nat)
                <= MAX_LAYOUT_SIZE),
            r matches Some(l) ==> l.wf() && l.size == size && l.align == align,
    {
        if !is_power_of_two(align) {
            return None;
        }
        match round_up_within(size, align, MAX_LAYOUT_SIZE) {
            Some(_) => Some(MemLayout { size, align }),
            None => None,
        }
    }

    /// The size padded to the alignment.
    pub fn pad_to_align(&self) -> (r: usize)
        requires
            self.wf(),
        ensures
            r == self.padded(),
    {
        proof {
            lemma_pow2_pos(self.align as nat);
        }
        let rem = self.size % self.align;
        if rem == 0 {
            self.size
        } else {
            self.size + (self.align - rem)
        }
    }
}

/// A power of two is positive.
pub proof fn lemma_pow2_pos(a: nat)
    requires
        is_pow2(a),
    ensures
        a >= 1,
{
}

} // verus!
