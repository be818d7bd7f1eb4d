use vstd::arithmetic::div_mod::{
    lemma_fundamental_div_mod, lemma_mod_adds, lemma_mod_multiples_basic,
};
use vstd::prelude::*;

verus! {

/// The sum of two multiples of `m` is a multiple of `m`.
pub proof fn lemma_mod_sum_zero(x: int, y: int, m: int)
    requires
        m > 0,
        x % m == 0,
        y % m == 0,
    ensures
        (x + y) % m == 0,
{
    lemma_mod_adds(x, y, m);
}

/// Two distinct offsets that are both multiples of `m` lie at least `m` apart.
pub proof fn lemma_multiples_apart(x: int, y: int, m: int)
    requires
        m > 0,
        x % m == 0,
        y % m == 0,
        x != y,
    ensures
        x + m <= y || y + m <= x,
{
    lemma_fundamental_div_mod(x, m);
    lemma_fundamental_div_mod(y, m);
    let qx = x / m;
    let qy = y / m;
    assert(x == m * qx);
    assert(y == m * qy);
    if qx < qy {
        assert(m * qx + m <= m * qy) by (nonlinear_arith)
            requires
                qx + 1 <= qy,
                m > 0,
        ;
    } else {
        assert(qy < qx);
        assert(m * qy + m <= m * qx) by (nonlinear_arith)
            requires
                qy + 1 <= qx,
                m > 0,
        ;
    }
}

/// The difference of two multiples of `m` is a multiple of `m`.
pub proof fn lemma_mod_diff_zero(x: int, y: int, m: int)
    requires
        m > 0,
        x % m == 0,
        y % m == 0,
    ensures
        (x - y) % m == 0,
{
    lemma_fundamental_div_mod(x, m);
    lemma_fundamental_div_mod(y, m);
    let k = x / m - y / m;
    assert(x - y == k * m) by (nonlinear_arith)
        requires
            x == m * (x / m),
            y == m * (y / m),
            k == x / m - y / m,
    ;
    lemma_mod_multiples_basic(k, m);
}

} // verus!
