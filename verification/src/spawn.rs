use vstd::prelude::*;

verus! {

/// `r` is the integer square root of `n`: the largest `r` with `r * r <= n`.
pub open spec fn is_isqrt(n: int, r: int) -> bool {
    &&& 0 <= r
    &&& r * r <= n
    &&& n < (r + 1) * (r + 1)
}

/// `m <= n / m` exactly when `m * m <= n`, for positive `m`.
proof fn lemma_le_div_iff_square(m: int, n: int)
    requires
        m > 0,
        n >= 0,
    ensures
        (m <= n / m) <==> (m * m <= n),
{
    vstd::arithmetic::div_mod::lemma_fundamental_div_mod(n, m);
    let q = n / m;
    let r = n % m;
    assert(0 <= r < m);
    assert(n == m * q + r);
    if m <= q {
        assert(m * m <= m * q) by (nonlinear_arith)
            requires
                m <= q,
                m > 0,
        ;
    } else {
        assert(m * (q + 1) <= m * m && m * (q + 1) == m * q + m) by (nonlinear_arith)
            requires
                q + 1 <= m,
                m > 0,
        ;
    }
}

/// The integer square root of `n` (as `n.isqrt()` gives it): the number of
/// particles per row of the spawn grid.
pub fn isqrt(n: usize) -> (r: usize)
    ensures
        is_isqrt(n as int, r as int),
{
    let mut lo: usize = 0;
    let mut hi: usize = n / 2 + 2;
    proof {
        assert((n / 2 + 2) * (n / 2 + 2) > n) by (nonlinear_arith)
            requires
                n >= 0,
        ;
    }
    while hi - lo > 1
        invariant
            lo < hi,
            hi <= n / 2 + 2,
            lo * lo <= n,
            n < hi * hi,
        decreases hi - lo,
    {
        let mid = lo + (hi - lo) / 2;
        proof {
            lemma_le_div_iff_square(mid as int, n as int);
        }
        if mid <= n / mid {
            lo = mid;
        } else {
            hi = mid;
        }
    }
    lo
}

/// The integer square root is the only one.
pub proof fn lemma_isqrt_unique(n: int, r1: int, r2: int)
    requires
        is_isqrt(n, r1),
        is_isqrt(n, r2),
    ensures
        r1 == r2,
{
    if r1 < r2 {
        assert((r1 + 1) * (r1 + 1) <= r2 * r2) by (nonlinear_arith)
            requires
                0 <= r1 < r2,
        ;
    } else if r2 < r1 {
        assert((r2 + 1) * (r2 + 1) <= r1 * r1) by (nonlinear_arith)
            requires
                0 <= r2 < r1,
        ;
    }
}

} // verus!
