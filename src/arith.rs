use vstd::prelude::*;

verus! {

/// Floor division by a positive divisor, rounding toward negative infinity.
pub fn floor_div(a: i128, q: i128) -> (r: i128)
    requires
        q > 0,
        -0x4000_0000_0000_0000_0000_0000_0000_0000 <= a <= 0x4000_0000_0000_0000_0000_0000_0000_0000,
    ensures
        r == a / q,
        0 <= a ==> 0 <= r <= a,
        a < 0 ==> a <= r < 0,
{
    proof {
        lemma_div_shrinks(a as int, q as int);
    }
    assert(-0x4000_0000_0000_0000_0000_0000_0000_0000 <= a / q <= 0x4000_0000_0000_0000_0000_0000_0000_0000)
        by (nonlinear_arith)
        requires
            q > 0,
            -0x4000_0000_0000_0000_0000_0000_0000_0000 <= a <= 0x4000_0000_0000_0000_0000_0000_0000_0000,
    ;
    match a.checked_div_euclid(q) {
        Some(r) => r,
        None => 0,
    }
}

/// Floor division by a positive divisor does not grow the magnitude.
pub proof fn lemma_div_shrinks(a: int, q: int)
    requires
        q > 0,
    ensures
        0 <= a ==> 0 <= a / q <= a,
        a < 0 ==> a <= a / q < 0,
{
    assert(0 <= a ==> 0 <= a / q <= a) by (nonlinear_arith)
        requires
            q > 0,
    ;
    assert(a < 0 ==> a <= a / q < 0) by (nonlinear_arith)
        requires
            q > 0,
    ;
}

/// Division by a positive divisor, rounding toward positive infinity.
pub open spec fn ceil_div(a: int, q: int) -> int {
    -((-a) / q)
}

/// The integer square root: the largest `r` with `r * r <= n`.
pub open spec fn is_isqrt(n: int, r: int) -> bool {
    0 <= r && r * r <= n < (r + 1) * (r + 1)
}

/// The integer square root of a non-negative `n`.
pub open spec fn root(n: int) -> int {
    choose|r: int| is_isqrt(n, r)
}

/// At most one integer is the integer square root of `n`.
pub proof fn lemma_isqrt_unique(n: int, r1: int, r2: int)
    requires
        is_isqrt(n, r1),
        is_isqrt(n, r2),
    ensures
        r1 == r2,
{
    if r1 < r2 {
        assert((r1 + 1) * (r1 + 1) <= r2 * r2) by (nonlinear_arith)
            requires
                0 <= r1 + 1 <= r2,
        ;
    } else if r2 < r1 {
        assert((r2 + 1) * (r2 + 1) <= r1 * r1) by (nonlinear_arith)
            requires
                0 <= r2 + 1 <= r1,
        ;
    }
}

/// `root(n)` is the integer square root whenever one is known.
pub proof fn lemma_root_is(n: int, r: int)
    requires
        is_isqrt(n, r),
    ensures
        root(n) == r,
{
    lemma_isqrt_unique(n, root(n), r);
}

/// Every non-negative integer has an integer square root.
pub proof fn lemma_root_exists(n: int)
    requires
        0 <= n,
    ensures
        is_isqrt(n, root(n)),
    decreases n,
{
    if n == 0 {
        assert(is_isqrt(0, 0));
        lemma_root_is(0, 0);
    } else {
        lemma_root_exists(n - 1);
        let r = root(n - 1);
        if (r + 1) * (r + 1) <= n {
            assert(n < (r + 2) * (r + 2)) by (nonlinear_arith)
                requires
                    n - 1 < (r + 1) * (r + 1),
                    0 <= r,
            ;
            assert(is_isqrt(n, r + 1));
            lemma_root_is(n, r + 1);
        } else {
            assert(is_isqrt(n, r));
            lemma_root_is(n, r);
        }
    }
}

/// Floor division brackets its dividend.
pub proof fn lemma_floor_bounds(a: int, q: int)
    requires
        q > 0,
    ensures
        q * (a / q) <= a < q * (a / q) + q,
{
    assert(q * (a / q) <= a < q * (a / q) + q) by (nonlinear_arith)
        requires
            q > 0,
    ;
}

/// Integer square root of `n`, found by bisection.
pub fn isqrt(n: i128) -> (r: i128)
    requires
        0 <= n < 0x10_0000_0000_0000,
    ensures
        is_isqrt(n as int, r as int),
        r == root(n as int),
        r <= 0x400_0000,
{
    let mut lo: i128 = 0;
    let mut hi: i128 = 0x400_0000;
    assert(hi * hi == 0x10_0000_0000_0000) by (nonlinear_arith)
        requires
            hi == 0x400_0000,
    ;
    while hi - lo > 1
        invariant
            0 <= lo < hi <= 0x400_0000,
            lo * lo <= n,
            n < hi * hi,
        decreases hi - lo,
    {
        let mid: i128 = lo + (hi - lo) / 2;
        assert(mid * mid <= 0x10_0000_0000_0000) by (nonlinear_arith)
            requires
                0 <= mid <= 0x400_0000,
        ;
        if mid * mid <= n {
            lo = mid;
        } else {
            hi = mid;
        }
    }
    assert(hi == lo + 1);
    proof {
        lemma_root_is(n as int, lo as int);
    }
    lo
}

/// The smallest non-negative integer whose square is at least `m`.
pub open spec fn ceil_root(m: int) -> int {
    if m <= 0 {
        0
    } else {
        root(m - 1) + 1
    }
}

pub proof fn lemma_ceil_root(m: int)
    requires
        0 <= m,
    ensures
        0 <= ceil_root(m),
        m <= ceil_root(m) * ceil_root(m),
        ceil_root(m) == 0 || (ceil_root(m) - 1) * (ceil_root(m) - 1) < m,
{
    if m > 0 {
        lemma_root_exists(m - 1);
    }
}

/// Square root of `m`, rounded up.
pub fn ceil_isqrt(m: i128) -> (r: i128)
    requires
        0 <= m < 0x10_0000_0000_0000,
    ensures
        r == ceil_root(m as int),
{
    if m == 0 {
        0
    } else {
        isqrt(m - 1) + 1
    }
}

} // verus!
