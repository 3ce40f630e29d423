//! Fixed-point arithmetic: every quantity is an integer count of millionths,
//! kept within a symmetric limit by saturation.

use vstd::prelude::*;

verus! {

/// Number of raw units in one whole unit.
pub const SCALE: i64 = 1_000_000;

/// Largest magnitude of a coordinate, a velocity, an acceleration or a mass.
pub const LIMIT: i64 = 1_000_000_000_000_000_000;

/// Largest radius.
pub const RADIUS_LIMIT: i64 = 1_000_000_000_000;

/// `v` brought into `[-limit, limit]`.
pub open spec fn clamp(v: int, limit: int) -> int {
    if v > limit {
        limit
    } else if v < -limit {
        -limit
    } else {
        v
    }
}

/// Quotient of `a` by a positive `b`, rounded toward zero.
pub open spec fn quot(a: int, b: int) -> int {
    if a >= 0 {
        a / b
    } else {
        -((-a) / b)
    }
}

/// The smaller of two numbers.
pub open spec fn min(a: int, b: int) -> int {
    if a <= b {
        a
    } else {
        b
    }
}

/// The third power.
pub open spec fn cube(r: int) -> int {
    r * r * r
}

/// A quotient is no larger than the bound of its dividend allows.
pub proof fn lemma_quot_bound(a: int, b: int, k: int)
    by (nonlinear_arith)
    requires
        b > 0,
        k >= 0,
        -(k * b) <= a <= k * b,
    ensures
        -k <= quot(a, b) <= k,
{
}

/// `r` is the square root of `n`, rounded down.
pub open spec fn is_sqrt(n: int, r: int) -> bool {
    0 <= r && r * r <= n && n < (r + 1) * (r + 1)
}

/// The square root of `n`, rounded down.
pub open spec fn int_sqrt(n: int) -> int {
    choose|r: int| is_sqrt(n, r)
}

/// `r` is the cube root of `n`, rounded down.
pub open spec fn is_cbrt(n: int, r: int) -> bool {
    0 <= r && r * r * r <= n && n < (r + 1) * (r + 1) * (r + 1)
}

/// The cube root of `n`, rounded down.
pub open spec fn int_cbrt(n: int) -> int {
    choose|r: int| is_cbrt(n, r)
}

proof fn sqrt_witness(n: int) -> (r: int)
    requires
        n >= 0,
    ensures
        is_sqrt(n, r),
    decreases n,
{
    if n == 0 {
        0
    } else {
        let p = sqrt_witness(n - 1);
        let q = p + 1;
        if q * q <= n {
            assert(n < (q + 1) * (q + 1)) by (nonlinear_arith)
                requires
                    0 < q,
                    n - 1 < q * q,
            ;
            q
        } else {
            p
        }
    }
}

proof fn cbrt_witness(n: int) -> (r: int)
    requires
        n >= 0,
    ensures
        is_cbrt(n, r),
    decreases n,
{
    if n == 0 {
        0
    } else {
        let p = cbrt_witness(n - 1);
        let q = p + 1;
        if q * q * q <= n {
            assert(n < (q + 1) * (q + 1) * (q + 1)) by (nonlinear_arith)
                requires
                    0 < q,
                    n - 1 < q * q * q,
            ;
            q
        } else {
            p
        }
    }
}

/// Every natural number has exactly one rounded-down square root.
pub proof fn lemma_int_sqrt(n: int)
    requires
        n >= 0,
    ensures
        is_sqrt(n, int_sqrt(n)),
        forall|r: int| is_sqrt(n, r) ==> r == int_sqrt(n),
{
    let w = sqrt_witness(n);
    let s = int_sqrt(n);
    assert forall|r: int| is_sqrt(n, r) implies r == s by {
        lemma_sqrt_unique(n, r, s);
    }
}

/// Two rounded-down square roots of one number are equal.
pub proof fn lemma_sqrt_unique(n: int, r: int, s: int)
    requires
        is_sqrt(n, r),
        is_sqrt(n, s),
    ensures
        r == s,
{
    if r < s {
        assert((r + 1) * (r + 1) <= s * s) by (nonlinear_arith)
            requires
                0 <= r + 1 <= s,
        ;
    } else if s < r {
        assert((s + 1) * (s + 1) <= r * r) by (nonlinear_arith)
            requires
                0 <= s + 1 <= r,
        ;
    }
}

/// Every natural number has exactly one rounded-down cube root.
pub proof fn lemma_int_cbrt(n: int)
    requires
        n >= 0,
    ensures
        is_cbrt(n, int_cbrt(n)),
        forall|r: int| is_cbrt(n, r) ==> r == int_cbrt(n),
{
    let w = cbrt_witness(n);
    let s = int_cbrt(n);
    assert forall|r: int| is_cbrt(n, r) implies r == s by {
        lemma_cbrt_unique(n, r, s);
    }
}

/// Two rounded-down cube roots of one number are equal.
pub proof fn lemma_cbrt_unique(n: int, r: int, s: int)
    requires
        is_cbrt(n, r),
        is_cbrt(n, s),
    ensures
        r == s,
{
    if r < s {
        assert((r + 1) * (r + 1) * (r + 1) <= s * s * s) by (nonlinear_arith)
            requires
                0 <= r + 1 <= s,
        ;
    } else if s < r {
        assert((s + 1) * (s + 1) * (s + 1) <= r * r * r) by (nonlinear_arith)
            requires
                0 <= s + 1 <= r,
        ;
    }
}

/// Square root rounded down.
pub fn isqrt(n: u128) -> (r: u64)
    ensures
        is_sqrt(n as int, r as int),
        r == int_sqrt(n as int),
{
    let mut lo: u128 = 0;
    let mut hi: u128 = 0x1_0000_0000_0000_0000;
    while hi - lo > 1
        invariant
            lo < hi <= 0x1_0000_0000_0000_0000,
            lo * lo <= n,
            n < hi * hi,
        decreases hi - lo,
    {
        let mid: u128 = lo + (hi - lo) / 2;
        assert(mid * mid <= 0xFFFF_FFFF_FFFF_FFFF * 0xFFFF_FFFF_FFFF_FFFF) by (nonlinear_arith)
            requires
                mid <= 0xFFFF_FFFF_FFFF_FFFF,
        ;
        if mid * mid <= n {
            lo = mid;
        } else {
            hi = mid;
        }
    }
    proof {
        lemma_int_sqrt(n as int);
    }
    lo as u64
}

/// Cube root rounded down.
pub fn icbrt(n: u128) -> (r: u64)
    ensures
        is_cbrt(n as int, r as int),
        r == int_cbrt(n as int),
{
    let mut lo: u128 = 0;
    let mut hi: u128 = 0x800_0000_0000;
    while hi - lo > 1
        invariant
            lo < hi <= 0x800_0000_0000,
            lo * lo * lo <= n,
            n < hi * hi * hi,
        decreases hi - lo,
    {
        let mid: u128 = lo + (hi - lo) / 2;
        assert(mid * mid <= 0x800_0000_0000 * 0x800_0000_0000) by (nonlinear_arith)
            requires
                mid <= 0x800_0000_0000,
        ;
        let square: u128 = mid * mid;
        let fits = match square.checked_mul(mid) {
            Some(cube) => cube <= n,
            None => false,
        };
        if fits {
            lo = mid;
        } else {
            hi = mid;
        }
    }
    proof {
        lemma_int_cbrt(n as int);
    }
    lo as u64
}

/// Brings a wide intermediate result back into the stored range.
pub fn saturate(v: i128) -> (r: i64)
    ensures
        r == clamp(v as int, LIMIT as int),
{
    if v > LIMIT as i128 {
        LIMIT
    } else if v < -(LIMIT as i128) {
        -LIMIT
    } else {
        v as i64
    }
}

} // verus!
