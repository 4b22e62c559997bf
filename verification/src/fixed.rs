use vstd::prelude::*;
use vstd::arithmetic::div_mod::lemma_fundamental_div_mod;

verus! {

/// Floor of the real square root of `n`: the largest `r` with `r * r <= n`.
pub open spec fn sqrt_floor(n: nat) -> nat
    decreases n,
{
    if n == 0 {
        0
    } else {
        let r = sqrt_floor((n - 1) as nat);
        if (r + 1) * (r + 1) <= n {
            r + 1
        } else {
            r
        }
    }
}

pub proof fn lemma_sqrt_floor_bounds(n: nat)
    ensures
        (sqrt_floor(n) as int) * (sqrt_floor(n) as int) <= n,
        n < (sqrt_floor(n) as int + 1) * (sqrt_floor(n) as int + 1),
    decreases n,
{
    if n > 0 {
        lemma_sqrt_floor_bounds((n - 1) as nat);
        let r = sqrt_floor((n - 1) as nat) as int;
        assert(r * r <= n - 1);
        assert(n - 1 < (r + 1) * (r + 1));
        if (r + 1) * (r + 1) <= n {
            assert(sqrt_floor(n) == r + 1);
            let s = sqrt_floor(n) as int;
            assert(n < (s + 1) * (s + 1)) by (nonlinear_arith)
                requires
                    n - 1 < (r + 1) * (r + 1),
                    (r + 1) * (r + 1) <= n,
                    r >= 0,
                    s == r + 1,
            ;
        } else {
            assert(sqrt_floor(n) == r);
        }
    } else {
        assert(n == 0);
        assert(sqrt_floor(n) == 0);
    }
}

/// Any `r` bracketing `n` between consecutive squares is the floor square root.
pub proof fn lemma_sqrt_floor_unique(n: nat, r: nat)
    requires
        (r as int) * (r as int) <= n,
        n < (r as int + 1) * (r as int + 1),
    ensures
        r == sqrt_floor(n),
{
    lemma_sqrt_floor_bounds(n);
    let s = sqrt_floor(n) as int;
    let ri = r as int;
    if ri < s {
        assert((ri + 1) * (ri + 1) <= s * s) by (nonlinear_arith)
            requires
                ri + 1 <= s,
                ri >= 0,
        ;
    }
    if s < ri {
        assert((s + 1) * (s + 1) <= ri * ri) by (nonlinear_arith)
            requires
                s + 1 <= ri,
                s >= 0,
        ;
    }
}

/// Integer square root by binary search.
pub fn isqrt(n: u128) -> (r: u64)
    requires
        n < 0x1000_0000_0000_0000 * 0x1000_0000_0000_0000,
    ensures
        r == sqrt_floor(n as nat),
{
    let mut lo: u64 = 0;
    let mut hi: u64 = 0x1000_0000_0000_0000;
    while lo + 1 < hi
        invariant
            lo < hi <= 0x1000_0000_0000_0000,
            (lo as int) * (lo as int) <= n,
            (n as int) < (hi as int) * (hi as int),
        decreases hi - lo,
    {
        let mid: u64 = lo + (hi - lo) / 2;
        proof {
            assert((mid as int) * (mid as int) <= 0x1000_0000_0000_0000 * 0x1000_0000_0000_0000)
                by (nonlinear_arith)
                requires
                    0 <= mid <= 0x1000_0000_0000_0000,
            ;
        }
        if (mid as u128) * (mid as u128) <= n {
            lo = mid;
        } else {
            hi = mid;
        }
    }
    proof {
        lemma_sqrt_floor_unique(n as nat, lo as nat);
    }
    lo
}

/// Floor division for a positive divisor (agrees with `/` on `int`).
pub fn floor_div(a: i64, b: i64) -> (q: i64)
    requires
        b > 0,
        a > i64::MIN,
    ensures
        q == a as int / b as int,
{
    if a >= 0 {
        a / b
    } else {
        let m: i64 = -a;
        let down: i64 = m / b;
        let rem: i64 = m % b;
        proof {
            lemma_fundamental_div_mod(m as int, b as int);
            lemma_fundamental_div_mod(a as int, b as int);
        }
        if rem == 0 {
            proof {
                assert(a as int / b as int == -(down as int)) by (nonlinear_arith)
                    requires
                        b > 0,
                        a == -(m as int),
                        m == b * (down as int),
                        a == b * (a as int / b as int) + a as int % b as int,
                        0 <= (a as int % (b as int)) < b,
                        down >= 0,
                ;
            }
            -down
        } else {
            proof {
                assert(a as int / b as int == -(down as int) - 1) by (nonlinear_arith)
                    requires
                        b > 0,
                        a == -(m as int),
                        m == b * (down as int) + rem,
                        0 < rem < b,
                        a == b * (a as int / b as int) + a as int % b as int,
                        0 <= (a as int % (b as int)) < b,
                        down >= 0,
                ;
            }
            -down - 1
        }
    }
}

/// Ceiling division for nonnegative dividend and positive divisor.
pub fn ceil_div(a: i64, b: i64) -> (q: i64)
    requires
        0 <= a,
        0 < b,
        a + b <= i64::MAX,
    ensures
        q == (a as int + b - 1) / (b as int),
        b * q >= a,
        b * (q - 1) < a,
        q >= 0,
    {
    let q = (a + (b - 1)) / b;
    proof {
        lemma_fundamental_div_mod(a as int + b - 1, b as int);
        assert(b * q >= a && b * (q as int - 1) < a && q >= 0) by (nonlinear_arith)
            requires
                0 <= a,
                0 < b,
                a + b - 1 == b * (q as int) + (a + b - 1) % (b as int),
                0 <= ((a + b - 1) % (b as int)) < b,
        ;
    }
    q
}

/// `a + b` capped at `i64::MAX`.
pub open spec fn sat_add(a: int, b: int) -> int {
    if a + b > i64::MAX {
        i64::MAX as int
    } else {
        a + b
    }
}

/// Saturating addition of nonnegative values.
pub fn sat_add_i64(a: i64, b: i64) -> (r: i64)
    requires
        a >= 0,
        b >= 0,
    ensures
        r == sat_add(a as int, b as int),
{
    if a > i64::MAX - b {
        i64::MAX
    } else {
        a + b
    }
}

/// `x` clamped to `[lo, hi]`.
pub open spec fn clamp(x: int, lo: int, hi: int) -> int {
    if x < lo {
        lo
    } else if x > hi {
        hi
    } else {
        x
    }
}

pub fn clamp_i64(x: i64, lo: i64, hi: i64) -> (r: i64)
    requires
        lo <= hi,
    ensures
        r == clamp(x as int, lo as int, hi as int),
{
    if x < lo {
        lo
    } else if x > hi {
        hi
    } else {
        x
    }
}

} // verus!
