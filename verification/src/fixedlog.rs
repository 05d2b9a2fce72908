//! Fixed-point base-2 logarithm.
//!
//! The logarithmic band partition works in log-frequency space. Log values
//! are carried as integers with 16 fractional bits (`LOG_ONE` is 1.0). The
//! integer part of `log2 x` is the bit length minus one; the fractional bits
//! come from sixteen rounds of squaring a 2.30 fixed-point mantissa and
//! truncating. The result is monotone in `x`, which is what the partition
//! proofs rest on: comparing two values in this scale never disagrees with
//! comparing the values themselves, beyond ties introduced by truncation.

use vstd::prelude::*;

verus! {

use vstd::arithmetic::power2::{
    pow2,
    lemma_pow2_adds,
    lemma_pow2_strictly_increases,
    lemma_pow2_unfold,
    lemma_pow2_pos,
    lemma2_to64,
};
use vstd::arithmetic::div_mod::{lemma_div_is_ordered, lemma_fundamental_div_mod};
use vstd::arithmetic::mul::{lemma_mul_inequality, lemma_mul_strict_inequality};
use vstd::bits::lemma_u64_shl_is_mul;

/// One whole unit in the fixed-point log scale (16 fractional bits).
pub const LOG_ONE: u64 = 65536;

/// floor(log2(x)) for x >= 1 (and 0 for smaller arguments).
pub open spec fn floor_log2_spec(x: int) -> int
    decreases x,
{
    if x < 2 {
        0
    } else {
        1 + floor_log2_spec(x / 2)
    }
}

/// The first `j` fractional bits of log2(m / 2^30) for a mantissa
/// m in [2^30, 2^31), computed by squaring and truncating.
pub open spec fn frac_rec(m: int, j: nat) -> int
    decreases j,
{
    if j == 0 {
        0
    } else {
        let s = (m * m) / 0x40000000;
        if s >= 0x80000000 {
            pow2((j - 1) as nat) + frac_rec(s / 2, (j - 1) as nat)
        } else {
            frac_rec(s, (j - 1) as nat)
        }
    }
}

/// `x` normalized so that its leading bit sits at position 30.
pub open spec fn mantissa_spec(x: int) -> int {
    x * pow2((30 - floor_log2_spec(x)) as nat)
}

/// log2(x) in 16.16 fixed point: exact integer part, sixteen fractional
/// bits truncated toward zero.
pub open spec fn log2_fix_spec(x: int) -> int {
    floor_log2_spec(x) * (LOG_ONE as int) + frac_rec(mantissa_spec(x), 16)
}

/// The integer part of the fixed-point log brackets its argument between
/// two consecutive powers of two.
pub proof fn lemma_floor_log2_bounds(x: int)
    requires
        1 <= x,
    ensures
        0 <= floor_log2_spec(x),
        pow2(floor_log2_spec(x) as nat) <= x,
        x < pow2((floor_log2_spec(x) + 1) as nat),
    decreases x,
{
    lemma2_to64();
    if x < 2 {
    } else {
        lemma_floor_log2_bounds(x / 2);
        let k = floor_log2_spec(x / 2);
        lemma_fundamental_div_mod(x, 2);
        lemma_pow2_unfold((k + 1) as nat);
        lemma_pow2_unfold((k + 2) as nat);
        assert(x >= 2 * (x / 2) >= 2 * pow2(k as nat));
        assert(x <= 2 * (x / 2) + 1);
        assert(x / 2 <= pow2((k + 1) as nat) - 1);
        assert(x < pow2((k + 2) as nat));
    }
}

/// floor(log2) never decreases when its argument grows.
pub proof fn lemma_floor_log2_monotone(x: int, y: int)
    requires
        1 <= x <= y,
    ensures
        floor_log2_spec(x) <= floor_log2_spec(y),
{
    lemma_floor_log2_bounds(x);
    lemma_floor_log2_bounds(y);
    if floor_log2_spec(x) > floor_log2_spec(y) {
        lemma_pow2_strictly_increases(
            (floor_log2_spec(y) + 1) as nat,
            (floor_log2_spec(x) + 1) as nat,
        );
        if floor_log2_spec(y) + 1 < floor_log2_spec(x) {
            lemma_pow2_strictly_increases((floor_log2_spec(y) + 1) as nat, floor_log2_spec(x) as nat);
        }
        assert(pow2(floor_log2_spec(x) as nat) <= x);
        assert(y < pow2((floor_log2_spec(y) + 1) as nat));
        assert(pow2((floor_log2_spec(y) + 1) as nat) <= pow2(floor_log2_spec(x) as nat));
        assert(false);
    }
}

/// The normalized mantissa lands in [2^30, 2^31), and the integer part of
/// the log of an argument below 2^31 is at most 30.
pub proof fn lemma_mantissa_range(x: int)
    requires
        1 <= x < 0x80000000,
    ensures
        floor_log2_spec(x) <= 30,
        0x40000000 <= mantissa_spec(x) < 0x80000000,
{
    lemma2_to64();
    lemma_floor_log2_bounds(x);
    let k = floor_log2_spec(x);
    if k > 30 {
        if k > 31 {
            lemma_pow2_strictly_increases(31, k as nat);
        }
        assert(pow2(k as nat) >= pow2(31));
        assert(false);
    }
    lemma_pow2_adds(k as nat, (30 - k) as nat);
    lemma_pow2_adds((k + 1) as nat, (30 - k) as nat);
    lemma_pow2_pos((30 - k) as nat);
    lemma_mul_inequality(pow2(k as nat) as int, x, pow2((30 - k) as nat) as int);
    lemma_mul_strict_inequality(x, pow2((k + 1) as nat) as int, pow2((30 - k) as nat) as int);
    assert(pow2((k + 30 - k) as nat) == pow2(30));
    assert(pow2((k + 1 + 30 - k) as nat) == pow2(31));
}

/// The fractional bits always fit in their width: 0 <= frac < 2^j.
pub proof fn lemma_frac_bounds(m: int, j: nat)
    ensures
        0 <= frac_rec(m, j) < pow2(j),
    decreases j,
{
    lemma_pow2_pos(j);
    if j > 0 {
        let s = (m * m) / 0x40000000;
        lemma_pow2_unfold(j);
        if s >= 0x80000000 {
            lemma_frac_bounds(s / 2, (j - 1) as nat);
        } else {
            lemma_frac_bounds(s, (j - 1) as nat);
        }
    }
}

/// One squaring step keeps the mantissa normalized.
proof fn lemma_frac_step_range(m: int)
    requires
        0x40000000 <= m < 0x80000000,
    ensures
        0x40000000 <= (m * m) / 0x40000000 < 0x100000000,
{
    let s = (m * m) / 0x40000000;
    assert(0x40000000 * 0x40000000 <= m * m) by (nonlinear_arith)
        requires 0x40000000 <= m;
    assert(m * m <= (0x80000000 - 1) * (0x80000000 - 1)) by (nonlinear_arith)
        requires 0 <= m <= 0x80000000 - 1;
    lemma_div_is_ordered(0x40000000int * 0x40000000, m * m, 0x40000000);
    lemma_div_is_ordered(m * m, (0x80000000 - 1) * (0x80000000 - 1), 0x40000000);
    assert((0x40000000int * 0x40000000) / 0x40000000 == 0x40000000) by (nonlinear_arith);
    assert(((0x80000000int - 1) * (0x80000000 - 1)) / 0x40000000 < 0x100000000) by (nonlinear_arith);
}

/// The truncated fractional bits are monotone in the mantissa.
pub proof fn lemma_frac_monotone(m1: int, m2: int, j: nat)
    requires
        0x40000000 <= m1 <= m2 < 0x80000000,
    ensures
        frac_rec(m1, j) <= frac_rec(m2, j),
    decreases j,
{
    if j > 0 {
        let s1 = (m1 * m1) / 0x40000000;
        let s2 = (m2 * m2) / 0x40000000;
        assert(m1 * m1 <= m2 * m2) by (nonlinear_arith)
            requires 0 <= m1 <= m2;
        lemma_div_is_ordered(m1 * m1, m2 * m2, 0x40000000);
        lemma_frac_step_range(m1);
        lemma_frac_step_range(m2);
        if s1 >= 0x80000000 {
            lemma_fundamental_div_mod(s1, 2);
            lemma_fundamental_div_mod(s2, 2);
            lemma_div_is_ordered(s1, s2, 2);
            lemma_frac_monotone(s1 / 2, s2 / 2, (j - 1) as nat);
        } else if s2 >= 0x80000000 {
            lemma_frac_bounds(s1, (j - 1) as nat);
            lemma_frac_bounds(s2 / 2, (j - 1) as nat);
        } else {
            lemma_frac_monotone(s1, s2, (j - 1) as nat);
        }
    }
}

/// The fixed-point log sits between `k` and `k + 1` whole units, where `k`
/// is the exact integer part of log2.
pub proof fn lemma_log2_fix_range(x: int)
    requires
        1 <= x < 0x80000000,
    ensures
        floor_log2_spec(x) * (LOG_ONE as int) <= log2_fix_spec(x),
        log2_fix_spec(x) < (floor_log2_spec(x) + 1) * (LOG_ONE as int),
        0 <= log2_fix_spec(x) <= 31 * (LOG_ONE as int),
{
    lemma2_to64();
    lemma_floor_log2_bounds(x);
    lemma_mantissa_range(x);
    lemma_frac_bounds(mantissa_spec(x), 16);
    assert(pow2(16) == 65536);
}

/// The fixed-point log is monotone: a larger value never gets a smaller log.
pub proof fn lemma_log2_fix_monotone(x: int, y: int)
    requires
        1 <= x <= y < 0x80000000,
    ensures
        log2_fix_spec(x) <= log2_fix_spec(y),
{
    lemma2_to64();
    let kx = floor_log2_spec(x);
    let ky = floor_log2_spec(y);
    lemma_floor_log2_monotone(x, y);
    lemma_mantissa_range(x);
    lemma_mantissa_range(y);
    lemma_frac_bounds(mantissa_spec(x), 16);
    lemma_frac_bounds(mantissa_spec(y), 16);
    assert(pow2(16) == 65536);
    if kx == ky {
        lemma_pow2_pos((30 - kx) as nat);
        lemma_mul_inequality(x, y, pow2((30 - kx) as nat) as int);
        lemma_frac_monotone(mantissa_spec(x), mantissa_spec(y), 16);
    } else {
        assert(kx * (LOG_ONE as int) + (LOG_ONE as int) <= ky * (LOG_ONE as int)) by (nonlinear_arith)
            requires kx + 1 <= ky;
    }
}

/// The exact integer part of log2, by repeated halving.
pub fn floor_log2(x: u64) -> (k: u64)
    requires
        1 <= x < 0x80000000,
    ensures
        k == floor_log2_spec(x as int),
        k <= 30,
{
    proof {
        lemma_mantissa_range(x as int);
        lemma_floor_log2_bounds(x as int);
        lemma2_to64();
    }
    let mut t = x;
    let mut k: u64 = 0;
    while t >= 2
        invariant
            1 <= t <= x,
            floor_log2_spec(x as int) == k + floor_log2_spec(t as int),
            k <= floor_log2_spec(x as int),
            floor_log2_spec(x as int) <= 30,
        decreases t,
    {
        proof {
            lemma_floor_log2_bounds(t as int);
            lemma_floor_log2_bounds(t as int / 2);
            assert(floor_log2_spec(t as int) == 1 + floor_log2_spec(t as int / 2));
        }
        t = t / 2;
        k = k + 1;
    }
    k
}

/// The sixteen fractional bits of log2 of a normalized mantissa.
fn frac_bits(m0: u64) -> (f: u64)
    requires
        0x40000000 <= m0 < 0x80000000,
    ensures
        f == frac_rec(m0 as int, 16),
        f < 65536,
{
    let mut m = m0;
    let mut f: u64 = 0;
    let mut i: usize = 0;
    proof {
        lemma2_to64();
    }
    while i < 16
        invariant
            i <= 16,
            0x40000000 <= m < 0x80000000,
            f < pow2(i as nat),
            frac_rec(m0 as int, 16) == f * pow2((16 - i) as nat) + frac_rec(m as int, (16 - i) as nat),
        decreases 16 - i,
    {
        proof {
            lemma2_to64();
            lemma_frac_step_range(m as int);
            lemma_pow2_unfold((16 - i) as nat);
            lemma_pow2_unfold((i + 1) as nat);
            assert((m as int) * (m as int) < 0x4000000000000000) by (nonlinear_arith)
                requires (m as int) < 0x80000000, 0 <= m as int;
            if (i as nat) < 15 {
                lemma_pow2_strictly_increases(i as nat, 15);
            }
            assert(pow2(15) == 32768);
            assert(f < 32768);
        }
        let s = (m * m) / 0x40000000;
        let ghost j = (16 - i) as nat;
        let ghost f_old = f as int;
        let ghost m_old = m as int;
        let ghost bit: int = if s >= 0x80000000 { 1 } else { 0 };
        if s >= 0x80000000 {
            m = s / 2;
            f = 2 * f + 1;
        } else {
            m = s;
            f = 2 * f;
        }
        i += 1;
        proof {
            let p = pow2((16 - i) as nat) as int;
            assert(frac_rec(m_old, j) == bit * p + frac_rec(m as int, (j - 1) as nat));
            assert((2 * f_old + bit) * p == f_old * (2 * p) + bit * p) by (nonlinear_arith);
            assert(frac_rec(m0 as int, 16) == f * pow2((16 - i) as nat) + frac_rec(m as int, (16 - i) as nat));
        }
    }
    proof {
        lemma2_to64();
        assert(i == 16);
        assert(pow2(0) == 1);
        assert(frac_rec(m as int, 0) == 0);
        assert(frac_rec(m0 as int, 16) == f * pow2((16 - i) as nat) + frac_rec(m as int, (16 - i) as nat));
        assert(f * pow2(0) == f * 1 == f);
        assert(f == frac_rec(m0 as int, 16));
        assert(pow2(16) == 65536);
    }
    f
}

/// The fixed-point log of 1 is exactly 0: the mantissa of 1 is the lowest
/// normalized value, and all sixteen squaring rounds keep it there.
pub proof fn lemma_log2_fix_of_one()
    ensures
        log2_fix_spec(1) == 0,
{
    lemma2_to64();
    reveal_with_fuel(frac_rec, 17);
    assert(floor_log2_spec(1) == 0);
    assert(mantissa_spec(1) == pow2(30));
    assert(frac_rec(0x40000000, 16) == 0);
}

/// The inverse of the fixed-point log: the largest `x` whose fixed-point
/// log does not exceed `l`. Turns a log-space position back into a
/// frequency in whole hertz.
pub fn exp2_fix(l: u64) -> (r: u64)
    requires
        l <= 31 * 65536,
    ensures
        1 <= r < 0x8000_0000,
        log2_fix_spec(r as int) <= l,
        r < 0x8000_0000 - 1 ==> l < log2_fix_spec(r as int + 1),
{
    proof {
        lemma_log2_fix_of_one();
    }
    let mut lo: u64 = 1;
    let mut hi: u64 = 0x8000_0000;
    while hi - lo > 1
        invariant
            1 <= lo < hi <= 0x8000_0000,
            l <= 31 * 65536,
            log2_fix_spec(lo as int) <= l,
            hi < 0x8000_0000 ==> l < log2_fix_spec(hi as int),
        decreases hi - lo,
    {
        let mid = lo + (hi - lo) / 2;
        let lm = log2_fix(mid);
        if lm <= l {
            lo = mid;
        } else {
            hi = mid;
        }
    }
    lo
}

/// log2 of `x` in 16.16 fixed point, exactly `log2_fix_spec(x)`.
pub fn log2_fix(x: u64) -> (r: u64)
    requires
        1 <= x < 0x80000000,
    ensures
        r == log2_fix_spec(x as int),
        r <= 31 * 65536,
{
    proof {
        lemma_mantissa_range(x as int);
        lemma_log2_fix_range(x as int);
        lemma2_to64();
    }
    let k = floor_log2(x);
    let shift = 30 - k;
    proof {
        lemma_u64_shl_is_mul(x, shift);
    }
    let m = x << shift;
    let f = frac_bits(m);
    k * 65536 + f
}

} // verus!
