//! Double precision rounding, carried out on integers.
//!
//! Memory headroom and gigabyte figures are defined by double precision
//! arithmetic: every operation gives the exact result rounded to 53 significant
//! bits, ties to even. This module does that arithmetic on integers.

use vstd::arithmetic::div_mod::{
    lemma_div_is_ordered, lemma_fundamental_div_mod, lemma_fundamental_div_mod_converse,
};
use vstd::arithmetic::power2::{lemma_pow2_adds, lemma_pow2_pos, lemma_pow2_unfold, pow2};
use vstd::prelude::*;

verus! {

/// The first integer with more than 53 significant bits.
pub const SIGNIFICAND_END: u128 = 9_007_199_254_740_992;

/// The first integer with 53 significant bits.
pub const SIGNIFICAND_START: u128 = 4_503_599_627_370_496;

/// The double next to 1.1, times two to the power 52.
pub const ELEVEN_TENTHS: u128 = 4_953_959_590_107_546;

/// How many low bits of `n` a double has no room for.
pub open spec fn dropped_bits(n: nat) -> nat
    decreases n,
{
    if n < SIGNIFICAND_END {
        0
    } else {
        1 + dropped_bits(n / 2)
    }
}

/// The quotient `n / d` rounded to the nearest integer multiple of
/// two to the power `s`, ties to the even multiple.
pub open spec fn rounded_at(n: nat, d: nat, s: nat) -> nat {
    let unit = d * pow2(s);
    let q = n / unit;
    let r = n % unit;
    if 2 * r > unit || (2 * r == unit && q % 2 == 1) {
        (q + 1) * pow2(s)
    } else {
        q * pow2(s)
    }
}

/// The double nearest to `n / d`, for quotients of at least 2 to the power 53.
pub open spec fn rounded_quotient(n: nat, d: nat) -> nat {
    rounded_at(n, d, dropped_bits(n / d))
}

/// The double nearest to `n`, ties to even.
pub open spec fn rounded(n: nat) -> nat {
    rounded_at(n, 1, dropped_bits(n))
}

/// A number has exactly `s` bits too many if what is left is a significand.
pub proof fn lemma_dropped_bits(n: nat, s: nat)
    requires
        s == 0 ==> n < SIGNIFICAND_END,
        s > 0 ==> SIGNIFICAND_START * pow2(s) <= n < SIGNIFICAND_END * pow2(s),
    ensures
        dropped_bits(n) == s,
    decreases s,
{
    if s > 0 {
        lemma_pow2_unfold(s);
        lemma_pow2_pos((s - 1) as nat);
        let p = pow2((s - 1) as nat);
        assert(pow2(s) == 2 * p);
        assert(SIGNIFICAND_START * (2 * p) == 2 * (SIGNIFICAND_START * p)) by (nonlinear_arith);
        assert(SIGNIFICAND_END * (2 * p) == 2 * (SIGNIFICAND_END * p)) by (nonlinear_arith);
        assert(n >= SIGNIFICAND_END) by {
            assert(SIGNIFICAND_START * p >= SIGNIFICAND_START) by (nonlinear_arith)
                requires
                    p >= 1,
            ;
        }
        if s == 1 {
            assert(p == 1) by {
                vstd::arithmetic::power2::lemma2_to64();
            }
        }
        lemma_dropped_bits(n / 2, (s - 1) as nat);
    }
}

/// A significand and the power of two it is scaled by.
pub struct Scaled {
    pub mant: u64,
    pub shift: u32,
}

/// Rounds to 53 significant bits and splits the result.
pub fn round_scaled(n: u128) -> (r: Scaled)
    ensures
        r.mant as nat * pow2(r.shift as nat) == rounded(n as nat),
        r.mant < SIGNIFICAND_END,
        n >= SIGNIFICAND_START ==> r.mant >= SIGNIFICAND_START,
        n < SIGNIFICAND_START ==> r.mant == n,
        r.shift <= 76,
        n < SIGNIFICAND_END ==> r.shift == 0,
        r.shift == dropped_bits(n as nat) || r.shift == dropped_bits(n as nat) + 1,
{
    let mut q: u128 = n;
    let mut unit: u128 = 1;
    let mut rest: u128 = 0;
    let mut s: u32 = 0;
    proof {
        lemma_pow2_pos(0);
        vstd::arithmetic::power2::lemma2_to64();
    }
    while q >= SIGNIFICAND_END
        invariant
            n == q * unit + rest,
            rest < unit,
            unit == pow2(s as nat),
            unit < 0x1000_0000_0000_0000_0000,
            dropped_bits(n as nat) == s + dropped_bits(q as nat),
            s > 0 ==> q >= SIGNIFICAND_START,
            s == 0 ==> q == n,
            s <= 75,
            s == 75 ==> q < SIGNIFICAND_END,
            n < SIGNIFICAND_END ==> s == 0,
        decreases q,
    {
        proof {
            assert(SIGNIFICAND_END * unit <= q * unit) by (nonlinear_arith)
                requires
                    q >= SIGNIFICAND_END,
                    unit >= 1,
            ;
            lemma_pow2_unfold((s + 1) as nat);
            let b = q % 2;
            let h = q / 2;
            assert(q == 2 * h + b);
            assert(q * unit + rest == h * (2 * unit) + (b * unit + rest)) by (nonlinear_arith)
                requires
                    q == 2 * h + b,
            ;
            assert(b * unit <= unit) by (nonlinear_arith)
                requires
                    b <= 1,
                    unit >= 0,
            ;
        }
        rest = rest + (q % 2) * unit;
        q = q / 2;
        unit = unit * 2;
        s = s + 1;
        proof {
            // n < 2^128, so after 75 halvings fewer than 53 bits are left.
            assert(q * unit <= n);
            if s == 75 {
                lemma_two_to_75();
                assert(q < SIGNIFICAND_END) by (nonlinear_arith)
                    requires
                        q * unit <= n,
                        unit == 0x800_0000_0000_0000_0000,
                        n <= 0xffff_ffff_ffff_ffff_ffff_ffff_ffff_ffff,
                ;
            }
        }
    }
    proof {
        assert(dropped_bits(q as nat) == 0);
        lemma_fundamental_div_mod_converse(n as int, unit as int, q as int, rest as int);
        assert(1 * pow2(s as nat) == unit);
        assert((q + 1) * unit == q * unit + unit) by (nonlinear_arith);
    }
    if 2 * rest > unit || (2 * rest == unit && q % 2 == 1) {
        if q + 1 == SIGNIFICAND_END {
            proof {
                lemma_pow2_unfold((s + 1) as nat);
                assert(SIGNIFICAND_START * (2 * unit) == SIGNIFICAND_END * unit) by (nonlinear_arith);
            }
            Scaled { mant: SIGNIFICAND_START as u64, shift: s + 1 }
        } else {
            Scaled { mant: (q + 1) as u64, shift: s }
        }
    } else {
        Scaled { mant: q as u64, shift: s }
    }
}

proof fn lemma_two_to_75()
    ensures
        pow2(75) == 0x800_0000_0000_0000_0000,
{
    vstd::arithmetic::power2::lemma2_to64();
    vstd::arithmetic::power2::lemma2_to64_rest();
    lemma_pow2_adds(64, 11);
}

/// Doubling a number doubles its rounding.
proof fn lemma_rounded_doubles(n: nat)
    ensures
        rounded(2 * n) == 2 * rounded(n),
{
    let s = dropped_bits(n);
    lemma_pow2_pos(s);
    lemma_pow2_pos(0);
    vstd::arithmetic::power2::lemma2_to64();
    if n >= SIGNIFICAND_END {
        assert((2 * n) / 2 == n);
        assert(dropped_bits(2 * n) == 1 + s);
        lemma_pow2_unfold(1 + s);
        let unit = pow2(s);
        let (q, r) = (n / unit, n % unit);
        lemma_fundamental_div_mod(n as int, unit as int);
        assert(2 * n == q * (2 * unit) + 2 * r) by (nonlinear_arith)
            requires
                n == unit * q + r,
        ;
        lemma_fundamental_div_mod_converse(
            (2 * n) as int,
            (2 * unit) as int,
            q as int,
            (2 * r) as int,
        );
        assert((q + 1) * (2 * unit) == 2 * ((q + 1) * unit)) by (nonlinear_arith);
        assert(q * (2 * unit) == 2 * (q * unit)) by (nonlinear_arith);
        assert(1 * pow2(s) == unit && 1 * pow2(1 + s) == 2 * unit);
    } else {
        lemma_rounded_exact(n);
        if 2 * n >= SIGNIFICAND_END {
            assert((2 * n) / 2 == n);
            assert(dropped_bits(2 * n) == 1);
            assert((2 * n) % 2 == 0);
            assert(1 * pow2(1) == 2);
        } else {
            lemma_rounded_exact(2 * n);
        }
    }
}

/// Rounding does not see a factor that is a power of two.
pub proof fn lemma_rounded_scales(n: nat, k: nat)
    ensures
        rounded(n * pow2(k)) == rounded(n) * pow2(k),
    decreases k,
{
    if k == 0 {
        vstd::arithmetic::power2::lemma2_to64();
        assert(n * pow2(0) == n && rounded(n) * pow2(0) == rounded(n));
    } else {
        let h = (k - 1) as nat;
        lemma_rounded_scales(n, h);
        lemma_pow2_unfold(k);
        assert(n * (2 * pow2(h)) == 2 * (n * pow2(h))) by (nonlinear_arith);
        assert(rounded(n) * (2 * pow2(h)) == 2 * (rounded(n) * pow2(h))) by (nonlinear_arith);
        lemma_rounded_doubles(n * pow2(h));
    }
}

/// What needs no more than 53 bits is not rounded.
pub proof fn lemma_rounded_exact(n: nat)
    requires
        n <= SIGNIFICAND_END,
    ensures
        rounded(n) == n,
{
    vstd::arithmetic::power2::lemma2_to64();
    if n < SIGNIFICAND_END {
        assert(n / 1 == n && n % 1 == 0);
        assert(1 * pow2(0) == 1);
    } else {
        assert(n / 2 == SIGNIFICAND_START);
        assert(dropped_bits((n / 2) as nat) == 0);
        assert(dropped_bits(n) == 1);
        assert(1 * pow2(1) == 2);
        assert(n % 2 == 0);
        assert((n / 2) * 2 == n);
    }
}

/// Rounding keeps the order.
pub proof fn lemma_rounded_monotone(a: nat, b: nat)
    requires
        a <= b,
    ensures
        rounded(a) <= rounded(b),
{
    let (sa, sb) = (dropped_bits(a), dropped_bits(b));
    lemma_rounded_bounds(a);
    lemma_rounded_bounds(b);
    lemma_dropped_monotone(a, b);
    lemma_pow2_pos(sa);
    lemma_pow2_pos(sb);
    if sa == sb {
        let unit = pow2(sa);
        assert(1 * unit == unit);
        let (qa, ra, qb, rb) = (a / unit, a % unit, b / unit, b % unit);
        lemma_fundamental_div_mod(a as int, unit as int);
        lemma_fundamental_div_mod(b as int, unit as int);
        lemma_div_is_ordered(a as int, b as int, unit as int);
        if qa == qb {
            assert(ra <= rb);
            assert(qa * unit <= (qa + 1) * unit) by (nonlinear_arith);
        } else {
            assert((qa + 1) * unit <= qb * unit) by (nonlinear_arith)
                requires
                    qa + 1 <= qb,
                    unit >= 0,
            ;
            assert(qa * unit <= (qa + 1) * unit) by (nonlinear_arith);
            assert(qb * unit <= (qb + 1) * unit) by (nonlinear_arith);
        }
    } else {
        // The greater number has more bits: a power of two lies between them.
        lemma_pow2_unfold(sb);
        assert(SIGNIFICAND_END * pow2(sa) <= SIGNIFICAND_START * pow2(sb)) by {
            if sa + 1 < sb {
                vstd::arithmetic::power2::lemma_pow2_strictly_increases(sa + 1, sb);
            }
            lemma_pow2_unfold(sa + 1);
            let (p, q) = (pow2(sa), pow2(sb));
            assert(SIGNIFICAND_END * p <= SIGNIFICAND_START * q) by (nonlinear_arith)
                requires
                    2 * p <= q,
            ;
        }
    }
}

/// Longer numbers drop more bits.
proof fn lemma_dropped_monotone(a: nat, b: nat)
    requires
        a <= b,
    ensures
        dropped_bits(a) <= dropped_bits(b),
    decreases b,
{
    if a >= SIGNIFICAND_END {
        lemma_dropped_monotone(a / 2, b / 2);
    }
}

/// The rounding of a number lies within the binade of the number.
pub proof fn lemma_rounded_bounds(n: nat)
    ensures
        n < SIGNIFICAND_END * pow2(dropped_bits(n)),
        rounded(n) <= SIGNIFICAND_END * pow2(dropped_bits(n)),
        dropped_bits(n) > 0 ==> n >= SIGNIFICAND_START * pow2(dropped_bits(n)),
        dropped_bits(n) > 0 ==> rounded(n) >= SIGNIFICAND_START * pow2(dropped_bits(n)),
{
    let s = dropped_bits(n);
    lemma_dropped_range(n);
    lemma_pow2_pos(s);
    let unit = pow2(s);
    assert(1 * unit == unit);
    let (q, r) = (n / unit, n % unit);
    lemma_fundamental_div_mod(n as int, unit as int);
    assert(q < SIGNIFICAND_END) by (nonlinear_arith)
        requires
            n == unit * q + r,
            r >= 0,
            n < SIGNIFICAND_END * unit,
            unit > 0,
    ;
    assert((q + 1) * unit <= SIGNIFICAND_END * unit) by (nonlinear_arith)
        requires
            q + 1 <= SIGNIFICAND_END,
            unit > 0,
    ;
    assert(q * unit <= (q + 1) * unit) by (nonlinear_arith);
    if s > 0 {
        assert(q >= SIGNIFICAND_START) by (nonlinear_arith)
            requires
                n == unit * q + r,
                r < unit,
                n >= SIGNIFICAND_START * unit,
                unit > 0,
        ;
        assert(q * unit >= SIGNIFICAND_START * unit) by (nonlinear_arith)
            requires
                q >= SIGNIFICAND_START,
                unit > 0,
        ;
    }
}

/// What is left after dropping bits is a significand.
proof fn lemma_dropped_range(n: nat)
    ensures
        n < SIGNIFICAND_END * pow2(dropped_bits(n)),
        dropped_bits(n) > 0 ==> n >= SIGNIFICAND_START * pow2(dropped_bits(n)),
    decreases n,
{
    vstd::arithmetic::power2::lemma2_to64();
    if n >= SIGNIFICAND_END {
        let s = dropped_bits(n / 2);
        lemma_dropped_range(n / 2);
        lemma_pow2_unfold(1 + s);
        let p = pow2(s);
        assert(SIGNIFICAND_END * (2 * p) == 2 * (SIGNIFICAND_END * p)) by (nonlinear_arith);
        assert(SIGNIFICAND_START * (2 * p) == 2 * (SIGNIFICAND_START * p)) by (nonlinear_arith);
        if s == 0 {
            assert(p == 1);
        }
    }
}

/// Rounds to the nearest double.
pub fn round_to_double(n: u128) -> (r: u128)
    requires
        n < 0x8000_0000_0000_0000_0000_0000_0000_0000,
    ensures
        r == rounded(n as nat),
{
    let Scaled { mant, shift } = round_scaled(n);
    let mut r: u128 = mant as u128;
    let mut i: u32 = 0;
    proof {
        vstd::arithmetic::power2::lemma2_to64();
        lemma_rounded_bounds(n as nat);
        lemma_rounded_below_two_to_127(n as nat);
        assert(mant as nat * pow2(0) == mant);
    }
    while i < shift
        invariant
            i <= shift,
            r == mant as nat * pow2(i as nat),
            mant as nat * pow2(shift as nat) <= 0x8000_0000_0000_0000_0000_0000_0000_0000,
        decreases shift - i,
    {
        proof {
            lemma_pow2_unfold((i + 1) as nat);
            if i + 1 < shift {
                vstd::arithmetic::power2::lemma_pow2_strictly_increases(
                    (i + 1) as nat,
                    shift as nat,
                );
            }
            let (p, q, m) = (pow2((i + 1) as nat), pow2(shift as nat), mant as nat);
            assert(m * p <= m * q) by (nonlinear_arith)
                requires
                    p <= q,
            ;
            assert(m * (2 * pow2(i as nat)) == 2 * (m * pow2(i as nat))) by (nonlinear_arith);
        }
        r = r * 2;
        i = i + 1;
    }
    r
}

proof fn lemma_rounded_below_two_to_127(n: nat)
    requires
        n <= 0x8000_0000_0000_0000_0000_0000_0000_0000,
    ensures
        rounded(n) <= 0x8000_0000_0000_0000_0000_0000_0000_0000,
{
    vstd::arithmetic::power2::lemma2_to64();
    vstd::arithmetic::power2::lemma2_to64_rest();
    lemma_pow2_adds(64, 63);
    lemma_rounded_monotone(n, 0x8000_0000_0000_0000_0000_0000_0000_0000nat);
    lemma_rounded_exact(1);
    lemma_rounded_scales(1, 127);
    assert(1 * pow2(127) == pow2(127));
}

/// The memory that a model of the given size needs: its size times 1.1, computed
/// in double precision and truncated to whole bytes.
pub open spec fn headroom(bytes: u64) -> int {
    let product = rounded(rounded(bytes as nat) * ELEVEN_TENTHS as nat) / SIGNIFICAND_START as nat;
    if product <= u64::MAX {
        product as int
    } else {
        u64::MAX as int
    }
}

/// The memory that a model of the given size needs.
pub fn with_headroom(bytes: u64) -> (needed: u64)
    ensures
        needed == headroom(bytes),
{
    proof {
        lemma_rounded_monotone(bytes as nat, 0x1_0000_0000_0000_0000nat);
        lemma_rounded_exact(1);
        lemma_rounded_scales(1, 64);
        vstd::arithmetic::power2::lemma2_to64_rest();
        assert(1 * pow2(64) == pow2(64));
    }
    let size = round_to_double(bytes as u128);
    assert(size * ELEVEN_TENTHS <= 0x1_0000_0000_0000_0000 * ELEVEN_TENTHS) by (nonlinear_arith)
        requires
            size <= 0x1_0000_0000_0000_0000,
    ;
    let product = round_to_double(size * ELEVEN_TENTHS) / SIGNIFICAND_START;
    if product <= u64::MAX as u128 {
        product as u64
    } else {
        u64::MAX
    }
}

/// A bigger model does not need less memory.
pub proof fn law_headroom_is_monotone(a: u64, b: u64)
    requires
        a <= b,
    ensures
        headroom(a) <= headroom(b),
{
    lemma_rounded_monotone(a as nat, b as nat);
    let (x, y) = (rounded(a as nat), rounded(b as nat));
    assert(x * ELEVEN_TENTHS as nat <= y * ELEVEN_TENTHS as nat) by (nonlinear_arith)
        requires
            x <= y,
    ;
    lemma_rounded_monotone(x * ELEVEN_TENTHS as nat, y * ELEVEN_TENTHS as nat);
    lemma_div_is_ordered(
        rounded(x * ELEVEN_TENTHS as nat) as int,
        rounded(y * ELEVEN_TENTHS as nat) as int,
        SIGNIFICAND_START as int,
    );
}

/// A double is its own rounding.
pub proof fn lemma_rounded_idempotent(n: nat)
    ensures
        rounded(rounded(n)) == rounded(n),
{
    let s = dropped_bits(n);
    let unit = pow2(s);
    lemma_pow2_pos(s);
    lemma_rounded_bounds(n);
    lemma_dropped_range(n);
    assert(1 * unit == unit);
    let (q, r) = (n / unit, n % unit);
    lemma_fundamental_div_mod(n as int, unit as int);
    assert(q < SIGNIFICAND_END) by (nonlinear_arith)
        requires
            n == unit * q + r,
            r >= 0,
            n < SIGNIFICAND_END * unit,
            unit > 0,
    ;
    lemma_rounded_exact(q);
    lemma_rounded_exact(q + 1);
    lemma_rounded_scales(q, s);
    lemma_rounded_scales(q + 1, s);
}

/// A rounded quotient is a double.
pub proof fn lemma_quotient_is_double(n: nat, d: nat)
    requires
        d > 0,
    ensures
        rounded(rounded_quotient(n, d)) == rounded_quotient(n, d),
{
    let s = dropped_bits(n / d);
    let unit = pow2(s);
    lemma_pow2_pos(s);
    lemma_dropped_range(n / d);
    let q = n / (d * unit);
    vstd::arithmetic::div_mod::lemma_div_denominator(n as int, d as int, unit as int);
    assert(q == (n / d) / unit);
    lemma_fundamental_div_mod((n / d) as int, unit as int);
    let r = (n / d) % unit;
    assert(q < SIGNIFICAND_END) by (nonlinear_arith)
        requires
            n / d == unit * q + r,
            r >= 0,
            n / d < SIGNIFICAND_END * unit,
            unit > 0,
    ;
    lemma_rounded_exact(q);
    lemma_rounded_exact(q + 1);
    lemma_rounded_scales(q, s);
    lemma_rounded_scales(q + 1, s);
}

/// A quotient of at least one is not rounded away.
pub proof fn lemma_quotient_is_positive(n: nat, d: nat)
    requires
        0 < d <= n,
    ensures
        rounded_quotient(n, d) > 0,
{
    let s = dropped_bits(n / d);
    let unit = pow2(s);
    lemma_pow2_pos(s);
    lemma_dropped_range(n / d);
    vstd::arithmetic::div_mod::lemma_div_denominator(n as int, d as int, unit as int);
    let q = n / (d * unit);
    assert(n / d >= 1) by (nonlinear_arith)
        requires
            0 < d <= n,
    ;
    vstd::arithmetic::power2::lemma2_to64();
    assert(n / d >= unit) by (nonlinear_arith)
        requires
            s == 0 ==> unit == 1,
            s > 0 ==> n / d >= SIGNIFICAND_START * unit,
            n / d >= 1,
            unit > 0,
    ;
    assert(q >= 1) by (nonlinear_arith)
        requires
            q == (n / d) / unit,
            n / d >= unit,
            unit > 0,
    ;
    assert(q * unit > 0 && (q + 1) * unit > 0) by (nonlinear_arith)
        requires
            q >= 1,
            unit > 0,
    ;
}

/// Rounding changes a number by at most one part in two to the power 53.
pub proof fn law_rounding_error(n: nat)
    ensures
        rounded(n) * 9_007_199_254_740_992 <= n * 9_007_199_254_740_993,
        rounded(n) * 9_007_199_254_740_992 >= n * 9_007_199_254_740_991,
{
    let s = dropped_bits(n);
    if s == 0 {
        lemma_rounded_bounds(n);
        vstd::arithmetic::power2::lemma2_to64();
        assert(SIGNIFICAND_END * pow2(0) == SIGNIFICAND_END);
        lemma_rounded_exact(n);
    } else {
        let unit = pow2(s);
        lemma_pow2_pos(s);
        lemma_rounded_bounds(n);
        assert(1 * unit == unit);
        lemma_fundamental_div_mod(n as int, unit as int);
        let (q, r) = (n / unit, n % unit);
        assert((q + 1) * unit == unit * q + unit && q * unit == unit * q) by (nonlinear_arith);
        assert(n >= SIGNIFICAND_START * unit);
    }
}

/// Rounding a large quotient changes it by at most one part in two to the power 53.
pub proof fn law_quotient_error(n: nat, d: nat)
    requires
        d > 0,
        n / d >= 9_007_199_254_740_992,
    ensures
        rounded_quotient(n, d) * d * 9_007_199_254_740_992 <= n * 9_007_199_254_740_993,
        rounded_quotient(n, d) * d * 9_007_199_254_740_992 >= n * 9_007_199_254_740_991,
{
    let s = dropped_bits(n / d);
    let p = pow2(s);
    lemma_pow2_pos(s);
    lemma_dropped_range(n / d);
    let unit = d * p;
    assert(unit > 0) by (nonlinear_arith)
        requires
            unit == d * p,
            d > 0,
            p > 0,
    ;
    lemma_fundamental_div_mod(n as int, unit as int);
    let (q, r) = (n / unit, n % unit);
    lemma_fundamental_div_mod(n as int, d as int);
    assert(n >= SIGNIFICAND_START * unit) by (nonlinear_arith)
        requires
            n / d >= SIGNIFICAND_START * p,
            n == d * (n / d) + n % d,
            n % d >= 0,
            unit == d * p,
            d > 0,
    ;
    assert(((q + 1) * p) * d == unit * q + unit && (q * p) * d == unit * q) by (nonlinear_arith)
        requires
            unit == d * p,
    ;
}

/// Dividing a multiple gives what rounding the number itself gives.
pub proof fn law_exact_quotient(k: nat, d: nat)
    requires
        d > 0,
    ensures
        rounded_quotient(k * d, d) == rounded(k),
{
    vstd::arithmetic::div_mod::lemma_div_multiples_vanish(k as int, d as int);
    assert(k * d == d * k) by (nonlinear_arith);
    let s = dropped_bits(k);
    let p = pow2(s);
    lemma_pow2_pos(s);
    assert(1 * p == p);
    lemma_fundamental_div_mod(k as int, p as int);
    let (q, r) = (k / p, k % p);
    let unit = d * p;
    assert(k * d == q * unit + r * d) by (nonlinear_arith)
        requires
            k == p * q + r,
            unit == d * p,
    ;
    assert(0 <= r * d < unit) by (nonlinear_arith)
        requires
            0 <= r < p,
            unit == d * p,
            d > 0,
    ;
    lemma_fundamental_div_mod_converse((k * d) as int, unit as int, q as int, (r * d) as int);
    assert(2 * (r * d) > unit <==> 2 * r > p) by (nonlinear_arith)
        requires
            unit == d * p,
            d > 0,
    ;
    assert(2 * (r * d) == unit <==> 2 * r == p) by (nonlinear_arith)
        requires
            unit == d * p,
            d > 0,
    ;
}

/// The memory that a model needs is its size and a tenth of it, to the byte up to
/// what a double can hold; no more than all that 64 bits can address.
pub proof fn law_headroom_is_a_tenth(bytes: u64)
    ensures
        headroom(bytes) <= u64::MAX,
        bytes <= 16_000_000_000_000_000_000 ==> {
            &&& 10 * headroom(bytes) * 4_503_599_627_370_496 <= 11 * bytes * 4_503_599_627_370_496
                + 32 * bytes
            &&& 10 * (headroom(bytes) + 1) * 4_503_599_627_370_496 >= 11 * bytes
                * 4_503_599_627_370_496 - 32 * bytes
        },
        bytes >= 17_000_000_000_000_000_000 ==> headroom(bytes) == u64::MAX,
{
    let b = bytes as nat;
    let x = rounded(b);
    let y = x * ELEVEN_TENTHS as nat;
    let z = rounded(y);
    law_rounding_error(b);
    law_rounding_error(y);
    lemma_fundamental_div_mod(z as int, SIGNIFICAND_START as int);
    assert(y == x * 4_953_959_590_107_546);
}

} // verus!
