//! Gigabyte figures in double precision.
//!
//! A figure is a non-negative double: a significand of 53 bits, scaled by a
//! power of two. Figures are counted in units of two to the power -90 gigabytes,
//! which is fine enough for every number of bytes, and for such a number scaled
//! by a factor near one.

use vstd::arithmetic::div_mod::{
    lemma_fundamental_div_mod, lemma_fundamental_div_mod_converse,
};
use vstd::arithmetic::power2::{
    lemma_pow2_adds, lemma_pow2_pos, lemma_pow2_strictly_increases, lemma_pow2_unfold, pow2,
};
use vstd::prelude::*;

use crate::double::{
    dropped_bits, lemma_dropped_bits, lemma_rounded_exact, lemma_rounded_monotone,
    lemma_rounded_scales, round_scaled, round_to_double, rounded, rounded_quotient,
    Scaled, ELEVEN_TENTHS, SIGNIFICAND_END, SIGNIFICAND_START,
};
use crate::text::{chars_of, decimal, decimal_text, double_digits, string_of};

verus! {

/// Bytes per gigabyte.
pub const GIGA: u64 = 1_000_000_000;

/// Units per gigabyte, as a power of two.
pub const UNIT_BITS: u32 = 90;

/// The powers of two that figures are computed with end here, far above those of
/// every finite double.
pub const EXPONENT_END: u128 = 0x1000_0000_0000_0000_0000_0000_0000_0000;

/// A non-negative number of gigabytes.
#[derive(Debug, Clone, Copy)]
pub struct Gigabytes {
    mant: u64,
    shift: u128,
}

/// The figure for a number of bytes: the bytes as a double, divided by 1e9.
pub open spec fn units_of_bytes(bytes: u64) -> nat {
    if bytes == 0 {
        0
    } else {
        rounded_quotient(rounded(bytes as nat) * pow2(UNIT_BITS as nat), GIGA as nat)
    }
}

impl Gigabytes {
    #[verifier::type_invariant]
    spec fn is_normal(&self) -> bool {
        (self.mant == 0 && self.shift == 0) || SIGNIFICAND_START <= self.mant < SIGNIFICAND_END
    }

    /// The figure in units.
    pub closed spec fn units(&self) -> nat {
        self.mant as nat * pow2(self.shift as nat)
    }

    /// The power of two of the figure's last place, in units.
    pub closed spec fn exponent(&self) -> nat {
        self.shift as nat
    }

    /// Nothing.
    pub fn zero() -> (r: Gigabytes)
        ensures
            r.units() == 0,
            r.exponent() == 0,
    {
        Gigabytes { mant: 0, shift: 0 }
    }

    /// Whether the figure is not zero. Every figure is a double.
    pub fn is_positive(&self) -> (r: bool)
        ensures
            r == (self.units() > 0),
            rounded(self.units()) == self.units(),
    {
        proof {
            use_type_invariant(self);
            lemma_normal_is_rounded(self.mant as nat, self.shift as nat);
            lemma_pow2_pos(self.shift as nat);
            let (m, p) = (self.mant as nat, pow2(self.shift as nat));
            assert(m > 0 ==> m * p > 0) by (nonlinear_arith)
                requires
                    p > 0,
            ;
            assert(m == 0 ==> m * p == 0) by (nonlinear_arith);
        }
        self.mant > 0
    }
}

/// A normal significand with the greater power of two is the greater number.
proof fn lemma_greater_shift(m: nat, k: nat, n: nat, l: nat)
    requires
        m < SIGNIFICAND_END,
        n >= SIGNIFICAND_START,
        k < l,
    ensures
        m * pow2(k) < n * pow2(l),
{
    lemma_pow2_unfold(k + 1);
    lemma_pow2_pos(k);
    if k + 1 < l {
        lemma_pow2_strictly_increases(k + 1, l);
    }
    let (p, q) = (pow2(k), pow2(l));
    assert(m * p < n * q) by (nonlinear_arith)
        requires
            m < SIGNIFICAND_END,
            n >= SIGNIFICAND_START,
            2 * p <= q,
            p > 0,
    ;
}

/// Whether one scaled significand is not greater than another.
fn scaled_at_most(m: u64, k: u128, n: u64, l: u128) -> (r: bool)
    requires
        m == 0 || SIGNIFICAND_START <= m < SIGNIFICAND_END,
        n == 0 || SIGNIFICAND_START <= n < SIGNIFICAND_END,
    ensures
        r == (m as nat * pow2(k as nat) <= n as nat * pow2(l as nat)),
{
    proof {
        lemma_pow2_pos(k as nat);
        lemma_pow2_pos(l as nat);
        let (p, q, a, b) = (pow2(k as nat), pow2(l as nat), m as nat, n as nat);
        assert(a == 0 ==> a * p == 0) by (nonlinear_arith);
        assert(b == 0 ==> b * q == 0) by (nonlinear_arith);
        assert(a > 0 ==> a * p > 0) by (nonlinear_arith)
            requires
                p > 0,
        ;
        if a > 0 && b > 0 {
            if k < l {
                lemma_greater_shift(a, k as nat, b, l as nat);
            } else if l < k {
                lemma_greater_shift(b, l as nat, a, k as nat);
            } else {
                assert(a <= b ==> a * p <= b * p) by (nonlinear_arith);
                assert(a > b ==> a * p > b * p) by (nonlinear_arith)
                    requires
                        p > 0,
                ;
            }
        }
    }
    if m == 0 {
        true
    } else if n == 0 {
        false
    } else if k < l {
        true
    } else if l < k {
        false
    } else {
        m <= n
    }
}

impl Gigabytes {
    /// Whether the figure is at least another one.
    pub fn at_least(&self, other: &Gigabytes) -> (r: bool)
        ensures
            r == (self.units() >= other.units()),
    {
        proof {
            use_type_invariant(self);
            use_type_invariant(other);
        }
        scaled_at_most(other.mant, other.shift, self.mant, self.shift)
    }

    /// Whether the figure times `factor / 2^bits`, rounded, is at least another
    /// one.
    pub fn product_at_least(&self, factor: u64, bits: u32, other: &Gigabytes) -> (r: bool)
        requires
            SIGNIFICAND_START <= factor < SIGNIFICAND_END,
            bits <= 53,
            self.exponent() < EXPONENT_END,
            other.exponent() < EXPONENT_END,
        ensures
            r == (rounded(self.units() * factor as nat) >= other.units() * pow2(bits as nat)),
    {
        let (mant, shift) = self.product(factor);
        proof {
            use_type_invariant(other);
            lemma_pow2_adds(other.shift as nat, bits as nat);
            let (m, p, q) = (other.mant as nat, pow2(other.shift as nat), pow2(bits as nat));
            assert(m * (p * q) == (m * p) * q) by (nonlinear_arith);
        }
        scaled_at_most(other.mant, other.shift + bits as u128, mant, shift)
    }

    /// Whether the figure times `factor / 2^bits`, rounded, is at most another
    /// one.
    pub fn product_at_most(&self, factor: u64, bits: u32, other: &Gigabytes) -> (r: bool)
        requires
            SIGNIFICAND_START <= factor < SIGNIFICAND_END,
            bits <= 53,
            self.exponent() < EXPONENT_END,
            other.exponent() < EXPONENT_END,
        ensures
            r == (rounded(self.units() * factor as nat) <= other.units() * pow2(bits as nat)),
    {
        let (mant, shift) = self.product(factor);
        proof {
            use_type_invariant(other);
            lemma_pow2_adds(other.shift as nat, bits as nat);
            let (m, p, q) = (other.mant as nat, pow2(other.shift as nat), pow2(bits as nat));
            assert(m * (p * q) == (m * p) * q) by (nonlinear_arith);
        }
        scaled_at_most(mant, shift, other.mant, other.shift + bits as u128)
    }

    /// The rounded product with an integer significand, split.
    fn product(&self, factor: u64) -> (r: (u64, u128))
        requires
            SIGNIFICAND_START <= factor < SIGNIFICAND_END,
            self.exponent() < EXPONENT_END,
        ensures
            r.0 as nat * pow2(r.1 as nat) == rounded(self.units() * factor as nat),
            r.0 == 0 || SIGNIFICAND_START <= r.0 < SIGNIFICAND_END,
            self.units() == 0 ==> r.0 == 0 && r.1 == 0,
            self.units() > 0 ==> r.0 > 0 && self.shift + 52 <= r.1 <= self.shift + 76,
    {
        proof {
            use_type_invariant(self);
            lemma_pow2_pos(self.shift as nat);
            let (m, f, p) = (self.mant as nat, factor as nat, pow2(self.shift as nat));
            assert((m * p) * f == (m * f) * p) by (nonlinear_arith);
            assert(m > 0 ==> m * p > 0) by (nonlinear_arith)
                requires
                    p > 0,
            ;
            assert(m == 0 ==> m * p == 0) by (nonlinear_arith);
            lemma_rounded_scales(m * f, self.shift as nat);
        }
        if self.mant == 0 {
            proof {
                lemma_rounded_exact(0);
                let f = factor as nat;
                assert(0 * f == 0) by (nonlinear_arith);
                lemma_pow2_pos(0);
                assert(0 * pow2(0) == 0);
            }
            return (0, 0);
        }
        let m: u128 = self.mant as u128;
        let f: u128 = factor as u128;
        assert(SIGNIFICAND_START * SIGNIFICAND_START <= m * f < SIGNIFICAND_END * SIGNIFICAND_END)
            by (nonlinear_arith)
            requires
                SIGNIFICAND_START <= m < SIGNIFICAND_END,
                SIGNIFICAND_START <= f < SIGNIFICAND_END,
        ;
        let n: u128 = m * f;
        let Scaled { mant, shift } = round_scaled(n);
        proof {
            lemma_product_bits(n as nat);
            lemma_pow2_adds(shift as nat, self.shift as nat);
            let (a, p, q) = (mant as nat, pow2(shift as nat), pow2(self.shift as nat));
            assert(a * (p * q) == (a * p) * q) by (nonlinear_arith);
        }
        (mant, self.shift + shift as u128)
    }

    /// The figure times 1.1.
    pub fn with_headroom(&self) -> (r: Gigabytes)
        requires
            self.exponent() < EXPONENT_END,
        ensures
            r.units() * SIGNIFICAND_START as nat == rounded(self.units() * ELEVEN_TENTHS as nat),
            r.exponent() <= self.exponent() + 24,
    {
        let (mant, shift) = self.product(ELEVEN_TENTHS as u64);
        proof {
            vstd::arithmetic::power2::lemma2_to64();
            vstd::arithmetic::power2::lemma2_to64_rest();
            if mant > 0 {
                let k = (shift - 52) as nat;
                lemma_pow2_adds(k, 52);
                let (m, p) = (mant as nat, pow2(k));
                assert(m * (p * SIGNIFICAND_START) == (m * p) * SIGNIFICAND_START)
                    by (nonlinear_arith);
            } else {
                assert(0 * pow2(0) == 0);
            }
        }
        if mant == 0 {
            Gigabytes::zero()
        } else {
            Gigabytes { mant, shift: shift - 52 }
        }
    }
}

/// The product of two significands has 105 or 106 bits.
proof fn lemma_product_bits(n: nat)
    requires
        SIGNIFICAND_START * SIGNIFICAND_START <= n < SIGNIFICAND_END * SIGNIFICAND_END,
    ensures
        52 <= dropped_bits(n) <= 53,
{
    vstd::arithmetic::power2::lemma2_to64();
    vstd::arithmetic::power2::lemma2_to64_rest();
    if n < SIGNIFICAND_END * SIGNIFICAND_START {
        lemma_dropped_bits(n, 52);
    } else {
        lemma_dropped_bits(n, 53);
    }
}

/// A normal figure is a double.
proof fn lemma_normal_is_rounded(m: nat, k: nat)
    requires
        m <= SIGNIFICAND_END,
    ensures
        rounded(m * pow2(k)) == m * pow2(k),
{
    lemma_rounded_exact(m);
    lemma_rounded_scales(m, k);
}

/// A second summand far below the last place of the first is rounded away.
proof fn lemma_far_summand(m: nat, d: nat, n: nat)
    requires
        SIGNIFICAND_START <= m < SIGNIFICAND_END,
        n < SIGNIFICAND_END,
        d >= 66,
    ensures
        rounded(m * pow2(d) + n) == m * pow2(d),
{
    vstd::arithmetic::power2::lemma2_to64();
    vstd::arithmetic::power2::lemma2_to64_rest();
    lemma_pow2_pos(d);
    lemma_pow2_strictly_increases(64, d);
    let p = pow2(d);
    let t = m * p + n;
    assert(SIGNIFICAND_START * p <= t < SIGNIFICAND_END * p) by (nonlinear_arith)
        requires
            t == m * p + n,
            SIGNIFICAND_START <= m,
            m + 1 <= SIGNIFICAND_END,
            n < p,
            p > 0,
    ;
    lemma_dropped_bits(t, d);
    assert(t == m * p + n);
    lemma_fundamental_div_mod_converse(t as int, p as int, m as int, n as int);
    assert(1 * p == p);
}

impl Gigabytes {
    /// The rounded sum of two figures.
    pub fn plus(&self, other: &Gigabytes) -> (r: Gigabytes)
        requires
            self.exponent() < EXPONENT_END,
            other.exponent() < EXPONENT_END,
        ensures
            r.units() == rounded(self.units() + other.units()),
            r.exponent() <= self.exponent() + 1 || r.exponent() <= other.exponent() + 1,
    {
        proof {
            use_type_invariant(self);
            use_type_invariant(other);
        }
        if self.shift >= other.shift {
            Gigabytes::sum(self, other)
        } else {
            Gigabytes::sum(other, self)
        }
    }

    /// The rounded sum of a figure and one with a power of two that is not
    /// greater.
    fn sum(a: &Gigabytes, b: &Gigabytes) -> (r: Gigabytes)
        requires
            b.shift <= a.shift < EXPONENT_END,
        ensures
            r.units() == rounded(a.units() + b.units()),
            r.shift <= a.shift + 1,
    {
        proof {
            use_type_invariant(a);
            use_type_invariant(b);
            lemma_normal_is_rounded(a.mant as nat, a.shift as nat);
            lemma_normal_is_rounded(b.mant as nat, b.shift as nat);
            let (pa, pb) = (pow2(a.shift as nat), pow2(b.shift as nat));
            assert(0 * pa == 0 && 0 * pb == 0) by (nonlinear_arith);
        }
        if b.mant == 0 {
            return *a;
        }
        if a.mant == 0 {
            return *b;
        }
        let d: u128 = a.shift - b.shift;
        proof {
            lemma_pow2_adds(d as nat, b.shift as nat);
            let (m, n, p, q) = (
                a.mant as nat,
                b.mant as nat,
                pow2(d as nat),
                pow2(b.shift as nat),
            );
            assert(m * (p * q) + n * q == (m * p + n) * q) by (nonlinear_arith);
            lemma_rounded_scales(m * p + n, b.shift as nat);
            assert(m * (p * q) == (m * p) * q) by (nonlinear_arith);
        }
        if d >= 66 {
            proof {
                lemma_far_summand(a.mant as nat, d as nat, b.mant as nat);
            }
            return *a;
        }
        let mut t: u128 = a.mant as u128;
        let mut unit: u128 = 1;
        let mut i: u128 = 0;
        proof {
            vstd::arithmetic::power2::lemma2_to64();
        }
        while i < d
            invariant
                i <= d < 66,
                t == a.mant as nat * unit,
                unit == pow2(i as nat),
                unit <= 0x4_0000_0000_0000_0000,
                i < 66 ==> unit <= 0x4_0000_0000_0000_0000,
                a.mant < SIGNIFICAND_END,
            decreases d - i,
        {
            proof {
                lemma_pow2_unfold((i + 1) as nat);
                lemma_small_pow2((i + 1) as nat);
                let (m, u) = (a.mant as nat, unit as nat);
                assert(m * (2 * u) == 2 * (m * u)) by (nonlinear_arith);
                assert(m * u <= SIGNIFICAND_END * u) by (nonlinear_arith)
                    requires
                        m <= SIGNIFICAND_END,
                ;
            }
            t = t * 2;
            unit = unit * 2;
            i = i + 1;
        }
        proof {
            let (m, u) = (a.mant as nat, unit as nat);
            assert(m * u <= SIGNIFICAND_END * u) by (nonlinear_arith)
                requires
                    m <= SIGNIFICAND_END,
            ;
            lemma_sum_bits(m, b.mant as nat, d as nat);
        }
        let n: u128 = t + b.mant as u128;
        let Scaled { mant, shift } = round_scaled(n);
        proof {
            lemma_pow2_adds(shift as nat, b.shift as nat);
            let (x, p, q) = (mant as nat, pow2(shift as nat), pow2(b.shift as nat));
            assert(x * (p * q) == (x * p) * q) by (nonlinear_arith);
            if shift > d + 1 {
                assert(shift == d + 2);
                lemma_pow2_unfold((d + 2) as nat);
                let h = pow2((d + 1) as nat);
                assert(x * (2 * h) >= SIGNIFICAND_END * h) by (nonlinear_arith)
                    requires
                        x >= SIGNIFICAND_START,
                ;
            }
        }
        Gigabytes { mant, shift: b.shift + shift as u128 }
    }
}

/// Powers of two up to the 66th.
proof fn lemma_small_pow2(i: nat)
    requires
        i <= 66,
    ensures
        pow2(i) <= 0x4_0000_0000_0000_0000,
{
    vstd::arithmetic::power2::lemma2_to64();
    vstd::arithmetic::power2::lemma2_to64_rest();
    lemma_pow2_adds(64, 2);
    if i < 66 {
        lemma_pow2_strictly_increases(i, 66);
    }
}

/// A sum has at most one bit more than its greater summand.
proof fn lemma_sum_bits(m: nat, n: nat, d: nat)
    requires
        SIGNIFICAND_START <= m < SIGNIFICAND_END,
        n < SIGNIFICAND_END,
        d < 66,
    ensures
        rounded(m * pow2(d) + n) >= SIGNIFICAND_START * pow2(d),
        dropped_bits(m * pow2(d) + n) <= d + 1,
        dropped_bits(m * pow2(d) + n) == d + 1 ==> rounded(m * pow2(d) + n) < SIGNIFICAND_END
            * pow2(d + 1),
{
    lemma_pow2_pos(d);
    lemma_pow2_unfold(d + 1);
    let p = pow2(d);
    let t = m * p + n;
    assert(SIGNIFICAND_START * p <= t && t < 2 * SIGNIFICAND_END * p && t + 2 <= 2
        * SIGNIFICAND_END * p) by (nonlinear_arith)
        requires
            t == m * p + n,
            SIGNIFICAND_START <= m,
            m + 1 <= SIGNIFICAND_END,
            n + 1 <= SIGNIFICAND_END,
            p >= 1,
    ;
    assert(2 * SIGNIFICAND_END * p == SIGNIFICAND_END * (2 * p)) by (nonlinear_arith);
    if t < SIGNIFICAND_END * p {
        if d == 0 {
            vstd::arithmetic::power2::lemma2_to64();
        }
        lemma_dropped_bits(t, d);
    } else {
        assert(SIGNIFICAND_END * p == SIGNIFICAND_START * (2 * p)) by (nonlinear_arith);
        lemma_dropped_bits(t, d + 1);
    }
    crate::double::lemma_rounded_bounds(t);
    lemma_rounded_monotone(SIGNIFICAND_START as nat * p, t);
    lemma_normal_is_rounded(SIGNIFICAND_START as nat, d);
    if dropped_bits(t) == d + 1 {
        // The largest sum of two figures rounds to less than a power of two.
        let top = ((SIGNIFICAND_END - 1) * (2 * p)) as nat;
        assert(t <= top) by (nonlinear_arith)
            requires
                t == m * p + n,
                m + 1 <= SIGNIFICAND_END,
                n + 1 <= SIGNIFICAND_END,
                p >= 1,
                top == (SIGNIFICAND_END - 1) * (2 * p),
        ;
        lemma_rounded_monotone(t, top);
        lemma_normal_is_rounded((SIGNIFICAND_END - 1) as nat, d + 1);
        assert((SIGNIFICAND_END - 1) * (2 * p) < SIGNIFICAND_END * (2 * p)) by (nonlinear_arith)
            requires
                p >= 1,
        ;
    }
}

impl Gigabytes {
    /// The figure for a number of bytes.
    pub fn from_bytes(bytes: u64) -> (r: Gigabytes)
        ensures
            r.units() == units_of_bytes(bytes),
            r.exponent() <= 73,
    {
        if bytes == 0 {
            return Gigabytes::zero();
        }
        proof {
            lemma_rounded_monotone(1, bytes as nat);
            lemma_rounded_exact(1);
            lemma_rounded_monotone(bytes as nat, 0x1_0000_0000_0000_0000nat);
            lemma_rounded_scales(1, 64);
            vstd::arithmetic::power2::lemma2_to64();
            vstd::arithmetic::power2::lemma2_to64_rest();
            assert(1 * pow2(64) == pow2(64));
        }
        let size = round_to_double(bytes as u128);
        let mut x: u128 = size;
        let mut e: u32 = 0;
        while x < 4_503_599_627_370_496_000_000_000
            invariant
                x == size * pow2(e as nat),
                1 <= size <= 0x1_0000_0000_0000_0000,
                e <= 90,
                x < 9_007_199_254_740_992_000_000_000,
            decreases 9_007_199_254_740_992_000_000_000 - x,
        {
            proof {
                lemma_pow2_unfold((e + 1) as nat);
                let (n, p) = (size as nat, pow2(e as nat));
                assert(n * (2 * p) == 2 * (n * p)) by (nonlinear_arith);
                lemma_pow2_pos(e as nat);
                assert(n * p >= p) by (nonlinear_arith)
                    requires
                        n >= 1,
                ;
                assert(n * p > 0);
                lemma_scaling_stops(size as nat, e as nat);
            }
            x = x * 2;
            e = e + 1;
        }
        proof {
            lemma_scaling_stops(size as nat, e as nat);
        }
        let q: u128 = x / 1_000_000_000;
        let r: u128 = x % 1_000_000_000;
        proof {
            lemma_quotient_of_bytes(size as nat, e as nat, x as nat);
        }
        let m: u128 = if 2 * r > 1_000_000_000 || (2 * r == 1_000_000_000 && q % 2 == 1) {
            q + 1
        } else {
            q
        };
        let shift: u32 = UNIT_BITS - e;
        proof {
            lemma_pow2_unfold((shift + 1) as nat);
            let p = pow2(shift as nat);
            assert(SIGNIFICAND_END * p == SIGNIFICAND_START * (2 * p)) by (nonlinear_arith);
        }
        if m == SIGNIFICAND_END {
            Gigabytes { mant: SIGNIFICAND_START as u64, shift: shift as u128 + 1 }
        } else {
            Gigabytes { mant: m as u64, shift: shift as u128 }
        }
    }
}

/// Scaling a number of bytes until it has enough bits takes between 18 and 82
/// steps.
proof fn lemma_scaling_stops(size: nat, e: nat)
    requires
        1 <= size <= 0x1_0000_0000_0000_0000,
        size * pow2(e) < 9_007_199_254_740_992_000_000_000,
    ensures
        e <= 83,
        size * pow2(e) >= 4_503_599_627_370_496_000_000_000 ==> e >= 18,
        size * pow2(e) < 4_503_599_627_370_496_000_000_000 ==> e <= 82,
{
    vstd::arithmetic::power2::lemma2_to64();
    vstd::arithmetic::power2::lemma2_to64_rest();
    lemma_pow2_adds(64, 19);
    lemma_pow2_adds(64, 18);
    let p = pow2(e);
    assert(size * p >= p) by (nonlinear_arith)
        requires
            size >= 1,
    ;
    if e > 83 {
        lemma_pow2_strictly_increases(83, e);
    }
    if e > 82 && size * p < 4_503_599_627_370_496_000_000_000 {
        if e > 83 {
            lemma_pow2_strictly_increases(83, e);
        }
    }
    if e < 18 {
        lemma_pow2_strictly_increases(e, 18);
        assert(size * p <= 0x1_0000_0000_0000_0000 * 131072) by (nonlinear_arith)
            requires
                size <= 0x1_0000_0000_0000_0000,
                p <= 131072,
        ;
    }
}

/// The rounded quotient can be computed from the scaled number.
proof fn lemma_quotient_of_bytes(size: nat, e: nat, x: nat)
    requires
        18 <= e <= 83,
        x == size * pow2(e),
        4_503_599_627_370_496_000_000_000 <= x < 9_007_199_254_740_992_000_000_000,
    ensures
        SIGNIFICAND_START <= x / 1_000_000_000 < SIGNIFICAND_END,
        rounded_quotient(size * pow2(UNIT_BITS as nat), GIGA as nat) == (if 2 * (x
            % 1_000_000_000) > 1_000_000_000 || (2 * (x % 1_000_000_000) == 1_000_000_000 && (x
            / 1_000_000_000) % 2 == 1) {
            (x / 1_000_000_000 + 1) * pow2((UNIT_BITS - e) as nat)
        } else {
            (x / 1_000_000_000) * pow2((UNIT_BITS - e) as nat)
        }),
{
    let s = (UNIT_BITS - e) as nat;
    let d = GIGA as nat;
    let p = pow2(s);
    lemma_pow2_pos(s);
    lemma_pow2_adds(e, s);
    let n = size * pow2(UNIT_BITS as nat);
    assert(size * (pow2(e) * p) == x * p) by (nonlinear_arith)
        requires
            x == size * pow2(e),
    ;
    assert(n == x * p);
    let (q, r) = (x / d, x % d);
    lemma_fundamental_div_mod(x as int, d as int);
    // n / d keeps the significand q and s further bits.
    assert(q * p * d <= n < (q + 1) * p * d) by (nonlinear_arith)
        requires
            n == x * p,
            x == d * q + r,
            r < d,
            p > 0,
            d > 0,
    ;
    let f = n / d;
    lemma_fundamental_div_mod(n as int, d as int);
    assert(q * p <= f < (q + 1) * p) by (nonlinear_arith)
        requires
            q * p * d <= n < (q + 1) * p * d,
            n == d * f + n % d,
            0 <= n % d < d,
            d > 0,
    ;
    assert(SIGNIFICAND_START * p <= q * p) by (nonlinear_arith)
        requires
            SIGNIFICAND_START <= q,
    ;
    assert((q + 1) * p <= SIGNIFICAND_END * p) by (nonlinear_arith)
        requires
            q + 1 <= SIGNIFICAND_END,
    ;
    lemma_dropped_bits(f, s);
    let unit = d * p;
    assert(n == q * unit + r * p) by (nonlinear_arith)
        requires
            n == x * p,
            x == d * q + r,
            unit == d * p,
    ;
    assert(0 <= r * p < unit) by (nonlinear_arith)
        requires
            r < d,
            unit == d * p,
            p > 0,
            r >= 0,
    ;
    lemma_fundamental_div_mod_converse(n as int, unit as int, q as int, (r * p) as int);
    assert(2 * (r * p) > unit <==> 2 * r > d) by (nonlinear_arith)
        requires
            unit == d * p,
            p > 0,
    ;
    assert(2 * (r * p) == unit <==> 2 * r == d) by (nonlinear_arith)
        requires
            unit == d * p,
            p > 0,
    ;
}

/// The integer nearest to `n / d`, ties to even.
pub open spec fn nearest(n: nat, d: nat) -> nat {
    let q = n / d;
    let r = n % d;
    if 2 * r > d || (2 * r == d && q % 2 == 1) {
        q + 1
    } else {
        q
    }
}

/// Tenths of a gigabyte, to the nearest, ties to even.
pub open spec fn tenths(units: nat) -> nat {
    nearest(10 * units, pow2(UNIT_BITS as nat))
}

/// A figure with one decimal place.
pub open spec fn tenths_text(t: nat) -> Seq<char> {
    decimal(t / 10) + seq!['.'] + decimal(t % 10)
}

/// A common factor does not change the nearest integer.
proof fn lemma_nearest_scales(n: nat, d: nat, p: nat)
    requires
        d > 0,
        p > 0,
    ensures
        nearest(n * p, d * p) == nearest(n, d),
{
    let (q, r) = (n / d, n % d);
    lemma_fundamental_div_mod(n as int, d as int);
    assert(n * p == q * (d * p) + r * p) by (nonlinear_arith)
        requires
            n == d * q + r,
    ;
    assert(0 <= r * p < d * p) by (nonlinear_arith)
        requires
            0 <= r < d,
            p > 0,
    ;
    assert(d * p > 0) by (nonlinear_arith)
        requires
            d > 0,
            p > 0,
    ;
    lemma_fundamental_div_mod_converse(
        (n * p) as int,
        (d * p) as int,
        q as int,
        (r * p) as int,
    );
    assert(2 * (r * p) > d * p <==> 2 * r > d) by (nonlinear_arith)
        requires
            p > 0,
    ;
    assert(2 * (r * p) == d * p <==> 2 * r == d) by (nonlinear_arith)
        requires
            p > 0,
    ;
}

/// A power of two.
fn two_to(k: u32) -> (r: u128)
    requires
        k <= 120,
    ensures
        r == pow2(k as nat),
{
    let mut r: u128 = 1;
    let mut i: u32 = 0;
    proof {
        vstd::arithmetic::power2::lemma2_to64();
        vstd::arithmetic::power2::lemma2_to64_rest();
        lemma_pow2_adds(64, 56);
    }
    while i < k
        invariant
            i <= k <= 120,
            r == pow2(i as nat),
            pow2(120) == 0x1_000000_000000_000000_000000_000000,
        decreases k - i,
    {
        proof {
            lemma_pow2_unfold((i + 1) as nat);
            if i < 119 {
                lemma_pow2_strictly_increases((i + 1) as nat, 120);
            }
        }
        r = r * 2;
        i = i + 1;
    }
    r
}

/// A significand, scaled by a power of two, written in decimal.
fn scaled_text(m: u64, k: u128) -> (r: String)
    ensures
        r@ == decimal(m as nat * pow2(k as nat)),
{
    let mut digits = chars_of(decimal_text(m as u128).as_str());
    let mut i: u128 = 0;
    proof {
        vstd::arithmetic::power2::lemma2_to64();
        assert(m as nat * pow2(0) == m);
    }
    while i < k
        invariant
            i <= k,
            digits@ == decimal(m as nat * pow2(i as nat)),
        decreases k - i,
    {
        let ghost n = m as nat * pow2(i as nat);
        digits = double_digits(digits, 0, Ghost(n));
        proof {
            lemma_pow2_unfold((i + 1) as nat);
            let (a, p) = (m as nat, pow2(i as nat));
            assert(a * (2 * p) == 2 * (a * p)) by (nonlinear_arith);
        }
        i = i + 1;
    }
    string_of(digits.as_slice())
}

impl Gigabytes {
    /// The figure with one decimal place.
    pub fn text(&self) -> (r: String)
        ensures
            r@ == tenths_text(tenths(self.units())),
    {
        proof {
            use_type_invariant(self);
            vstd::arithmetic::power2::lemma2_to64();
            vstd::arithmetic::power2::lemma2_to64_rest();
        }
        if self.shift >= 90 {
            let k: u128 = self.shift - 90;
            let whole = scaled_text(self.mant, k);
            let text = whole.concat(".0");
            proof {
                lemma_pow2_adds(k as nat, 90);
                lemma_pow2_pos(90);
                let (m, a, b) = (self.mant as nat, pow2(k as nat), pow2(90));
                let t = 10 * (m * a);
                assert(10 * (m * (a * b)) == t * b) by (nonlinear_arith)
                    requires
                        t == 10 * (m * a),
                ;
                assert(10 * self.units() == t * b);
                lemma_nearest_scales(t, 1, b);
                assert(t / 1 == t && t % 1 == 0);
                assert(1 * b == b);
                assert(t / 10 == m * a && t % 10 == 0);
                reveal_strlit(".0");
                assert(decimal(0) =~= seq!['0']);
                assert(".0"@ =~= seq!['.'] + decimal(0));
                assert(text@ =~= tenths_text(t));
            }
            return text;
        }
        let n: u128 = 10 * self.mant as u128;
        let k: u32 = (90 - self.shift) as u32;
        let d = two_to(k);
        proof {
            lemma_pow2_pos(k as nat);
            lemma_pow2_pos(self.shift as nat);
            lemma_pow2_adds(k as nat, self.shift as nat);
            vstd::arithmetic::power2::lemma_pow2_strictly_increases(k as nat, 91);
            lemma_pow2_adds(64, 27);
            let (m, a) = (self.mant as nat, pow2(self.shift as nat));
            assert(10 * (m * a) == (10 * m) * a) by (nonlinear_arith);
            lemma_nearest_scales(n as nat, d as nat, a);
        }
        let q = n / d;
        let r = n % d;
        let t: u128 = if 2 * r > d || (2 * r == d && q % 2 == 1) {
            q + 1
        } else {
            q
        };
        let mut text = decimal_text(t / 10);
        text.push('.');
        let last = decimal_text(t % 10);
        text.append(last.as_str());
        assert(text@ =~= tenths_text(t as nat));
        text
    }

    /// The figure as whole bytes: times 1e9, rounded, truncated, and at most what
    /// fits.
    pub fn to_bytes(&self) -> (r: u64)
        requires
            self.exponent() < EXPONENT_END,
        ensures
            r == bytes_of_units(self.units()),
    {
        let (mant, shift) = self.product(8_388_608_000_000_000);
        proof {
            use_type_invariant(self);
            vstd::arithmetic::power2::lemma2_to64();
            vstd::arithmetic::power2::lemma2_to64_rest();
            lemma_pow2_pos(113);
        }
        if shift >= 113 {
            let k: u128 = shift - 113;
            if k > 64 {
                proof {
                    lemma_pow2_adds(k as nat, 113);
                    lemma_pow2_strictly_increases(64, k as nat);
                    let (m, a, b) = (mant as nat, pow2(k as nat), pow2(113));
                    assert(m * (a * b) == (m * a) * b) by (nonlinear_arith);
                    vstd::arithmetic::div_mod::lemma_div_by_multiple((m * a) as int, b as int);
                    assert(m * a > 0xffff_ffff_ffff_ffff) by (nonlinear_arith)
                        requires
                            m >= 1,
                            a > 0x1_0000_0000_0000_0000,
                    ;
                }
                return u64::MAX;
            }
            let p = two_to(k as u32);
            proof {
                lemma_pow2_adds(k as nat, 113);
                if k < 64 {
                    lemma_pow2_strictly_increases(k as nat, 64);
                }
                let (m, a, b) = (mant as nat, pow2(k as nat), pow2(113));
                assert(m * (a * b) == (m * a) * b) by (nonlinear_arith);
                vstd::arithmetic::div_mod::lemma_div_by_multiple((m * a) as int, b as int);
                assert(m * a <= SIGNIFICAND_END * 0x1_0000_0000_0000_0000) by (nonlinear_arith)
                    requires
                        m <= SIGNIFICAND_END,
                        a <= 0x1_0000_0000_0000_0000,
                ;
            }
            let bytes: u128 = mant as u128 * p;
            if bytes <= u64::MAX as u128 {
                bytes as u64
            } else {
                u64::MAX
            }
        } else {
            let k: u32 = (113 - shift) as u32;
            let d = two_to(k);
            proof {
                lemma_pow2_pos(k as nat);
                lemma_pow2_pos(shift as nat);
                lemma_pow2_adds(k as nat, shift as nat);
                let (m, a, b) = (mant as nat, pow2(shift as nat), pow2(k as nat));
                assert(m * a == a * m) by (nonlinear_arith);
                assert(b * a == a * b) by (nonlinear_arith);
                vstd::arithmetic::div_mod::lemma_div_multiples_vanish_quotient(
                    a as int,
                    m as int,
                    b as int,
                );
                assert(m / b <= m) by (nonlinear_arith)
                    requires
                        b >= 1,
                ;
            }
            (mant as u128 / d) as u64
        }
    }

    /// The significand and the power of two, counted from two to the power -90,
    /// that make up the figure.
    pub fn parts(&self) -> (r: (u64, u128))
        ensures
            r.0 as nat * pow2(r.1 as nat) == self.units(),
    {
        (self.mant, self.shift)
    }
}

/// The whole bytes of a figure: times 1e9, rounded, truncated, and at most what
/// fits in 64 bits.
pub open spec fn bytes_of_units(units: nat) -> int {
    let bytes = rounded(units * 8_388_608_000_000_000) / pow2(113);
    if bytes <= u64::MAX {
        bytes as int
    } else {
        u64::MAX as int
    }
}

/// A whole number of gigabytes is that number.
pub proof fn law_whole_gigabytes(g: nat)
    requires
        g <= 4_000_000_000,
    ensures
        units_of_bytes((g * 1_000_000_000) as u64) == g * pow2(90),
{
    if g > 0 {
        vstd::arithmetic::power2::lemma2_to64();
        crate::double::lemma_rounded_exact(g * 1_953_125);
        crate::double::lemma_rounded_scales(g * 1_953_125, 9);
        assert((g * 1_953_125) * 512 == g * 1_000_000_000);
        let n = g * pow2(90);
        assert((g * 1_000_000_000) * pow2(90) == n * 1_000_000_000) by (nonlinear_arith)
            requires
                n == g * pow2(90),
        ;
        crate::double::law_exact_quotient(n, 1_000_000_000);
        crate::double::lemma_rounded_exact(g);
        crate::double::lemma_rounded_scales(g, 90);
    }
}

/// The figure for a number of bytes is that number divided by a thousand million, up
/// to one part in two to the power 51.
pub proof fn law_figure_of_bytes(bytes: u64)
    ensures
        units_of_bytes(bytes) * 1_000_000_000 * 2_251_799_813_685_248 <= bytes * pow2(90)
            * 2_251_799_813_685_249,
        units_of_bytes(bytes) * 1_000_000_000 * 2_251_799_813_685_248 >= bytes * pow2(90)
            * 2_251_799_813_685_247,
{
    if bytes > 0 {
        let p = pow2(90);
        let x = rounded(bytes as nat);
        let n = x * p;
        crate::double::law_rounding_error(bytes as nat);
        vstd::arithmetic::power2::lemma2_to64();
        vstd::arithmetic::power2::lemma2_to64_rest();
        lemma_pow2_adds(64, 26);
        crate::double::lemma_rounded_exact(1);
        crate::double::lemma_rounded_monotone(1, bytes as nat);
        assert(p == 0x1_0000_0000_0000_0000 * 0x400_0000);
        assert(n >= p) by (nonlinear_arith)
            requires
                n == x * p,
                x >= 1,
        ;
        assert(n / 1_000_000_000 >= 9_007_199_254_740_992);
        crate::double::law_quotient_error(n, 1_000_000_000);
        let u = units_of_bytes(bytes);
        assert(u * 1_000_000_000 * 9_007_199_254_740_992 <= n * 9_007_199_254_740_993);
        let m = bytes * p;
        assert(n * 9_007_199_254_740_992 <= m * 9_007_199_254_740_993) by (nonlinear_arith)
            requires
                n == x * p,
                m == bytes * p,
                x * 9_007_199_254_740_992 <= bytes * 9_007_199_254_740_993,
                p > 0,
        ;
        assert(n * 9_007_199_254_740_992 >= m * 9_007_199_254_740_991) by (nonlinear_arith)
            requires
                n == x * p,
                m == bytes * p,
                x * 9_007_199_254_740_992 >= bytes * 9_007_199_254_740_991,
                p > 0,
        ;
    }
}

/// A figure with one decimal place is off by at most half a tenth.
pub proof fn law_tenths(units: nat)
    ensures
        2 * tenths(units) * pow2(90) <= 20 * units + pow2(90),
        2 * tenths(units) * pow2(90) + pow2(90) >= 20 * units,
{
    let p = pow2(90);
    lemma_pow2_pos(90);
    lemma_fundamental_div_mod((10 * units) as int, p as int);
    let (q, r) = ((10 * units) / p, (10 * units) % p);
    assert((q + 1) * p == p * q + p && q * p == p * q) by (nonlinear_arith);
    assert(2 * (q + 1) * p == 2 * ((q + 1) * p) && 2 * q * p == 2 * (q * p)) by (nonlinear_arith);
}

/// The whole bytes of a figure are the figure times a thousand million, rounded like
/// a double and cut off.
pub proof fn law_bytes_of_figure(units: nat)
    ensures
        bytes_of_units(units) <= u64::MAX,
        bytes_of_units(units) * pow2(90) * 9_007_199_254_740_992 <= units * 1_000_000_000
            * 9_007_199_254_740_993,
        bytes_of_units(units) < u64::MAX ==> (bytes_of_units(units) + 1) * pow2(90)
            * 9_007_199_254_740_992 >= units * 1_000_000_000 * 9_007_199_254_740_991,
{
    let (p, t) = (pow2(90), pow2(113));
    lemma_pow2_pos(113);
    lemma_pow2_pos(90);
    lemma_pow2_adds(90, 23);
    vstd::arithmetic::power2::lemma2_to64();
    assert(t == p * 8_388_608);
    let x = units * 8_388_608_000_000_000;
    let r = rounded(x);
    crate::double::law_rounding_error(x);
    lemma_fundamental_div_mod(r as int, t as int);
    let b = r / t;
    assert(b * t == t * b && (b + 1) * t == t * b + t) by (nonlinear_arith);
    assert(b * t == (b * p) * 8_388_608 && (b + 1) * t == ((b + 1) * p) * 8_388_608) by (nonlinear_arith)
        requires
            t == p * 8_388_608,
    ;
    if b > u64::MAX {
        assert(u64::MAX * p <= b * p) by (nonlinear_arith)
            requires
                u64::MAX <= b,
        ;
    }
}

/// A whole number of gigabytes is shown with a zero behind the point.
pub proof fn law_whole_gigabytes_text(g: nat)
    ensures
        tenths(g * pow2(90)) == 10 * g,
        tenths_text(10 * g) == decimal(g) + seq!['.', '0'],
{
    let p = pow2(90);
    lemma_pow2_pos(90);
    assert(10 * (g * p) == (10 * g) * p) by (nonlinear_arith);
    vstd::arithmetic::div_mod::lemma_div_multiples_vanish((10 * g) as int, p as int);
    vstd::arithmetic::div_mod::lemma_mod_multiples_basic((10 * g) as int, p as int);
    assert((10 * g) * p == p * (10 * g)) by (nonlinear_arith);
    assert((10 * g) / 10 == g && (10 * g) % 10 == 0);
    assert(decimal(0) =~= seq!['0']);
    assert(tenths_text(10 * g) =~= decimal(g) + seq!['.', '0']);
}

/// The tenths of a figure stand behind its point, and what stands before it is whole.
pub proof fn law_tenths_text(whole: nat, tenth: nat)
    requires
        tenth < 10,
    ensures
        tenths_text(10 * whole + tenth) == decimal(whole) + seq!['.'] + decimal(tenth),
{
    assert((10 * whole + tenth) / 10 == whole && (10 * whole + tenth) % 10 == tenth);
}

} // verus!
