//! Floating-point numbers by their bit patterns: no arithmetic is done on them
//! here, but they are compared, clamped and cut down to whole numbers.
use vstd::arithmetic::div_mod::{
    lemma_basic_div, lemma_div_is_ordered, lemma_div_multiples_vanish,
    lemma_div_multiples_vanish_quotient,
};
use vstd::arithmetic::power2::{
    lemma_pow2_adds, lemma_pow2_pos, lemma_pow2_strictly_increases, lemma_pow2_unfold, pow2,
};
use vstd::bits::{lemma_u64_shl_is_mul, lemma_u64_shr_is_div};
use vstd::prelude::*;

verus! {

/// A number in the IEEE 754 binary64 format.
#[derive(Clone, Copy, Debug, PartialEq, Eq, Structural)]
pub struct Double {
    pub bits: u64,
}

/// The first bit pattern above the 52 bits of the fraction.
pub const FRACTION: u64 = 0x10_0000_0000_0000;

/// The bit pattern that holds the sign alone.
pub const SIGN: u64 = 0x8000_0000_0000_0000;

/// The bit pattern of infinity.
pub const INFINITY: u64 = 0x7FF0_0000_0000_0000;

/// The size of the number with the given exponent and fraction bits, in units
/// of the smallest positive one (two to the power of minus 1074). Infinity
/// comes out above every finite number.
pub open spec fn magnitude(x: nat) -> nat {
    let e = x / (FRACTION as nat);
    let m = x % (FRACTION as nat);
    if e == 0 {
        m
    } else {
        (FRACTION as nat + m) * pow2((e - 1) as nat)
    }
}

/// One, in units of the smallest positive number.
pub open spec fn one() -> int {
    pow2(1074) as int
}

impl Double {
    pub open spec fn negative(self) -> bool {
        self.bits >= SIGN
    }

    /// The bits of the exponent and the fraction.
    pub open spec fn low(self) -> nat {
        (self.bits % SIGN) as nat
    }

    pub open spec fn is_nan(self) -> bool {
        self.low() > INFINITY
    }

    /// The number's value, in units of the smallest positive one.
    pub open spec fn scaled(self) -> int {
        if self.negative() {
            -magnitude(self.low())
        } else {
            magnitude(self.low()) as int
        }
    }

    /// Whether both are numbers and the first is the smaller.
    pub open spec fn less(self, other: Double) -> bool {
        !self.is_nan() && !other.is_nan() && self.scaled() < other.scaled()
    }

    /// Whether both are numbers and the first is not the larger.
    pub open spec fn at_most(self, other: Double) -> bool {
        !self.is_nan() && !other.is_nan() && self.scaled() <= other.scaled()
    }

    /// Whether this is a number below the whole number `n`.
    pub open spec fn below(self, n: int) -> bool {
        !self.is_nan() && self.scaled() < n * one()
    }

    /// Whether this is a number above the whole number `n`.
    pub open spec fn above(self, n: int) -> bool {
        !self.is_nan() && self.scaled() > n * one()
    }

    /// The whole number that is left when the fraction is cut off, within what
    /// an `u64` holds; zero if this is no number.
    pub open spec fn cut_off(self) -> int {
        if self.is_nan() || self.scaled() <= 0 {
            0
        } else if self.scaled() / one() > u64::MAX {
            u64::MAX as int
        } else {
            self.scaled() / one()
        }
    }

    /// The number held within the two bounds; what is no number stays so.
    pub open spec fn clamped(self, low: Double, high: Double) -> Double {
        if self.less(low) {
            low
        } else if high.less(self) {
            high
        } else {
            self
        }
    }

    /// The smaller of two; the other one where one is no number.
    pub open spec fn smaller(self, other: Double) -> Double {
        if self.is_nan() || other.less(self) {
            other
        } else {
            self
        }
    }

    /// The larger of two; the other one where one is no number.
    pub open spec fn larger(self, other: Double) -> Double {
        if self.is_nan() || self.less(other) {
            other
        } else {
            self
        }
    }

    /// Without its sign.
    pub open spec fn unsigned(self) -> Double {
        Double { bits: (self.bits % SIGN) as u64 }
    }
}

/// What is left when the fraction is cut off is within what an `u64` holds.
pub proof fn lemma_cut_off_fits(d: Double)
    ensures
        0 <= d.cut_off() <= u64::MAX,
{
    lemma_pow2_pos(1074);
    if d.scaled() > 0 {
        vstd::arithmetic::div_mod::lemma_div_pos_is_pos(d.scaled(), one());
    }
}

/// A larger pattern of exponent and fraction is a larger number.
pub proof fn lemma_magnitude_grows(x: nat, y: nat)
    requires
        x < y,
    ensures
        magnitude(x) < magnitude(y),
{
    let f = FRACTION as nat;
    let (e, m) = (x / f, x % f);
    let (g, n) = (y / f, y % f);
    assert(x == e * f + m && m < f && y == g * f + n && n < f) by (nonlinear_arith)
        requires
            f == 0x10_0000_0000_0000,
            e == x / f,
            m == x % f,
            g == y / f,
            n == y % f,
    ;
    if e == g {
        if e > 0 {
            lemma_pow2_pos((e - 1) as nat);
            let p = pow2((e - 1) as nat);
            assert((f + m) * p < (f + n) * p) by (nonlinear_arith)
                requires
                    m < n,
                    p > 0,
            ;
        }
    } else {
        assert(e < g);
        lemma_pow2_pos((g - 1) as nat);
        let q = pow2((g - 1) as nat);
        assert(f * q <= (f + n) * q) by (nonlinear_arith)
            requires
                q > 0,
        ;
        if e == 0 {
            assert(f <= f * q) by (nonlinear_arith)
                requires
                    q > 0,
            ;
        } else {
            let p = pow2((e - 1) as nat);
            lemma_pow2_pos((e - 1) as nat);
            lemma_pow2_unfold(e);
            assert(pow2(e) == 2 * p);
            if e < g - 1 {
                lemma_pow2_strictly_increases(e, (g - 1) as nat);
            }
            assert(2 * p <= q);
            assert((f + m) * p < f * q) by (nonlinear_arith)
                requires
                    m < f,
                    p > 0,
                    2 * p <= q,
            ;
        }
    }
}

/// The order of the patterns is the order of the numbers.
pub proof fn lemma_order(x: nat, y: nat)
    ensures
        x < y <==> magnitude(x) < magnitude(y),
        x == y <==> magnitude(x) == magnitude(y),
        x == 0 <==> magnitude(x) == 0,
{
    if x < y {
        lemma_magnitude_grows(x, y);
    } else if y < x {
        lemma_magnitude_grows(y, x);
    }
    assert(magnitude(0) == 0);
    if x > 0 {
        lemma_magnitude_grows(0, x);
    }
}

impl Double {
    /// The pattern as a whole number that grows with the number.
    fn rank(self) -> (r: i64)
        ensures
            r == (if self.negative() {
                -(self.low() as int)
            } else {
                self.low() as int
            }),
    {
        let low: u64 = self.bits % SIGN;
        if self.bits >= SIGN {
            -(low as i64)
        } else {
            low as i64
        }
    }

    pub fn nan(self) -> (r: bool)
        ensures
            r == self.is_nan(),
    {
        self.bits % SIGN > INFINITY
    }

    /// `self < other`.
    pub fn lt(self, other: Double) -> (r: bool)
        ensures
            r == self.less(other),
    {
        proof {
            lemma_order(self.low(), other.low());
            lemma_order(other.low(), self.low());
        }
        !self.nan() && !other.nan() && self.rank() < other.rank()
    }

    /// `self <= other`.
    pub fn le(self, other: Double) -> (r: bool)
        ensures
            r == self.at_most(other),
    {
        proof {
            lemma_order(self.low(), other.low());
            lemma_order(other.low(), self.low());
        }
        !self.nan() && !other.nan() && self.rank() <= other.rank()
    }

    pub fn clamp(self, low: Double, high: Double) -> (r: Double)
        ensures
            r == self.clamped(low, high),
    {
        if self.lt(low) {
            low
        } else if high.lt(self) {
            high
        } else {
            self
        }
    }

    pub fn min(self, other: Double) -> (r: Double)
        ensures
            r == self.smaller(other),
    {
        if self.nan() || other.lt(self) {
            other
        } else {
            self
        }
    }

    pub fn max(self, other: Double) -> (r: Double)
        ensures
            r == self.larger(other),
    {
        if self.nan() || self.lt(other) {
            other
        } else {
            self
        }
    }

    pub fn abs(self) -> (r: Double)
        ensures
            r == self.unsigned(),
    {
        Double { bits: self.bits % SIGN }
    }

    /// Whether the number is zero, of either sign.
    pub fn zero(self) -> (r: bool)
        ensures
            r == (self.scaled() == 0),
    {
        proof {
            lemma_order(self.low(), 0);
        }
        self.bits % SIGN == 0
    }
}

impl Double {
    /// The whole number `n`.
    pub fn whole(n: i32) -> (r: Double)
        ensures
            !r.is_nan(),
            r.scaled() == n * one(),
    {
        if n == 0 {
            assert(0 * one() == 0) by (nonlinear_arith);
            return Double { bits: 0 };
        }
        let a: u64 = if n < 0 {
            (-(n as i64)) as u64
        } else {
            n as u64
        };
        let mut k: u64 = 0;
        let mut m: u64 = a;
        proof {
            vstd::arithmetic::power2::lemma2_to64();
            assert(a * pow2(0) == a) by (nonlinear_arith)
                requires
                    pow2(0) == 1,
            ;
        }
        while m < FRACTION
            invariant
                0 < a <= m < 2 * FRACTION,
                m == a * pow2(k as nat),
                k <= 52,
            decreases 2 * FRACTION - m,
        {
            proof {
                vstd::arithmetic::power2::lemma2_to64();
                lemma_pow2_unfold((k + 1) as nat);
                let p = pow2(k as nat);
                assert(a * (2 * p) == 2 * (a * p)) by (nonlinear_arith);
                if k == 52 {
                    lemma2_52();
                    assert(a * p >= p) by (nonlinear_arith)
                        requires
                            a > 0,
                            p > 0,
                    ;
                }
            }
            m = m * 2;
            k = k + 1;
        }
        let e: u64 = 1075 - k;
        let low: u64 = e * FRACTION + (m - FRACTION);
        proof {
            let f = FRACTION as nat;
            assert(low / FRACTION == e && low % FRACTION == m - FRACTION) by (nonlinear_arith)
                requires
                    low == e * FRACTION + (m - FRACTION),
                    FRACTION <= m < 2 * FRACTION,
                    FRACTION == 0x10_0000_0000_0000,
            ;
            lemma_pow2_adds(k as nat, (1074 - k) as nat);
            let p = pow2(k as nat);
            let q = pow2((1074 - k) as nat);
            assert((a * p) * q == a * (p * q)) by (nonlinear_arith);
            assert(magnitude(low as nat) == a * one());
            assert(-(a * one()) == (-a) * one()) by (nonlinear_arith);
        }
        if n < 0 {
            let r = Double { bits: low + SIGN };
            assert(r.low() == low);
            r
        } else {
            Double { bits: low }
        }
    }

    /// `self < n`.
    pub fn lt_whole(self, n: i32) -> (r: bool)
        ensures
            r == self.below(n as int),
    {
        self.lt(Double::whole(n))
    }

    /// `self > n`.
    pub fn gt_whole(self, n: i32) -> (r: bool)
        ensures
            r == self.above(n as int),
    {
        Double::whole(n).lt(self)
    }

    /// Cuts the fraction off.
    pub fn to_u64(self) -> (r: u64)
        ensures
            r == self.cut_off(),
    {
        let low: u64 = self.bits % SIGN;
        let e: u64 = low / FRACTION;
        let m: u64 = FRACTION + low % FRACTION;
        proof {
            lemma_order(self.low(), 0);
        }
        if self.nan() || self.bits >= SIGN || low == 0 {
            return 0;
        }
        let ghost mag = magnitude(low as nat);
        proof {
            lemma_pow2_pos(1074);
        }
        if e < 1023 {
            proof {
                lemma2_52();
                if e == 0 {
                    lemma_pow2_strictly_increases(52, 1074);
                } else {
                    let p = pow2((e - 1) as nat);
                    lemma_pow2_pos((e - 1) as nat);
                    lemma_pow2_adds(53, (e - 1) as nat);
                    lemma_pow2_unfold(53);
                    assert(m * p < pow2(53) * p) by (nonlinear_arith)
                        requires
                            m < pow2(53),
                            p > 0,
                    ;
                    if e + 52 < 1074 {
                        lemma_pow2_strictly_increases((e + 52) as nat, 1074);
                    }
                }
                lemma_basic_div(mag as int, one());
            }
            0
        } else if e <= 1075 {
            let s: u64 = 1075 - e;
            proof {
                lemma_u64_shr_is_div(m, s);
                lemma_pow2_adds((e - 1) as nat, s as nat);
                lemma_pow2_pos((e - 1) as nat);
                lemma_pow2_pos(s as nat);
                let p = pow2((e - 1) as nat) as int;
                assert(m * p == p * m) by (nonlinear_arith);
                lemma_div_multiples_vanish_quotient(p, m as int, pow2(s as nat) as int);
                assert(mag as int / one() == m as int / pow2(s as nat) as int);
            }
            m >> s
        } else if e <= 1086 {
            let s: u64 = e - 1075;
            proof {
                lemma2_52();
                lemma_pow2_unfold(53);
                lemma_pow2_adds(53, s as nat);
                lemma_pow2_pos(s as nat);
                let p = pow2(s as nat);
                assert(m * p < pow2(53) * p) by (nonlinear_arith)
                    requires
                        m < pow2(53),
                        p > 0,
                ;
                vstd::arithmetic::power2::lemma2_to64();
                if s < 11 {
                    lemma_pow2_strictly_increases((53 + s) as nat, 64);
                }
                assert(m * p < 0x1_0000_0000_0000_0000);
                lemma_u64_shl_is_mul(m, s);
                lemma_pow2_adds(s as nat, 1074);
                assert(m * (p * pow2(1074)) == (m * p) * pow2(1074)) by (nonlinear_arith);
                assert((m * p) * pow2(1074) == pow2(1074) * (m * p)) by (nonlinear_arith);
                lemma_div_multiples_vanish((m * p) as int, one());
            }
            m << s
        } else {
            proof {
                lemma2_52();
                vstd::arithmetic::power2::lemma2_to64();
                if e > 1087 {
                    lemma_pow2_strictly_increases(1086, (e - 1) as nat);
                }
                lemma_pow2_adds(52, 1086);
                lemma_pow2_adds(64, 1074);
                let q = pow2((e - 1) as nat);
                assert(m * q >= pow2(52) * pow2(1086)) by (nonlinear_arith)
                    requires
                        m >= pow2(52),
                        q >= pow2(1086),
                ;
                assert(pow2(64) * pow2(1074) == pow2(1074) * pow2(64)) by (nonlinear_arith);
                lemma_div_multiples_vanish(pow2(64) as int, one());
                lemma_div_is_ordered(pow2(64) * one(), mag as int, one());
            }
            u64::MAX
        }
    }
}

proof fn lemma2_52()
    ensures
        pow2(52) == FRACTION,
        pow2(53) == 2 * FRACTION,
{
    vstd::arithmetic::power2::lemma2_to64_rest();
    vstd::arithmetic::power2::lemma2_to64();
}

} // verus!
