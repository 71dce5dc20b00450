//! One and a half times a number, and a number divided by that: the nearest
//! numbers there are, worked out on the bit patterns.
use vstd::arithmetic::power2::{lemma_pow2_pos, lemma_pow2_unfold, pow2};
use vstd::prelude::*;

use crate::double::{lemma_magnitude_grows, lemma_order, magnitude, Double, FRACTION, INFINITY};

verus! {

/// The whole number nearest to `n` divided by `d`, the even one where two are as
/// near.
pub open spec fn rounded(n: nat, d: nat) -> nat {
    let (q, r) = (n / d, n % d);
    if 2 * r < d || (2 * r == d && q % 2 == 0) {
        q
    } else {
        q + 1
    }
}

fn round(n: u64, d: u64) -> (r: u64)
    requires
        0 < d < 8,
        n < u64::MAX,
    ensures
        r == rounded(n as nat, d as nat),
{
    let q: u64 = n / d;
    let r: u64 = n % d;
    if 2 * r < d || (2 * r == d && q % 2 == 0) {
        q
    } else {
        assert(q <= n) by (nonlinear_arith)
            requires
                q == n / d,
                d > 0,
        ;
        q + 1
    }
}

impl Double {
    pub open spec fn exponent(self) -> nat {
        (self.bits / FRACTION) as nat
    }

    /// The digits of the number: its fraction, with the one in front of it.
    pub open spec fn significand(self) -> nat {
        (FRACTION + self.bits % FRACTION) as nat
    }

    /// Whether this is a positive number neither so small nor so large that half
    /// or twice of it has no place.
    pub open spec fn ordinary(self) -> bool {
        2 * FRACTION <= self.bits < INFINITY - FRACTION
    }

    /// How far this is from the fraction `n / d`, in units of the `d`th part of
    /// the smallest positive number.
    pub open spec fn off(self, n: int, d: int) -> int {
        let x = d * self.scaled() - n;
        if x < 0 {
            -x
        } else {
            x
        }
    }

    /// Whether this is what the fraction `n / d` is rounded to: no finite number
    /// is nearer to it, and where another is as near, this is the one whose last
    /// bit is zero.
    pub open spec fn nearest(self, n: int, d: int) -> bool {
        &&& self.low() < INFINITY
        &&& forall|y: Double|
            y.low() < INFINITY && y.scaled() != self.scaled() ==> self.off(n, d) < (
            #[trigger] y.off(n, d)) || (self.off(n, d) == y.off(n, d) && self.bits % 2 == 0)
    }

    /// One and a half times the number.
    pub open spec fn grown(self) -> Double {
        let (e, m) = (self.exponent(), 3 * self.significand());
        Double {
            bits: if m < 4 * FRACTION {
                ((e - 1) * FRACTION + rounded(m, 2)) as u64
            } else {
                (e * FRACTION + rounded(m, 4)) as u64
            },
        }
    }

    /// The number divided by one and a half.
    pub open spec fn shrunk(self) -> Double {
        let (e, m) = (self.exponent(), 2 * self.significand());
        Double {
            bits: if m >= 3 * FRACTION {
                ((e - 1) * FRACTION + rounded(m, 3)) as u64
            } else {
                ((e - 2) * FRACTION + rounded(2 * m, 3)) as u64
            },
        }
    }

    /// One and a half times the number, rounded to the nearest.
    pub fn grow(self) -> (r: Double)
        requires
            self.ordinary(),
        ensures
            r == self.grown(),
            r.nearest(3 * self.scaled(), 2),
            self.at_most(r),
    {
        proof {
            lemma_parts(self);
            lemma_grown(self);
        }
        let e: u64 = self.bits / FRACTION;
        let m: u64 = 3 * (FRACTION + self.bits % FRACTION);
        if m < 4 * FRACTION {
            Double { bits: (e - 1) * FRACTION + round(m, 2) }
        } else {
            Double { bits: e * FRACTION + round(m, 4) }
        }
    }

    /// The number divided by one and a half, rounded to the nearest.
    pub fn shrink(self) -> (r: Double)
        requires
            self.ordinary(),
        ensures
            r == self.shrunk(),
            r.nearest(2 * self.scaled(), 3),
            r.at_most(self),
    {
        proof {
            lemma_parts(self);
            lemma_shrunk(self);
        }
        let e: u64 = self.bits / FRACTION;
        let m: u64 = 2 * (FRACTION + self.bits % FRACTION);
        if m >= 3 * FRACTION {
            Double { bits: (e - 1) * FRACTION + round(m, 3) }
        } else {
            Double { bits: (e - 2) * FRACTION + round(2 * m, 3) }
        }
    }
}

// ---------- what is nearest ----------

/// The number with the given exponent and digits.
proof fn lemma_number(e: nat, q: nat)
    requires
        e >= 1,
        FRACTION <= q <= 2 * FRACTION,
    ensures
        magnitude(((e - 1) * FRACTION + q) as nat) == q * pow2((e - 1) as nat),
{
    let f = FRACTION as int;
    let x = (e - 1) * f + q;
    if q < 2 * f {
        assert(x / f == e && x % f == q - f) by (nonlinear_arith)
            requires
                x == (e - 1) * f + q,
                f <= q < 2 * f,
                f > 0,
        ;
    } else {
        assert(x / f == e + 1 && x % f == 0) by (nonlinear_arith)
            requires
                x == (e - 1) * f + q,
                q == 2 * f,
                f > 0,
        ;
        lemma_pow2_unfold(e);
        let (p, g) = (pow2((e - 1) as nat), FRACTION as nat);
        assert(g * (2 * p) == (2 * g) * p) by (nonlinear_arith);
    }
}

/// A number is nearest to what lies between the middles of the ways to the next
/// number below it and the next one above it.
proof fn lemma_between_the_middles(b: u64, n: int, d: int)
    requires
        d > 0,
        0 < b < INFINITY,
        d * (magnitude((b - 1) as nat) + magnitude(b as nat)) <= 2 * n,
        2 * n <= d * (magnitude(b as nat) + magnitude((b + 1) as nat)),
        b % 2 != 0 ==> d * (magnitude((b - 1) as nat) + magnitude(b as nat)) < 2 * n && 2 * n < d * (
        magnitude(b as nat) + magnitude((b + 1) as nat)),
    ensures
        (Double { bits: b }).nearest(n, d),
{
    let r = Double { bits: b };
    let (low, mid, high) = (
        magnitude((b - 1) as nat) as int,
        magnitude(b as nat) as int,
        magnitude((b + 1) as nat) as int,
    );
    assert(r.low() == b as nat && r.scaled() == mid);
    assert forall|y: Double| y.low() < INFINITY && y.scaled() != r.scaled() implies r.off(n, d) < (
    #[trigger] y.off(n, d)) || (r.off(n, d) == y.off(n, d) && r.bits % 2 == 0) by {
        let s = y.scaled();
        if !y.negative() && y.low() > b {
            if y.low() > b + 1 {
                lemma_magnitude_grows((b + 1) as nat, y.low());
            }
            lemma_magnitude_grows(b as nat, y.low());
            assert(s >= high && s > mid);
            assert(d * s > d * mid && d * (mid + high) <= d * mid + d * s) by (nonlinear_arith)
                requires
                    s >= high,
                    s > mid,
                    d > 0,
            ;
        } else {
            if !y.negative() {
                if y.low() == b {
                    assert(y.scaled() == mid);
                }
                if y.low() < b - 1 {
                    lemma_magnitude_grows(y.low(), (b - 1) as nat);
                }
            }
            lemma_order((b - 1) as nat, b as nat);
            assert(s <= low && s < mid);
            assert(d * s < d * mid && d * (low + mid) >= d * mid + d * s) by (nonlinear_arith)
                requires
                    s <= low,
                    s < mid,
                    d > 0,
            ;
        }
    }
}

/// The number with the given exponent and digits is nearest to what is no
/// further from it than half of its last digit.
pub proof fn lemma_within_half(e: nat, q: nat, n: int, d: int)
    requires
        2 <= e || (e == 1 && q > FRACTION),
        FRACTION <= q <= 2 * FRACTION,
        (e - 1) * FRACTION + q < INFINITY,
        d > 0,
        ({
            let half = d * pow2((e - 1) as nat);
            let at = 2 * d * (q * pow2((e - 1) as nat));
            &&& at - half <= 2 * n <= at + half
            &&& q % 2 != 0 ==> at - half < 2 * n < at + half
            &&& q == FRACTION ==> at <= 2 * n
        }),
    ensures
        (Double { bits: ((e - 1) * FRACTION + q) as u64 }).nearest(n, d),
{
    let f = FRACTION as int;
    let p = pow2((e - 1) as nat) as int;
    let b = (e - 1) * f + q;
    lemma_pow2_pos((e - 1) as nat);
    lemma_number(e, q);
    assert(b > 0 && b % 2 == q % 2) by (nonlinear_arith)
        requires
            b == (e - 1) * f + q,
            e >= 1,
            q > 0,
            f == 0x10_0000_0000_0000,
    ;
    let (low, mid, high) = (
        magnitude((b - 1) as nat) as int,
        magnitude(b as nat) as int,
        magnitude((b + 1) as nat) as int,
    );
    assert(mid == q * p);
    if q > f {
        lemma_number(e, (q - 1) as nat);
        assert((q - 1) * p == q * p - p) by (nonlinear_arith);
        assert(d * (low + mid) == 2 * d * mid - d * p) by (nonlinear_arith)
            requires
                low == mid - p,
        ;
    } else {
        lemma_magnitude_grows((b - 1) as nat, b as nat);
        assert(d * (low + mid) < 2 * d * mid) by (nonlinear_arith)
            requires
                low < mid,
                d > 0,
        ;
    }
    if q < 2 * f {
        lemma_number(e, (q + 1) as nat);
    } else {
        lemma_number((e + 1) as nat, (FRACTION + 1) as nat);
        lemma_pow2_unfold(e);
        assert(e * f + (f + 1) == b + 1) by (nonlinear_arith)
            requires
                b == (e - 1) * f + q,
                q == 2 * f,
        ;
        assert((f + 1) * (2 * p) >= (q + 1) * p) by (nonlinear_arith)
            requires
                q == 2 * f,
                p > 0,
        ;
    }
    assert(high >= (q + 1) * p);
    assert(d * (mid + high) >= 2 * d * mid + d * p) by (nonlinear_arith)
        requires
            high >= (q + 1) * p,
            mid == q * p,
            d > 0,
    ;
    assert(2 * d * (q * p) == 2 * d * mid);
    lemma_between_the_middles(b as u64, n, d);
}

/// The parts of an ordinary number.
proof fn lemma_parts(x: Double)
    requires
        x.ordinary(),
    ensures
        2 <= x.exponent() <= 2045,
        FRACTION <= x.significand() < 2 * FRACTION,
        x.low() == x.bits,
        !x.negative(),
        x.scaled() == x.significand() * pow2((x.exponent() - 1) as nat),
        x.scaled() > 0,
{
    lemma_order(x.low(), 0);
}

/// What comes of rounding is at most half away, and even where it is just half
/// away.
proof fn lemma_rounded(n: nat, d: nat)
    requires
        d > 0,
    ensures
        ({
            let x = 2 * n - 2 * (d * rounded(n, d));
            &&& -d <= x <= d
            &&& x == d || x == -d ==> rounded(n, d) % 2 == 0
        }),
{
    let (q, r) = (n / d, n % d);
    assert(n == d * q + r && r < d) by (nonlinear_arith)
        requires
            q == n / d,
            r == n % d,
            d > 0,
    ;
    assert(d * (q + 1) == d * q + d) by (nonlinear_arith);
}

/// One and a half times an ordinary number is rounded to the nearest, and is not
/// below the number.
pub proof fn lemma_grown(x: Double)
    requires
        x.ordinary(),
    ensures
        x.grown().nearest(3 * x.scaled(), 2),
        x.at_most(x.grown()),
{
    lemma_parts(x);
    let (e, m) = (x.exponent(), x.significand());
    let p = pow2((e - 1) as nat) as int;
    lemma_pow2_pos((e - 1) as nat);
    let n = 3 * x.scaled();
    if 3 * m < 4 * FRACTION {
        let q = rounded(3 * m, 2);
        lemma_rounded(3 * m, 2);
        let t = 3 * m - 2 * q;
        assert(2 * n == 2 * 2 * (q * p) + 2 * (t * p)) by (nonlinear_arith)
            requires
                n == 3 * (m * p),
                t == 3 * m - 2 * q,
        ;
        lemma_times(t, p, 1);
        lemma_within_half(e, q, n, 2);
    } else {
        let q = rounded(3 * m, 4);
        lemma_rounded(3 * m, 4);
        let t = 3 * m - 4 * q;
        lemma_pow2_unfold(e);
        assert(2 * n == 2 * 2 * (q * (2 * p)) + 2 * (t * p)) by (nonlinear_arith)
            requires
                n == 3 * (m * p),
                t == 3 * m - 4 * q,
        ;
        lemma_times(t, p, 2);
        lemma_within_half((e + 1) as nat, q, n, 2);
    }
    let r = x.grown();
    assert(x.off(n, 2) == x.scaled());
    assert(r.scaled() == x.scaled() || r.off(n, 2) <= x.off(n, 2));
}

/// An ordinary number divided by one and a half is rounded to the nearest, and is
/// not above the number.
pub proof fn lemma_shrunk(x: Double)
    requires
        x.ordinary(),
    ensures
        x.shrunk().nearest(2 * x.scaled(), 3),
        x.shrunk().at_most(x),
{
    lemma_parts(x);
    let (e, m) = (x.exponent(), x.significand());
    let p = pow2((e - 1) as nat) as int;
    lemma_pow2_pos((e - 1) as nat);
    let n = 2 * x.scaled();
    if 2 * m >= 3 * FRACTION {
        let q = rounded(2 * m, 3);
        lemma_rounded(2 * m, 3);
        let t = 2 * m - 3 * q;
        assert(2 * n == 2 * 3 * (q * p) + 2 * (t * p)) by (nonlinear_arith)
            requires
                n == 2 * (m * p),
                t == 2 * m - 3 * q,
        ;
        lemma_times(t, p, 1);
        lemma_within_half(e, q, n, 3);
    } else {
        let q = rounded(4 * m, 3);
        lemma_rounded(4 * m, 3);
        let t = 4 * m - 3 * q;
        lemma_pow2_unfold((e - 1) as nat);
        let h = pow2((e - 2) as nat) as int;
        lemma_pow2_pos((e - 2) as nat);
        assert(2 * n == 2 * 3 * (q * h) + 2 * (t * h)) by (nonlinear_arith)
            requires
                n == 2 * (m * p),
                p == 2 * h,
                t == 4 * m - 3 * q,
        ;
        lemma_times(t, h, 1);
        lemma_within_half((e - 1) as nat, q, n, 3);
    }
    let r = x.shrunk();
    assert(x.off(n, 3) == x.scaled());
    assert(r.scaled() == x.scaled() || r.off(n, 3) <= x.off(n, 3));
}

proof fn lemma_times(t: int, p: int, k: int)
    requires
        p > 0,
        -k <= t <= k,
    ensures
        -(k * p) <= t * p <= k * p,
        t < k ==> t * p < k * p,
        -k < t ==> -(k * p) < t * p,
        t >= 0 ==> t * p >= 0,
{
    assert(-(k * p) <= t * p <= k * p && (t < k ==> t * p < k * p) && (-k < t ==> -(k * p) < t * p)
        && (t >= 0 ==> t * p >= 0)) by (nonlinear_arith)
        requires
            p > 0,
            -k <= t <= k,
    ;
}

} // verus!
