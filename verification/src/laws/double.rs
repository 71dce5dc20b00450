//! Numbers by their bit patterns: what is left of a number without its fraction,
//! and what the constants stand for.
use vstd::arithmetic::div_mod::{
    lemma_div_by_multiple, lemma_div_is_ordered, lemma_div_pos_is_pos, lemma_fundamental_div_mod,
    lemma_mod_bound,
};
use vstd::arithmetic::power2::{
    lemma2_to64, lemma2_to64_rest, lemma_pow2_adds, lemma_pow2_pos, pow2,
};
use vstd::prelude::*;

use crate::cli::{held, HALF_SECOND, LONGEST_INTERVAL, SECOND, SHORTEST_INTERVAL};
use crate::double::{one, Double, FRACTION, INFINITY};
use crate::scaling::lemma_within_half;
use crate::tui::{HOUR, SHORTEST_WAIT};

verus! {

/// What is left of a number without its fraction is not above it, and one more is;
/// what is below zero or no number is cut off to nothing.
pub proof fn lemma_cut_off(d: Double)
    ensures
        !d.is_nan() && 0 <= d.scaled() && d.scaled() / one() <= u64::MAX ==> d.cut_off() * one()
            <= d.scaled() < (d.cut_off() + 1) * one(),
        d.is_nan() || d.scaled() <= 0 ==> d.cut_off() == 0,
        0 <= d.cut_off() <= 18_446_744_073_709_551_615,
        !d.is_nan() && d.scaled() >= 18_446_744_073_709_551_616 * one() ==> d.cut_off()
            == 18_446_744_073_709_551_615,
{
    lemma_pow2_pos(1074);
    if d.scaled() >= 0 {
        lemma_div_pos_is_pos(d.scaled(), one());
    }
    if d.scaled() >= 18_446_744_073_709_551_616 * one() {
        lemma_div_is_ordered(18_446_744_073_709_551_616 * one(), d.scaled(), one());
        lemma_div_by_multiple(18_446_744_073_709_551_616, one());
    }
    lemma_fundamental_div_mod(d.scaled(), one());
    lemma_mod_bound(d.scaled(), one());
    let (q, o) = (d.scaled() / one(), one());
    assert(o * q == q * o && (q + 1) * o == q * o + o && 0 * o == 0 && 1 * o == o)
        by (nonlinear_arith);
    if d.scaled() == 0 {
        assert(q == 0) by (nonlinear_arith)
            requires
                q == 0int / o,
                o > 0,
        ;
    }
}

/// A pattern is that of the number nearest to `num / d`, where its digits are those
/// of that fraction, shifted by `s` places and rounded.
pub proof fn lemma_nearest_constant(
    bits: u64,
    num: nat,
    d: nat,
    s: nat,
    shifted: nat,
    at: nat,
)
    requires
        2 * FRACTION <= bits < INFINITY,
        (bits / FRACTION) - 1 + s == 1074,
        s <= 64,
        0 < d < 100,
        num < 100_000,
        shifted == num * pow2(s),
        at == d * (FRACTION + bits % FRACTION),
        2 * at - d < 2 * shifted < 2 * at + d,
        bits % FRACTION != 0,
    ensures
        (Double { bits }).nearest(num * one(), d as int),
{
    let e = (bits / FRACTION) as nat;
    let q = (FRACTION + bits % FRACTION) as nat;
    let p = pow2((e - 1) as nat) as int;
    lemma_pow2_pos((e - 1) as nat);
    lemma_pow2_adds((e - 1) as nat, s);
    let t = pow2(s) as int;
    assert(one() == p * t);
    let n = num * one();
    assert(2 * n == 2 * (num * t) * p) by (nonlinear_arith)
        requires
            n == num * (p * t),
    ;
    let x = 2 * (num * t);
    assert(2 * at == 2 * d * q) by (nonlinear_arith)
        requires
            at == d * q,
    ;
    assert(x * p > (2 * d * q - d) * p && x * p < (2 * d * q + d) * p) by (nonlinear_arith)
        requires
            2 * d * q - d < x < 2 * d * q + d,
            p > 0,
    ;
    assert((2 * d * q - d) * p == 2 * d * (q * p) - d * p && (2 * d * q + d) * p == 2 * d * (q * p)
        + d * p) by (nonlinear_arith);
    assert((e - 1) * FRACTION + q == bits) by (nonlinear_arith)
        requires
            e == bits / FRACTION,
            q == FRACTION + bits % FRACTION,
            FRACTION == 0x10_0000_0000_0000,
    ;
    lemma_within_half(e, q, n, d as int);
}

/// The shortest interval is a fifth of a second, the longest a minute, and the one
/// without an option a second; a log waits for half a second at least. The screen
/// waits for a fiftieth of a second at least, and for an hour where it is paused.
pub proof fn lemma_constants()
    ensures
        (Double { bits: SHORTEST_INTERVAL }).nearest(one(), 5),
        (Double { bits: LONGEST_INTERVAL }).scaled() == 60 * one(),
        (Double { bits: SECOND }).scaled() == one(),
        2 * (Double { bits: HALF_SECOND }).scaled() == one(),
        (Double { bits: SHORTEST_WAIT }).nearest(one(), 50),
        (Double { bits: HOUR }).scaled() == 3600 * one(),
{
    lemma2_to64();
    lemma2_to64_rest();
    lemma_nearest_constant(
        SHORTEST_INTERVAL,
        1,
        5,
        55,
        0x80_0000_0000_0000,
        5 * 0x19_9999_9999_999A,
    );
    lemma_nearest_constant(
        SHORTEST_WAIT,
        1,
        50,
        58,
        0x400_0000_0000_0000,
        50 * 0x14_7AE1_47AE_147B,
    );
    lemma_whole(LONGEST_INTERVAL, 60, 47);
    lemma_whole(SECOND, 1, 52);
    lemma_whole(HOUR, 3600, 41);
    lemma_whole(HALF_SECOND, 1, 53);
}

/// The value of a pattern whose digits are `num` shifted by `s` places.
proof fn lemma_whole(bits: u64, num: nat, s: nat)
    requires
        FRACTION <= bits < INFINITY,
        (bits / FRACTION) - 1 + s == 1074 || (bits / FRACTION) + s == 1074 + 1,
        s <= 53,
        s < 53 ==> FRACTION + bits % FRACTION == num * pow2(s),
        s == 53 ==> 2 * (FRACTION + bits % FRACTION) == num * pow2(s),
    ensures
        s < 53 ==> (Double { bits }).scaled() == num * one(),
        s == 53 ==> 2 * (Double { bits }).scaled() == num * one(),
{
    let e = (bits / FRACTION) as nat;
    let q = (FRACTION + bits % FRACTION) as nat;
    let p = pow2((e - 1) as nat);
    lemma_pow2_adds((e - 1) as nat, s);
    let t = pow2(s);
    assert((num * t) * p == num * (p * t)) by (nonlinear_arith);
    assert(2 * (q * p) == (2 * q) * p) by (nonlinear_arith);
    assert((Double { bits }).scaled() == q * p);
}

/// What a bit pattern stands for: a sign, eleven bits of exponent, and 52 of fraction,
/// with a leading one where the exponent is not zero.
pub proof fn lemma_pattern(minus: bool, e: nat, m: nat)
    requires
        e < 2048,
        m < 4_503_599_627_370_496,
    ensures
        ({
            let d = Double {
                bits: ((if minus {
                    9_223_372_036_854_775_808int
                } else {
                    0
                }) + 4_503_599_627_370_496 * e + m) as u64,
            };
            let size = if e == 0 {
                m
            } else {
                (4_503_599_627_370_496 + m) * pow2((e - 1) as nat)
            };
            &&& d.is_nan() <==> e == 2047 && m > 0
            &&& minus ==> d.scaled() == -size
            &&& !minus ==> d.scaled() == size
            &&& d.unsigned().bits == 4_503_599_627_370_496 * e + m
        }),
{
    let low = 4_503_599_627_370_496 * e + m;
    assert(low / 4_503_599_627_370_496 == e && low % 4_503_599_627_370_496 == m);
}

/// Of two numbers the smaller and the larger are one of the two, and not above or below
/// either; where one is no number it is the other.
pub proof fn lemma_extremes(a: Double, b: Double)
    ensures
        !a.is_nan() && !b.is_nan() && a.scaled() <= b.scaled() ==> a.smaller(b) == a && b.larger(a)
            == b,
        !a.is_nan() && !b.is_nan() && a.scaled() < b.scaled() ==> b.smaller(a) == a && a.larger(b)
            == b,
        a.is_nan() ==> a.smaller(b) == b && a.larger(b) == b,
        !a.is_nan() && b.is_nan() ==> a.smaller(b) == a && a.larger(b) == a,
{
}

/// A number between two bounds stays; one below or above them becomes the bound.
pub proof fn lemma_clamped(d: Double, low: Double, high: Double)
    requires
        !low.is_nan(),
        !high.is_nan(),
        low.scaled() <= high.scaled(),
    ensures
        !d.is_nan() && low.scaled() <= d.scaled() <= high.scaled() ==> d.clamped(low, high) == d,
        !d.is_nan() && d.scaled() < low.scaled() ==> d.clamped(low, high) == low,
        !d.is_nan() && d.scaled() > high.scaled() ==> d.clamped(low, high) == high,
        d.is_nan() ==> d.clamped(low, high) == d,
{
}

/// Numbers are compared with whole numbers by their size; what is no number is neither
/// above nor below.
pub proof fn lemma_compared(a: Double, b: Double, n: int)
    ensures
        one() == pow2(1074),
        a.below(n) <==> !a.is_nan() && a.scaled() < n * pow2(1074),
        a.above(n) <==> !a.is_nan() && a.scaled() > n * pow2(1074),
        a.less(b) <==> !a.is_nan() && !b.is_nan() && a.scaled() < b.scaled(),
        a.at_most(b) <==> !a.is_nan() && !b.is_nan() && a.scaled() <= b.scaled(),
{
}

/// The interval of a run is held between a fifth of a second and a minute.
pub proof fn lemma_held(d: Double)
    ensures
        d.less(Double { bits: SHORTEST_INTERVAL }) ==> held(d) == (Double { bits: SHORTEST_INTERVAL }),
        (Double { bits: LONGEST_INTERVAL }).less(d) && !d.less(Double { bits: SHORTEST_INTERVAL })
            ==> held(d) == (Double { bits: LONGEST_INTERVAL }),
        !d.less(Double { bits: SHORTEST_INTERVAL }) && !(Double { bits: LONGEST_INTERVAL }).less(d)
            ==> held(d) == d,
{
}

} // verus!
