use rustinfo::double::Double;

const VALUES: [f64; 22] = [
    0.0,
    -0.0,
    5e-324,
    -5e-324,
    0.02,
    0.2,
    0.5,
    0.999,
    1.0,
    1.5,
    -1.0,
    -60.0,
    59.999,
    60.0,
    1e6,
    4503599627370497.5,
    1.8e19,
    1.9e19,
    1e300,
    f64::INFINITY,
    f64::NEG_INFINITY,
    f64::NAN,
];

fn d(v: f64) -> Double {
    Double { bits: v.to_bits() }
}

#[test]
fn whole_numbers_have_their_patterns() {
    for n in [-75i32, -60, -1, 0, 1, 20, 60, 85, 255, i32::MAX] {
        assert_eq!(Double::whole(n).bits, (n as f64).to_bits());
    }
    assert_eq!(Double::whole(i32::MIN).bits, (i32::MIN as f64).to_bits());
}

#[test]
fn cutting_off_agrees_with_casts() {
    for v in VALUES {
        assert_eq!(d(v).to_u64(), v as u64, "{v}");
    }
}

#[test]
fn comparing_agrees_with_std() {
    for a in VALUES {
        assert_eq!(d(a).nan(), a.is_nan());
        assert_eq!(d(a).zero(), a == 0.0);
        assert_eq!(d(a).abs().bits, a.abs().to_bits());
        for n in [-75i32, -1, 0, 1, 60] {
            assert_eq!(d(a).lt_whole(n), a < n as f64, "{a} {n}");
            assert_eq!(d(a).gt_whole(n), a > n as f64, "{a} {n}");
        }
        for b in VALUES {
            assert_eq!(d(a).lt(d(b)), a < b, "{a} {b}");
            assert_eq!(d(a).le(d(b)), a <= b, "{a} {b}");
        }
    }
}

#[test]
fn bounding_agrees_with_std() {
    for a in VALUES {
        for (low, high) in [(0.2, 60.0), (0.0, 100.0), (-1.0, 1e6)] {
            let here = f64::from_bits(d(a).clamp(d(low), d(high)).bits);
            let there = a.clamp(low, high);
            assert!(here == there || (here.is_nan() && there.is_nan()), "{a}");
        }
        for b in [0.2, 60.0] {
            assert_eq!(f64::from_bits(d(a).min(d(b)).bits), a.min(b), "{a}");
            assert_eq!(f64::from_bits(d(a).max(d(b)).bits), a.max(b), "{a}");
        }
    }
}

#[test]
fn growing_and_shrinking_round_to_the_nearest() {
    assert_eq!(d(1.0).grow(), d(1.5));
    assert_eq!(d(1.0).shrink(), d(1.0 / 1.5));
    assert_eq!(d(0.2).grow(), d(0.2 * 1.5));
    assert_eq!(d(60.0).shrink(), d(40.0));
    let mut patterns: Vec<u64> = vec![
        0x0020_0000_0000_0000,
        0x3FF0_0000_0000_0000,
        0x3FF0_0000_0000_0001,
        0x3FF0_0000_0000_0002,
        0x3FF0_0000_0000_0003,
        0x3FF5_5555_5555_5554,
        0x3FF5_5555_5555_5555,
        0x3FF5_5555_5555_5556,
        0x3FF7_FFFF_FFFF_FFFF,
        0x3FF8_0000_0000_0000,
        0x3FF8_0000_0000_0001,
        0x3FFF_FFFF_FFFF_FFFF,
        0x7FDF_FFFF_FFFF_FFFF,
    ];
    // and a walk over many others
    let mut bits: u64 = 0x9E37_79B9_7F4A_7C15;
    for _ in 0..100_000 {
        bits = bits.wrapping_mul(6364136223846793005).wrapping_add(1442695040888963407);
        patterns.push(0x0020_0000_0000_0000 + bits % (0x7FE0_0000_0000_0000 - 0x0020_0000_0000_0000));
    }
    for p in patterns {
        let (x, v) = (Double { bits: p }, f64::from_bits(p));
        assert_eq!(x.grow().bits, (v * 1.5).to_bits(), "{p:x}");
        assert_eq!(x.shrink().bits, (v / 1.5).to_bits(), "{p:x}");
    }
}
