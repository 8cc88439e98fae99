//! The arithmetic of `reco::binary` against the machine's own.

use reco::binary::double::Double;
use reco::binary::single::Single;

/// A fixed sequence of bit patterns.
struct Patterns(u64);

impl Patterns {
    fn next(&mut self) -> u64 {
        self.0 ^= self.0 << 13;
        self.0 ^= self.0 >> 7;
        self.0 ^= self.0 << 17;
        self.0
    }
}

const SPECIAL: [u32; 24] = [
    0x0000_0000, 0x8000_0000, 0x0000_0001, 0x8000_0001, 0x007f_ffff, 0x0080_0000, 0x0080_0001,
    0x3f80_0000, 0xbf80_0000, 0x3f7f_ffff, 0x3f80_0001, 0x4b00_0000, 0x4b7f_ffff, 0x4b80_0000,
    0x4f80_0000, 0x7f7f_ffff, 0xff7f_ffff, 0x7f80_0000, 0xff80_0000, 0x7fc0_0000, 0x3f00_0000,
    0x3eff_ffff, 0x4020_0000, 0xc020_0000,
];

/// Pairs of single-precision values: all special ones with each other, patterns of
/// any kind, and patterns of similar size.
fn pairs(count: usize) -> Vec<(f32, f32)> {
    let mut all: Vec<(f32, f32)> = Vec::new();
    for a in SPECIAL {
        for b in SPECIAL {
            all.push((f32::from_bits(a), f32::from_bits(b)));
        }
    }
    let mut p = Patterns(0x9e37_79b9_7f4a_7c15);
    for _ in 0..count {
        let n = p.next();
        let a = n as u32;
        let b = (n >> 32) as u32;
        all.push((f32::from_bits(a), f32::from_bits(b)));
        let near = (a & 0xff80_0000) | (b & 0x807f_ffff);
        let shift = ((n >> 20) as u32 % 50) << 23;
        all.push((f32::from_bits(a), f32::from_bits(near)));
        all.push((f32::from_bits(a), f32::from_bits(near.wrapping_add(shift))));
    }
    all
}

fn single(x: f32) -> Single {
    Single::from_bits(x.to_bits())
}

fn same(got: Single, want: f32) -> bool {
    if want.is_nan() {
        f32::from_bits(got.to_bits()).is_nan()
    } else {
        got.to_bits() == want.to_bits()
    }
}

fn same_double(got: Double, want: f64) -> bool {
    if want.is_nan() {
        f64::from_bits(got.to_bits()).is_nan()
    } else {
        got.to_bits() == want.to_bits()
    }
}

#[test]
fn single_sums_match_the_machine() {
    for (a, b) in pairs(20000) {
        assert!(same(single(a).plus(single(b)), a + b), "{a:e} + {b:e}");
        assert!(same(single(a).minus(single(b)), a - b), "{a:e} - {b:e}");
    }
}

#[test]
fn single_products_match_the_machine() {
    for (a, b) in pairs(20000) {
        assert!(same(single(a).times(single(b)), a * b), "{a:e} * {b:e}");
    }
}

#[test]
fn single_quotients_match_the_machine() {
    for (a, b) in pairs(20000) {
        assert!(same(single(a).over(single(b)), a / b), "{a:e} / {b:e}");
    }
}

#[test]
fn single_remainders_match_the_machine() {
    for (a, b) in pairs(4000) {
        assert!(same(single(a).remainder(single(b)), a % b), "{a:e} % {b:e}");
    }
}

#[test]
fn single_roots_match_the_machine() {
    for (a, b) in pairs(20000) {
        assert!(same(single(a).square_root(), a.sqrt()), "root of {a:e}");
        assert!(same(single(b.abs()).square_root(), b.abs().sqrt()), "root of {b:e}");
    }
}

#[test]
fn single_comparisons_match_the_machine() {
    for (a, b) in pairs(20000) {
        assert_eq!(single(a).below(single(b)), a < b, "{a:e} < {b:e}");
        assert_eq!(single(a).at_most(single(b)), a <= b, "{a:e} <= {b:e}");
        assert_eq!(
            single(a).total_before(single(b)),
            a.total_cmp(&b) == std::cmp::Ordering::Less,
            "{a:e} before {b:e}"
        );
        assert_eq!(single(a).is_finite(), a.is_finite());
        assert_eq!(single(a).is_nan(), a.is_nan());
        let least = f32::from_bits(single(a).lesser(single(b)).to_bits());
        assert!(least == a.min(b) || (least.is_nan() && a.min(b).is_nan()), "{a:e} min {b:e}");
    }
}

#[test]
fn single_conversions_match_the_machine() {
    for (a, b) in pairs(20000) {
        assert!(same(single(a).rounded(), a.round()), "round {a:e}");
        assert_eq!(single(a).to_u32(), a as u32, "{a:e} as integer");
        assert_eq!(single(b).rounded().to_u32(), b.round() as u32, "{b:e} as integer");
        assert!(same(single(a).opposite(), -a), "minus {a:e}");
    }
    let mut p = Patterns(0x1234_5678_9abc_def1);
    for i in 0..20000u64 {
        let n = p.next() >> (i % 64);
        assert!(same(Single::from_u64(n), n as f32), "{n}");
        assert!(same_double(Double::from_u64(n), n as f64), "{n}");
        let half = (n % 200) as f32 / 2.0;
        assert!(same(single(half).rounded(), half.round()), "round {half}");
        assert!(same(single(-half).rounded(), (-half).round()), "round -{half}");
    }
}

#[test]
fn single_clamping_matches_the_machine() {
    for (a, _) in pairs(5000) {
        for (lo, hi) in [(0.0f32, 1.0f32), (-0.08, 0.08), (0.0, 0.0), (-3.5, 1e30)] {
            assert!(
                same(single(a).clamped(single(lo), single(hi)), a.clamp(lo, hi)),
                "{a:e} in {lo}..{hi}"
            );
        }
    }
}

#[test]
fn double_operations_match_the_machine() {
    let mut p = Patterns(0x0fed_cba9_8765_4321);
    let special: [u64; 12] = [
        0,
        1,
        0x8000_0000_0000_0000,
        0x000f_ffff_ffff_ffff,
        0x0010_0000_0000_0000,
        0x3ff0_0000_0000_0000,
        0xbff0_0000_0000_0001,
        0x7fef_ffff_ffff_ffff,
        0x7ff0_0000_0000_0000,
        0xfff0_0000_0000_0000,
        0x7ff8_0000_0000_0000,
        0x4340_0000_0000_0001,
    ];
    let mut all: Vec<(u64, u64)> = Vec::new();
    for a in special {
        for b in special {
            all.push((a, b));
        }
    }
    for i in 0..20000u64 {
        let a = p.next();
        let b = p.next();
        all.push((a, b));
        let near = (a & 0xfff0_0000_0000_0000) | (b & 0x800f_ffff_ffff_ffff);
        all.push((a, near.wrapping_add((i % 60) << 52)));
    }
    for (x, y) in all {
        let (a, b) = (f64::from_bits(x), f64::from_bits(y));
        let (s, t) = (Double::from_bits(x), Double::from_bits(y));
        assert!(same_double(s.plus(t), a + b), "{a:e} + {b:e}");
        assert!(same_double(s.times(t), a * b), "{a:e} * {b:e}");
        assert!(same_double(s.over(t), a / b), "{a:e} / {b:e}");
        assert_eq!(s.below(t), a < b, "{a:e} < {b:e}");
        assert_eq!(s.at_most(t), a <= b, "{a:e} <= {b:e}");
    }
}

#[test]
fn widening_matches_the_machine() {
    for (a, b) in pairs(20000) {
        assert!(same_double(Double::from_single(single(a)), a as f64), "{a:e}");
        assert!(same_double(Double::from_single(single(b)), b as f64), "{b:e}");
    }
}
