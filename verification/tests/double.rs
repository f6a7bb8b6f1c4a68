//! Doubles as bit patterns, held against the machine's own.

use execution_policy::double::{thousandths, Ratio};
use execution_policy::runtime::SplitMix64;
use execution_policy::Double;

fn double(v: f64) -> Double {
    Double::from_bits(v.to_bits())
}

fn interesting() -> Vec<f64> {
    vec![
        0.0,
        -0.0,
        f64::MIN_POSITIVE,
        -f64::MIN_POSITIVE,
        5e-324,
        0.1,
        0.2,
        1.0 / 3.0,
        0.5,
        0.999_999_999_999_999_9,
        1.0,
        1.000_000_000_000_000_2,
        -1.0,
        2.5,
        1e300,
        f64::MAX,
        f64::MIN,
        f64::INFINITY,
        f64::NEG_INFINITY,
        f64::NAN,
        -f64::NAN,
    ]
}

#[test]
fn predicates_agree_with_the_machine() {
    for &a in &interesting() {
        assert_eq!(double(a).is_finite(), a.is_finite(), "{a}");
        assert_eq!(double(a).is_positive(), a > 0.0, "{a}");
        assert_eq!(double(a).to_bits(), a.to_bits());
        for &b in &interesting() {
            assert_eq!(
                double(a).precedes(double(b)),
                a.total_cmp(&b) == std::cmp::Ordering::Less,
                "{a} {b}"
            );
        }
        let clamped = f64::from_bits(double(a).clamp_unit().to_bits());
        if a.is_nan() {
            assert!(clamped.is_nan());
        } else {
            assert_eq!(clamped.to_bits(), a.clamp(0.0, 1.0).to_bits(), "{a}");
        }
    }
}

fn counts() -> Vec<u64> {
    let mut all = vec![0, 1, 2, 3, 7, 1000, u64::MAX, u64::MAX - 1];
    for shift in 50..64 {
        let p = 1u64 << shift;
        for d in 0..5 {
            all.push(p - d);
            all.push(p + d);
        }
        all.push(p + p / 2 + 1);
        all.push(p + (p >> 53) + 1);
    }
    let mut rng = SplitMix64::new(7);
    for i in 0..2000u32 {
        all.push(rng.next_u64() >> (i % 64));
    }
    all
}

#[test]
fn counts_round_as_the_machine_rounds_them() {
    for &n in &counts() {
        assert_eq!(Double::from_count(n).to_bits(), (n as f64).to_bits(), "{n}");
    }
}

#[test]
fn shares_compare_as_the_machine_compares_them() {
    let mut rng = SplitMix64::new(99);
    let all = counts();
    let mut ratios: Vec<f64> = interesting();
    for i in 0..400u32 {
        let d = 1 + rng.next_u64() % 1000;
        let n = rng.next_u64() % (d + 1);
        ratios.push(n as f64 / d as f64);
        ratios.push(f64::from_bits(rng.next_u64() >> (2 + i % 3)).abs().min(1.0));
    }
    for &r in &ratios {
        let ratio = Ratio::new(double(r));
        let clamped = r.clamp(0.0, 1.0);
        for _ in 0..60 {
            let total = all[(rng.next_u64() % all.len() as u64) as usize].max(1);
            let failures = rng.next_u64() % total;
            for f in [failures, total, 0, failures / 2] {
                let expected = (f as f64 / total as f64) >= clamped;
                assert_eq!(ratio.reached_by(f, total), expected, "{f}/{total} vs {r}");
            }
        }
    }
    assert!(!Ratio::new(double(0.0)).reached_by(0, 0));
}

#[test]
fn quotients_on_the_edge_of_a_ratio() {
    for total in 1..200u64 {
        for failures in 0..=total {
            let share = failures as f64 / total as f64;
            for bits in [share.to_bits(), share.to_bits() + 1, share.to_bits().saturating_sub(1)] {
                let r = f64::from_bits(bits);
                if r <= 1.0 {
                    let expected = share >= r;
                    let got = Ratio::new(double(r)).reached_by(failures, total);
                    assert_eq!(got, expected, "{failures}/{total} vs {r}");
                }
            }
        }
    }
}

#[test]
fn thousandths_agree_with_the_machine() {
    let mut rng = SplitMix64::new(3);
    let mut ratios: Vec<f64> = interesting();
    for n in 0..=1000u32 {
        let r = f64::from(n) / 1000.0;
        for bits in [r.to_bits(), r.to_bits() + 1, r.to_bits().saturating_sub(1)] {
            ratios.push(f64::from_bits(bits));
        }
    }
    for i in 0..4000u32 {
        ratios.push(f64::from_bits(rng.next_u64() >> (2 + i % 3)));
    }
    for &r in &ratios {
        let expected = (r.clamp(0.0, 1.0) * 1000.0) as i64;
        assert_eq!(thousandths(double(r)), expected, "{r}");
    }
}

#[test]
fn shares_grow_with_the_failures() {
    let half = Ratio::new(double(0.5));
    let all = Ratio::new(double(1.0));
    let nothing = Ratio::new(double(0.0));
    assert!(!half.reached_by(0, 8) && !half.reached_by(3, 8));
    assert!(half.reached_by(4, 8) && half.reached_by(5, 8) && half.reached_by(8, 8));
    assert!(!all.reached_by(7, 8) && all.reached_by(8, 8));
    assert!(nothing.reached_by(0, 8) && nothing.reached_by(8, 8));
}
