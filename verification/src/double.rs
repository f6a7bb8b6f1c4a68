//! Double-precision numbers as bit patterns.
//!
//! Scores, weights and ratios are IEEE 754 doubles. The library never computes
//! with them: it orders them, tests them, and compares a quotient of two counts
//! with one of them. All of that is integer arithmetic on the bit pattern.

use vstd::arithmetic::power2::*;
use vstd::prelude::*;

verus! {

/// The sign bit.
pub const SIGN: u64 = 0x8000_0000_0000_0000;

/// The bit pattern of positive infinity; every larger magnitude is not a number.
pub const INFINITY: u64 = 0x7FF0_0000_0000_0000;

/// The bit pattern of one.
pub const ONE: u64 = 0x3FF0_0000_0000_0000;

/// The implicit leading bit of a normal significand.
pub const HIDDEN: u64 = 0x0010_0000_0000_0000;

/// An IEEE 754 double, as its bit pattern.
#[derive(Clone, Copy, Debug, PartialEq, Eq, Structural)]
pub struct Double {
    pub bits: u64,
}

impl Double {
    pub open spec fn spec_magnitude(self) -> nat {
        if self.bits >= SIGN {
            (self.bits - SIGN) as nat
        } else {
            self.bits as nat
        }
    }

    /// Neither infinite nor a NaN.
    pub open spec fn finite(self) -> bool {
        self.spec_magnitude() < INFINITY
    }

    pub open spec fn nan(self) -> bool {
        self.spec_magnitude() > INFINITY
    }

    /// The place of the number in the total order of the standard: negative
    /// numbers below positive ones, the zeros told apart, NaNs at the ends.
    pub open spec fn rank(self) -> int {
        if self.bits >= SIGN {
            -1 - self.spec_magnitude()
        } else {
            self.spec_magnitude() as int
        }
    }

    /// The integer significand: a positive finite number is
    /// `significand * 2^(exponent - 1075)`.
    pub open spec fn significand(self) -> nat {
        if self.spec_magnitude() < HIDDEN {
            self.spec_magnitude()
        } else {
            (self.spec_magnitude() % (HIDDEN as nat) + HIDDEN) as nat
        }
    }

    /// The biased exponent, with the one that subnormal numbers share.
    pub open spec fn exponent(self) -> nat {
        if self.spec_magnitude() < HIDDEN {
            1
        } else {
            self.spec_magnitude() / (HIDDEN as nat)
        }
    }

    pub fn from_bits(bits: u64) -> (d: Double)
        ensures
            d.bits == bits,
    {
        Double { bits }
    }

    pub fn to_bits(self) -> (bits: u64)
        ensures
            bits == self.bits,
    {
        self.bits
    }

    fn magnitude(self) -> (m: u64)
        ensures
            m == self.spec_magnitude(),
    {
        if self.bits >= SIGN {
            self.bits - SIGN
        } else {
            self.bits
        }
    }

    pub fn is_finite(self) -> (b: bool)
        ensures
            b == self.finite(),
    {
        self.magnitude() < INFINITY
    }

    /// Greater than zero (a NaN is not).
    pub fn is_positive(self) -> (b: bool)
        ensures
            b == (0 < self.bits <= INFINITY),
    {
        0 < self.bits && self.bits <= INFINITY
    }

    /// Greater than zero and at most one.
    pub fn is_share(self) -> (b: bool)
        ensures
            b == (0 < self.bits <= ONE),
    {
        0 < self.bits && self.bits <= ONE
    }

    /// Whether `self` comes before `other` in the total order.
    pub fn precedes(self, other: Double) -> (b: bool)
        ensures
            b == (self.rank() < other.rank()),
    {
        if self.bits >= SIGN {
            other.bits < SIGN || self.bits > other.bits
        } else {
            other.bits < SIGN && self.bits < other.bits
        }
    }

    /// The larger of two numbers, or the one that is a number.
    pub open spec fn spec_larger(self, other: Double) -> Double {
        if self.nan() || (!other.nan() && self.rank() < other.rank()) {
            other
        } else {
            self
        }
    }

    /// The larger of two numbers, or the one that is a number.
    pub fn larger(self, other: Double) -> (d: Double)
        ensures
            d == self.spec_larger(other),
    {
        if self.magnitude() > INFINITY {
            other
        } else if other.magnitude() <= INFINITY && self.precedes(other) {
            other
        } else {
            self
        }
    }

    /// The number clamped to the unit interval; a NaN stays a NaN.
    pub open spec fn clamped(self) -> Double {
        if self.nan() || self.bits == SIGN {
            self
        } else if self.bits > SIGN {
            Double { bits: 0 }
        } else if self.bits > ONE {
            Double { bits: ONE }
        } else {
            self
        }
    }

    pub fn clamp_unit(self) -> (d: Double)
        ensures
            d == self.clamped(),
    {
        if self.magnitude() > INFINITY || self.bits == SIGN {
            self
        } else if self.bits > SIGN {
            Double { bits: 0 }
        } else if self.bits > ONE {
            Double { bits: ONE }
        } else {
            self
        }
    }
}

/// The exponent of the largest power of two that is at most `n`.
pub open spec fn floor_log2(n: nat) -> nat
    decreases n,
{
    if n <= 1 {
        0
    } else {
        1 + floor_log2(n / 2)
    }
}

/// `n / 2^s`, rounded to the nearest integer, a tie going to the even one.
pub open spec fn rounded(n: nat, s: nat) -> nat {
    let unit = pow2(s);
    let quotient = n / unit;
    let rest = n % unit;
    if 2 * rest > unit || (2 * rest == unit && quotient % 2 == 1) {
        quotient + 1
    } else {
        quotient
    }
}

/// The integer that the double nearest to `n` stands for.
pub open spec fn count_value(n: nat) -> nat {
    if floor_log2(n) <= 52 {
        n
    } else {
        rounded(n, (floor_log2(n) - 52) as nat) * pow2((floor_log2(n) - 52) as nat)
    }
}

/// The bit pattern of the double nearest to `n`.
///
/// A significand that rounds up to the next power of two carries into the exponent.
pub open spec fn count_bits(n: nat) -> nat {
    if n == 0 {
        0
    } else if floor_log2(n) <= 52 {
        (1022 + floor_log2(n)) * HIDDEN as nat + n * pow2((52 - floor_log2(n)) as nat)
    } else {
        (1022 + floor_log2(n)) * HIDDEN as nat + rounded(n, (floor_log2(n) - 52) as nat)
    }
}

proof fn lemma_floor_log2(n: nat)
    requires
        n > 0,
    ensures
        pow2(floor_log2(n)) <= n < pow2(floor_log2(n) + 1),
    decreases n,
{
    lemma2_to64();
    if n > 1 {
        lemma_floor_log2(n / 2);
        lemma_pow2_unfold(floor_log2(n));
        lemma_pow2_unfold(floor_log2(n) + 1);
    }
}

proof fn lemma_floor_log2_below(n: nat, e: nat)
    requires
        0 < n < pow2(e),
    ensures
        floor_log2(n) < e,
{
    lemma_floor_log2(n);
    if floor_log2(n) >= e {
        if floor_log2(n) > e {
            lemma_pow2_strictly_increases(e, floor_log2(n));
        }
    }
}

/// The significand of a count fills 53 bits, or rounds up to the next power of two.
proof fn lemma_count_significand(n: nat)
    requires
        0 < n < pow2(64),
    ensures
        floor_log2(n) < 64,
        floor_log2(n) <= 52 ==> HIDDEN <= n * pow2((52 - floor_log2(n)) as nat) < 2 * HIDDEN,
        floor_log2(n) > 52 ==> HIDDEN <= rounded(n, (floor_log2(n) - 52) as nat) <= 2 * HIDDEN,
{
    let e = floor_log2(n);
    lemma_floor_log2(n);
    lemma_floor_log2_below(n, 64);
    lemma2_to64();
    lemma2_to64_rest();
    if e <= 52 {
        let up = (52 - e) as nat;
        lemma_pow2_pos(up);
        lemma_pow2_adds(e, up);
        lemma_pow2_adds(e + 1, up);
        let a = pow2(e);
        let b = pow2(e + 1);
        let u = pow2(up);
        assert(a * u <= n * u < b * u) by (nonlinear_arith)
            requires
                a <= n < b,
                u > 0,
        ;
    } else {
        let down = (e - 52) as nat;
        lemma_pow2_pos(down);
        lemma_pow2_adds(down, 52);
        lemma_pow2_adds(down, 53);
        let u = pow2(down);
        let q = n / u;
        assert(HIDDEN <= q < 2 * HIDDEN) by (nonlinear_arith)
            requires
                u > 0,
                q == n / u,
                u * (HIDDEN as nat) <= n,
                n < u * (2 * HIDDEN as nat),
        ;
    }
}

/// `2^s` as a machine integer.
fn power(s: u64) -> (p: u128)
    requires
        s < 128,
    ensures
        p == pow2(s as nat),
{
    let mut p: u128 = 1;
    let mut i: u64 = 0;
    proof {
        lemma2_to64();
    }
    while i < s
        invariant
            i <= s < 128,
            p == pow2(i as nat),
        decreases s - i,
    {
        proof {
            lemma2_to64();
            lemma2_to64_rest();
            lemma_pow2_unfold((i + 1) as nat);
            lemma_pow2_adds(64, 63);
            if i + 1 < 127 {
                lemma_pow2_strictly_increases((i + 1) as nat, 127);
            }
            assert(pow2(127) == 0x8000_0000_0000_0000_0000_0000_0000_0000) by (nonlinear_arith)
                requires
                    pow2(127) == pow2(64) * pow2(63),
                    pow2(64) == 0x10000000000000000,
                    pow2(63) == 0x8000000000000000,
            ;
        }
        p = p * 2;
        i = i + 1;
    }
    p
}

/// `floor_log2` of a positive machine integer.
fn log2(n: u64) -> (e: u64)
    requires
        n > 0,
    ensures
        e == floor_log2(n as nat),
        e < 64,
{
    let mut e: u64 = 0;
    let mut top: u64 = n;
    proof {
        lemma2_to64();
        lemma2_to64_rest();
        lemma_floor_log2_below(n as nat, 64);
    }
    while top > 1
        invariant
            0 < top <= n,
            floor_log2(n as nat) < 64,
            floor_log2(n as nat) == e + floor_log2(top as nat),
        decreases top,
    {
        top = top / 2;
        e = e + 1;
    }
    e
}

/// `rounded` on machine integers.
fn round(n: u64, s: u64) -> (r: u64)
    requires
        0 < s <= 11,
    ensures
        r == rounded(n as nat, s as nat),
{
    let unit: u128 = power(s);
    proof {
        lemma2_to64();
        lemma_pow2_strictly_increases(s as nat, 12);
    }
    let unit: u64 = unit as u64;
    let quotient: u64 = n / unit;
    let rest: u64 = n % unit;
    assert(quotient < u64::MAX) by (nonlinear_arith)
        requires
            unit >= 2,
            quotient == n / unit,
            n <= u64::MAX,
    ;
    if 2 * rest > unit || (2 * rest == unit && quotient % 2 == 1) {
        quotient + 1
    } else {
        quotient
    }
}

impl Double {
    /// The double nearest to `n`.
    pub fn from_count(n: u64) -> (d: Double)
        ensures
            d.bits == count_bits(n as nat),
            d.finite(),
    {
        if n == 0 {
            return Double { bits: 0 };
        }
        let e: u64 = log2(n);
        proof {
            lemma2_to64();
            lemma2_to64_rest();
            lemma_count_significand(n as nat);
        }
        if e <= 52 {
            let unit: u128 = power(52 - e);
            let significand: u128 = n as u128 * unit;
            Double { bits: (1022 + e) * HIDDEN + significand as u64 }
        } else {
            proof {
                lemma_pow2_strictly_increases(0, (e - 52) as nat);
            }
            Double { bits: (1022 + e) * HIDDEN + round(n, e - 52) }
        }
    }
}

/// The midpoint between a positive double and the next one below it, counted in
/// units of `2^(exponent - 1077)`. Below a power of two the spacing halves.
pub open spec fn midpoint_below(d: Double) -> nat {
    if d.significand() == HIDDEN && d.exponent() > 1 {
        (4 * d.significand() - 1) as nat
    } else {
        (4 * d.significand() - 2) as nat
    }
}

/// The double nearest to `p / q` is at least the positive double `d`: the exact
/// quotient lies above the midpoint under `d`, or on it where a tie goes to `d`.
pub open spec fn quotient_reaches(p: nat, q: nat, d: Double) -> bool {
    let scaled = p * pow2((1077 - d.exponent()) as nat);
    let bound = midpoint_below(d) * q;
    scaled > bound || (scaled == bound && d.significand() % 2 == 0)
}

proof fn lemma_reaches_by_division(p: nat, bound: nat, unit: nat)
    requires
        unit > 0,
    ensures
        (p * unit > bound) == (p > bound / unit),
        (p * unit == bound) == (p == bound / unit && bound % unit == 0),
{
    let quotient = bound / unit;
    let rest = bound % unit;
    assert(bound == quotient * unit + rest && 0 <= rest < unit) by (nonlinear_arith)
        requires
            unit > 0,
            quotient == bound / unit,
            rest == bound % unit,
    ;
    if p > quotient {
        assert(p * unit >= quotient * unit + unit) by (nonlinear_arith)
            requires
                p >= quotient + 1,
                unit > 0,
        ;
    } else if p < quotient {
        assert(p * unit + unit <= quotient * unit) by (nonlinear_arith)
            requires
                p + 1 <= quotient,
                unit > 0,
        ;
    }
}

/// Whether the double nearest to `p / q` is at least `d`.
fn reaches(p: u128, q: u128, d: Double) -> (b: bool)
    requires
        0 < q <= 0x1_0000_0000_0000_0000,
        0 < d.bits < INFINITY,
        d.exponent() <= 1077,
    ensures
        b == quotient_reaches(p as nat, q as nat, d),
{
    let exponent: u64 = if d.bits < HIDDEN {
        1
    } else {
        d.bits / HIDDEN
    };
    let significand: u64 = if d.bits < HIDDEN {
        d.bits
    } else {
        d.bits % HIDDEN + HIDDEN
    };
    let midpoint: u64 = if significand == HIDDEN && exponent > 1 {
        4 * significand - 1
    } else {
        4 * significand - 2
    };
    assert(midpoint * q < 0x1000_0000_0000_0000_0000_0000_0000_0000) by (nonlinear_arith)
        requires
            midpoint < 0x80_0000_0000_0000,
            q <= 0x1_0000_0000_0000_0000,
    ;
    let bound: u128 = midpoint as u128 * q;
    let shift: u64 = 1077 - exponent;
    if shift >= 128 {
        proof {
            lemma2_to64();
            lemma2_to64_rest();
            lemma_pow2_adds(64, 64);
            if shift > 128 {
                lemma_pow2_strictly_increases(128, shift as nat);
            }
            let unit = pow2(shift as nat);
            assert(unit >= 0x1_0000_0000_0000_0000_0000_0000_0000_0000int) by (nonlinear_arith)
                requires
                    unit >= pow2(128),
                    pow2(128) == pow2(64) * pow2(64),
                    pow2(64) == 0x1_0000_0000_0000_0000,
            ;
            assert(p == 0 ==> p * unit == 0) by (nonlinear_arith);
            assert(p > 0 ==> p * unit >= unit) by (nonlinear_arith);
            assert(bound > 0) by (nonlinear_arith)
                requires
                    bound == midpoint * q,
                    midpoint > 0,
                    q > 0,
            ;
        }
        p > 0
    } else {
        let unit: u128 = power(shift);
        proof {
            lemma_pow2_pos(shift as nat);
            lemma_reaches_by_division(p as nat, bound as nat, unit as nat);
        }
        p > bound / unit || (p == bound / unit && bound % unit == 0 && significand % 2 == 0)
    }
}

/// The share `failures / total`, computed in doubles, is at least `ratio`.
///
/// Both counts and their quotient are rounded to the nearest double first. A NaN
/// is reached by nothing, a zero by every share, and no share is taken of nothing.
pub open spec fn share_reaches(failures: nat, total: nat, ratio: Double) -> bool {
    &&& total > 0
    &&& !ratio.nan()
    &&& {
        ||| ratio.bits >= SIGN
        ||| ratio.bits == 0
        ||| ratio.bits < INFINITY && quotient_reaches(
            count_value(failures),
            count_value(total),
            ratio,
        )
    }
}

/// The integer that the double nearest to `n` stands for.
fn count(n: u64) -> (v: u128)
    ensures
        v == count_value(n as nat),
        v <= 0x1_0000_0000_0000_0000,
        n > 0 ==> v > 0,
{
    if n == 0 {
        return 0;
    }
    let e: u64 = log2(n);
    if e <= 52 {
        n as u128
    } else {
        let unit: u128 = power(e - 52);
        let significand: u64 = round(n, e - 52);
        proof {
            lemma2_to64();
            lemma2_to64_rest();
            lemma_count_significand(n as nat);
            lemma_pow2_pos((e - 52) as nat);
            if e < 63 {
                lemma_pow2_strictly_increases((e - 52) as nat, 11);
            }
            assert(0 < significand * unit <= 0x1_0000_0000_0000_0000) by (nonlinear_arith)
                requires
                    0 < significand <= 2 * HIDDEN,
                    0 < unit <= 0x800,
            ;
        }
        significand as u128 * unit
    }
}

/// A share of a whole: a double of the unit interval, or a NaN.
#[derive(Clone, Copy, Debug)]
pub struct Ratio {
    value: Double,
}

impl Ratio {
    #[verifier::type_invariant]
    spec fn in_unit(self) -> bool {
        self.value == self.value.clamped()
    }

    pub closed spec fn spec_value(self) -> Double {
        self.value
    }

    /// The ratio `d`, clamped to the unit interval.
    pub closed spec fn of(d: Double) -> Ratio {
        Ratio { value: d.clamped() }
    }

    /// The value of the ratio that stands for `d`.
    pub proof fn lemma_of(d: Double)
        ensures
            Ratio::of(d).spec_value() == d.clamped(),
    {
    }

    /// The ratio `d`, clamped to the unit interval.
    pub fn new(d: Double) -> (r: Ratio)
        ensures
            r == Ratio::of(d),
            r.spec_value() == d.clamped(),
    {
        Ratio { value: d.clamp_unit() }
    }

    pub fn value(self) -> (d: Double)
        ensures
            d == self.spec_value(),
            d == d.clamped(),
    {
        proof {
            use_type_invariant(&self);
        }
        self.value
    }

    /// Whether the share `failures / total` is at least this ratio.
    pub fn reached_by(self, failures: u64, total: u64) -> (b: bool)
        ensures
            b == share_reaches(failures as nat, total as nat, self.spec_value()),
    {
        let ratio = self.value();
        if total == 0 || ratio.magnitude() > INFINITY {
            false
        } else if ratio.bits >= SIGN || ratio.bits == 0 {
            true
        } else {
            reaches(count(failures), count(total), ratio)
        }
    }
}

/// How many thousandths the product of the clamped ratio and a thousand comes to,
/// computed in doubles and cut off below.
pub open spec fn spec_thousandths(ratio: Double) -> nat {
    let r = ratio.clamped();
    if r.nan() || r.spec_magnitude() == 0 {
        0
    } else {
        let p = 1000 * r.significand();
        let q = pow2((1075 - r.exponent()) as nat);
        if quotient_reaches(p, q, Double { bits: count_bits(p / q + 1) as u64 }) {
            p / q + 1
        } else {
            p / q
        }
    }
}

/// The pattern of a count below 1024 is finite, with a small exponent.
proof fn lemma_small_count(n: nat)
    requires
        0 < n < 1024,
    ensures
        0 < count_bits(n) < INFINITY,
        (Double { bits: count_bits(n) as u64 }).exponent() <= 1034,
{
    lemma2_to64();
    lemma2_to64_rest();
    lemma_floor_log2_below(n, 10);
    lemma_count_significand(n);
}

/// A positive ratio of the unit interval is a fraction of `2^(1075 - exponent)`.
proof fn lemma_unit_fraction(r: Double)
    requires
        0 < r.bits <= ONE,
    ensures
        0 < r.significand() < 2 * HIDDEN,
        1 <= r.exponent() <= 1023,
        r.significand() <= pow2((1075 - r.exponent()) as nat),
{
    lemma2_to64();
    lemma2_to64_rest();
    let k = (1075 - r.exponent()) as nat;
    if k > 53 {
        lemma_pow2_strictly_increases(53, k);
    }
}

/// A ratio below `1000 / 2^64` comes to no thousandth.
proof fn lemma_negligible(p: nat, k: nat)
    requires
        p < pow2(63),
        k >= 64,
    ensures
        p / pow2(k) == 0,
        !quotient_reaches(p, pow2(k), Double { bits: count_bits(1) as u64 }),
{
    lemma2_to64();
    lemma2_to64_rest();
    let q = pow2(k);
    if k > 64 {
        lemma_pow2_strictly_increases(64, k);
    }
    assert(p / q == 0) by (nonlinear_arith)
        requires
            p < q,
    ;
    let d = Double { bits: count_bits(1) as u64 };
    assert(d.bits == ONE);
    assert(midpoint_below(d) == 4 * HIDDEN - 1);
    let bound = midpoint_below(d) * q;
    let scaled = p * pow2(54);
    assert(scaled < bound) by (nonlinear_arith)
        requires
            scaled == p * pow2(54),
            pow2(54) == 0x40000000000000,
            bound == (0x40000000000000 - 1) * q,
            2 * p < q,
    ;
}

/// A thousand thousandths do not round up any further.
proof fn lemma_whole(q: nat)
    requires
        q > 0,
    ensures
        !quotient_reaches(1000 * q, q, Double { bits: count_bits(1001) as u64 }),
{
    lemma2_to64();
    lemma2_to64_rest();
    reveal_with_fuel(floor_log2, 11);
    let d = Double { bits: count_bits(1001) as u64 };
    assert(floor_log2(1001) == 9);
    assert(d.exponent() == 1032);
    assert(midpoint_below(d) == 4004 * pow2(43) - 2);
    let bound = midpoint_below(d) * q;
    let scaled = (1000 * q) * pow2(45);
    assert(scaled < bound) by (nonlinear_arith)
        requires
            q > 0,
            scaled == (1000 * q) * pow2(45),
            pow2(45) == 0x200000000000,
            bound == (4004 * 0x80000000000 - 2) * q,
    ;
}

/// The product of `ratio`, clamped to the unit interval, and a thousand, computed
/// in doubles and cut off below.
pub fn thousandths(ratio: Double) -> (t: i64)
    ensures
        t == spec_thousandths(ratio),
        0 <= t <= 1000,
{
    let r = ratio.clamp_unit();
    if r.magnitude() > INFINITY || r.magnitude() == 0 {
        return 0;
    }
    proof {
        lemma_unit_fraction(r);
        lemma2_to64();
        lemma2_to64_rest();
    }
    let exponent: u64 = if r.bits < HIDDEN {
        1
    } else {
        r.bits / HIDDEN
    };
    let significand: u64 = if r.bits < HIDDEN {
        r.bits
    } else {
        r.bits % HIDDEN + HIDDEN
    };
    let p: u128 = 1000 * significand as u128;
    if 1075 - exponent >= 64 {
        proof {
            lemma_negligible(p as nat, (1075 - exponent) as nat);
        }
        return 0;
    }
    let q: u128 = power(1075 - exponent);
    proof {
        lemma_pow2_pos((1075 - exponent) as nat);
        if 1075 - exponent < 64 {
            lemma_pow2_strictly_increases((1075 - exponent) as nat, 64);
        }
        assert(p / q <= 1000) by (nonlinear_arith)
            requires
                p <= 1000 * q,
                q > 0,
        ;
        if p / q == 1000 {
            assert(p == 1000 * q) by (nonlinear_arith)
                requires
                    p <= 1000 * q,
                    q > 0,
                    p / q == 1000,
            ;
            lemma_whole(q as nat);
        }
        lemma_small_count((p / q + 1) as nat);
    }
    let floor: u64 = (p / q) as u64;
    if reaches(p, q, Double::from_count(floor + 1)) {
        (floor + 1) as i64
    } else {
        floor as i64
    }
}

proof fn lemma_rounded_step(n: nat, s: nat)
    ensures
        rounded(n, s) <= rounded(n + 1, s),
{
    lemma_pow2_pos(s);
    let unit = pow2(s);
    vstd::arithmetic::div_mod::lemma_fundamental_div_mod(n as int, unit as int);
    if n % unit + 1 < unit {
        vstd::arithmetic::div_mod::lemma_fundamental_div_mod_converse(
            (n + 1) as int,
            unit as int,
            (n / unit) as int,
            (n % unit + 1) as int,
        );
    } else {
        let quotient = n / unit;
        assert(n + 1 == (quotient + 1) * unit) by (nonlinear_arith)
            requires
                n == unit * quotient + (unit - 1),
        ;
        vstd::arithmetic::div_mod::lemma_fundamental_div_mod_converse(
            (n + 1) as int,
            unit as int,
            (n / unit + 1) as int,
            0,
        );
    }
}

proof fn lemma_floor_log2_unique(n: nat, e: nat)
    requires
        pow2(e) <= n < pow2(e + 1),
    ensures
        floor_log2(n) == e,
{
    lemma_pow2_pos(e);
    lemma_floor_log2(n);
    let f = floor_log2(n);
    if f < e {
        if f + 1 < e {
            lemma_pow2_strictly_increases(f + 1, e);
        }
    } else if f > e {
        if e + 1 < f {
            lemma_pow2_strictly_increases(e + 1, f);
        }
    }
}

/// The pattern of a count is that of a finite positive number.
pub proof fn lemma_count_bits_bounded(n: nat)
    requires
        n < pow2(64),
    ensures
        count_bits(n) < INFINITY,
{
    lemma2_to64();
    lemma2_to64_rest();
    if n > 0 {
        lemma_count_significand(n);
    }
}

proof fn lemma_count_bits_step(n: nat)
    requires
        n + 1 < pow2(64),
    ensures
        count_bits(n) <= count_bits(n + 1),
        n < pow2(53) ==> count_bits(n) < count_bits(n + 1),
{
    lemma2_to64();
    lemma2_to64_rest();
    lemma_count_significand(n + 1);
    if n > 0 {
        lemma_count_significand(n);
        let e = floor_log2(n);
        lemma_floor_log2(n);
        lemma_pow2_pos(e);
        if n + 1 < pow2(e + 1) {
            lemma_floor_log2_unique(n + 1, e);
            if e <= 52 {
                let u = pow2((52 - e) as nat);
                lemma_pow2_pos((52 - e) as nat);
                assert((n + 1) * u == n * u + u) by (nonlinear_arith);
            } else {
                lemma_rounded_step(n, (e - 52) as nat);
                if e > 53 {
                    lemma_pow2_strictly_increases(53, e);
                }
            }
        } else {
            lemma_pow2_unfold(e + 1);
            lemma_pow2_strictly_increases(e + 1, e + 2);
            lemma_floor_log2_unique(n + 1, e + 1);
            if e > 53 {
                lemma_pow2_strictly_increases(53, e);
            }
        }
    }
}

/// A larger count has no smaller score, and counts up to `2^53` have distinct ones.
pub proof fn lemma_count_bits_ordered(m: nat, n: nat)
    requires
        m < n < pow2(64),
    ensures
        count_bits(m) <= count_bits(n),
        m < pow2(53) ==> count_bits(m) < count_bits(n),
    decreases n - m,
{
    lemma_count_bits_step(m);
    if m + 1 < n {
        lemma_count_bits_ordered(m + 1, n);
    }
}

proof fn lemma_count_value_step(n: nat)
    requires
        n + 1 < pow2(64),
    ensures
        count_value(n) <= count_value(n + 1),
{
    lemma2_to64();
    lemma2_to64_rest();
    if n > 0 {
        lemma_count_significand(n);
        lemma_count_significand(n + 1);
        let e = floor_log2(n);
        lemma_floor_log2(n);
        lemma_pow2_pos(e);
        if n + 1 < pow2(e + 1) {
            lemma_floor_log2_unique(n + 1, e);
            if e > 52 {
                let s = (e - 52) as nat;
                lemma_rounded_step(n, s);
                lemma_pow2_pos(s);
                let a = rounded(n, s);
                let b = rounded(n + 1, s);
                let u = pow2(s);
                assert(a * u <= b * u) by (nonlinear_arith)
                    requires
                        a <= b,
                ;
            }
        } else {
            lemma_pow2_unfold(e + 1);
            lemma_pow2_strictly_increases(e + 1, e + 2);
            lemma_floor_log2_unique(n + 1, e + 1);
            if e > 52 {
                let s = (e - 52) as nat;
                let u = pow2(s);
                lemma_pow2_unfold(s + 1);
                let a = rounded(n, s);
                let b = rounded(n + 1, s + 1);
                assert(a * u <= b * (2 * u)) by (nonlinear_arith)
                    requires
                        a <= 2 * HIDDEN,
                        HIDDEN <= b,
                ;
            } else if e == 52 {
                let b = rounded(n + 1, 1);
                assert(n + 1 == 2 * HIDDEN);
                assert(b * pow2(1) >= 2 * HIDDEN) by (nonlinear_arith)
                    requires
                        b >= HIDDEN,
                        pow2(1) == 2,
                ;
            }
        }
    }
}

proof fn lemma_count_value_ordered(m: nat, n: nat)
    requires
        m <= n < pow2(64),
    ensures
        count_value(m) <= count_value(n),
    decreases n - m,
{
    if m < n {
        lemma_count_value_step(m);
        lemma_count_value_ordered(m + 1, n);
    }
}

proof fn lemma_count_value_positive(n: nat)
    requires
        0 < n < pow2(64),
    ensures
        count_value(n) > 0,
{
    lemma2_to64();
    lemma2_to64_rest();
    reveal_with_fuel(floor_log2, 2);
    lemma_count_value_ordered(1, n);
}

/// Failures alone reach every ratio, and no failure reaches none but zero.
pub proof fn law_shares_at_the_ends(total: nat, ratio: Double)
    requires
        0 < total < pow2(64),
        ratio == ratio.clamped(),
        !ratio.nan(),
    ensures
        share_reaches(total, total, ratio),
        share_reaches(0, total, ratio) == (ratio.spec_magnitude() == 0),
{
    lemma_count_value_positive(total);
    if 0 < ratio.bits < SIGN {
        lemma_unit_fraction(ratio);
        let v = count_value(total);
        let k = (1075 - ratio.exponent()) as nat;
        lemma_pow2_adds(k, 2);
        lemma2_to64();
        let unit = pow2(k + 2);
        let mid = midpoint_below(ratio);
        assert(unit == 4 * pow2(k)) by (nonlinear_arith)
            requires
                unit == pow2(k) * pow2(2),
                pow2(2) == 4,
        ;
        assert(v * unit > mid * v) by (nonlinear_arith)
            requires
                v > 0,
                mid < unit,
        ;
        assert(mid * v > 0) by (nonlinear_arith)
            requires
                v > 0,
                mid > 0,
        ;
        assert(count_value(0) == 0);
        assert(0 * unit == 0) by (nonlinear_arith);
    }
}

/// Where a share reaches a ratio, one with more failures does too.
pub proof fn law_more_failures_reach_more(fewer: nat, more: nat, total: nat, ratio: Double)
    requires
        fewer <= more < pow2(64),
        share_reaches(fewer, total, ratio),
    ensures
        share_reaches(more, total, ratio),
{
    lemma_count_value_ordered(fewer, more);
    let a = count_value(fewer);
    let b = count_value(more);
    let unit = pow2((1077 - ratio.exponent()) as nat);
    assert(a * unit <= b * unit) by (nonlinear_arith)
        requires
            a <= b,
    ;
}

/// A share that is exactly at least the ratio, `significand / 2^k`, reaches it: rounding
/// never takes away what the exact numbers give.
pub proof fn law_exact_shares_reach(failures: nat, total: nat, ratio: Double)
    requires
        0 < total < pow2(53),
        failures < pow2(53),
        0 < ratio.bits <= ONE,
        failures * pow2((1075 - ratio.exponent()) as nat) >= ratio.significand() * total,
    ensures
        share_reaches(failures, total, ratio),
{
    lemma2_to64();
    lemma2_to64_rest();
    lemma_unit_fraction(ratio);
    lemma_floor_log2_below(total, 53);
    if failures > 0 {
        lemma_floor_log2_below(failures, 53);
    }
    let k = (1075 - ratio.exponent()) as nat;
    lemma_pow2_adds(k, 2);
    let unit = pow2(k);
    let m = ratio.significand();
    let mid = midpoint_below(ratio);
    assert(failures * pow2(k + 2) > mid * total) by (nonlinear_arith)
        requires
            failures * unit >= m * total,
            pow2(k + 2) == unit * 4,
            mid < 4 * m,
            total > 0,
    ;
}

/// The patterns of the positive numbers run through them in order: zero comes first, each
/// next pattern is one unit of the last place more, and one stands where its pattern is.
/// Those with all exponent bits set are infinite or not numbers, and no others.
pub proof fn law_patterns_run_through_the_numbers(d: Double, next: Double)
    requires
        d.bits < 0x7FF0_0000_0000_0000,
        next.bits == d.bits + 1,
    ensures
        d.finite(),
        next.finite() == (next.bits != 0x7FF0_0000_0000_0000),
        !next.nan(),
        d.bits == 0 ==> d.significand() == 0 && d.exponent() == 1,
        d.bits == 0x3FF0_0000_0000_0000 ==> d.significand() == 0x10_0000_0000_0000 && d.exponent()
            == 1023,
        next.exponent() == d.exponent() ==> next.significand() == d.significand() + 1,
        next.exponent() != d.exponent() ==> {
            &&& next.exponent() == d.exponent() + 1
            &&& d.significand() + 1 == 0x20_0000_0000_0000
            &&& next.significand() == 0x10_0000_0000_0000
        },
        d.significand() < 0x20_0000_0000_0000,
{
}

/// A pattern with the sign bit set stands for the number below zero with the same magnitude,
/// and is infinite or not a number with it.
pub proof fn law_signs_turn_the_order_round(a: Double, b: Double, less_a: Double, less_b: Double)
    requires
        a.bits < 0x8000_0000_0000_0000,
        b.bits < 0x8000_0000_0000_0000,
        less_a.bits == a.bits + 0x8000_0000_0000_0000,
        less_b.bits == b.bits + 0x8000_0000_0000_0000,
    ensures
        less_a.finite() == a.finite(),
        less_a.nan() == a.nan(),
        less_a.significand() == a.significand(),
        less_a.exponent() == a.exponent(),
        (a.rank() < b.rank()) == (a.bits < b.bits),
        (less_a.rank() < less_b.rank()) == (b.bits < a.bits),
        less_a.rank() < b.rank(),
        a.rank() == b.rank() ==> a == b,
        less_a.rank() == less_b.rank() ==> less_a == less_b,
{
}

/// The tests on a number: greater than zero, a share of a whole, finite, before another.
pub proof fn law_numbers_are_tested(
    d: Double,
    other: Double,
    positive: bool,
    share: bool,
    finite: bool,
    before: bool,
)
    requires
        call_ensures(Double::is_positive, (d,), positive),
        call_ensures(Double::is_share, (d,), share),
        call_ensures(Double::is_finite, (d,), finite),
        call_ensures(Double::precedes, (d, other), before),
    ensures
        positive == (!d.nan() && d.rank() > 0),
        share == (positive && d.bits <= 0x3FF0_0000_0000_0000),
        finite == (d.bits % 0x8000_0000_0000_0000 < 0x7FF0_0000_0000_0000),
        before == (d.rank() < other.rank()),
{
}

/// Clamping keeps the numbers of the unit interval and every NaN, and takes the others to the
/// nearer end.
pub proof fn law_clamping_goes_to_the_nearer_end(d: Double)
    ensures
        d.nan() || d.bits == SIGN || 0 <= d.rank() <= 0x3FF0_0000_0000_0000 ==> d.clamped() == d,
        !d.nan() && d.rank() > 0x3FF0_0000_0000_0000 ==> d.clamped().bits == 0x3FF0_0000_0000_0000,
        !d.nan() && d.rank() < 0 && d.bits != SIGN ==> d.clamped().bits == 0,
        d.clamped().clamped() == d.clamped(),
{
}

/// The larger of two numbers is one of them and comes before neither; of a number and a NaN
/// it is the number.
pub proof fn law_the_larger_comes_last(a: Double, b: Double, c: Double)
    requires
        call_ensures(Double::larger, (a, b), c),
    ensures
        c == a || c == b,
        !a.nan() && !b.nan() ==> c.rank() >= a.rank() && c.rank() >= b.rank(),
        a.nan() ==> c == b,
        b.nan() && !a.nan() ==> c == a,
{
}

/// A count is turned into the double nearest to it: exactly where its 53 leading bits hold
/// it, as all counts below `2^53` are, and otherwise to half a unit of the last place, a tie
/// going to the even one. Comparisons of shares use the same value.
pub proof fn law_counts_become_the_nearest_double(n: nat)
    requires
        0 < n < pow2(64),
    ensures
        ({
            let d = Double { bits: count_bits(n) as u64 };
            &&& d.bits == count_bits(n)
            &&& d.finite()
            &&& n < pow2(53) ==> d.exponent() <= 1075
            &&& d.exponent() <= 1075 ==> {
                &&& d.significand() == n * pow2((1075 - d.exponent()) as nat)
                &&& count_value(n) == n
            }
            &&& d.exponent() > 1075 ==> {
                let unit = pow2((d.exponent() - 1075) as nat);
                &&& count_value(n) == d.significand() * unit
                &&& -(unit as int) <= 2 * (d.significand() * unit - n) <= unit
                &&& 2 * (d.significand() * unit - n) == unit || 2 * (d.significand() * unit - n)
                    == -(unit as int) ==> d.significand() % 2 == 0
            }
        }),
{
    let e = floor_log2(n);
    lemma2_to64();
    lemma2_to64_rest();
    lemma_floor_log2(n);
    lemma_count_significand(n);
    lemma_count_bits_bounded(n);
    let d = Double { bits: count_bits(n) as u64 };
    if n < pow2(53) {
        lemma_floor_log2_below(n, 53);
    }
    if e > 52 {
        let s = (e - 52) as nat;
        let unit = pow2(s);
        let r = rounded(n, s);
        lemma_pow2_pos(s);
        lemma_pow2_unfold(s + 1);
        vstd::arithmetic::div_mod::lemma_fundamental_div_mod(n as int, unit as int);
        let quotient = n / unit;
        let rest = n % unit;
        assert(n == quotient * unit + rest && (quotient + 1) * unit == quotient * unit + unit)
            by (nonlinear_arith)
            requires
                n == unit * quotient + rest,
        ;
        if r == 2 * HIDDEN {
            assert(d.exponent() == 1023 + e + 1);
            assert(d.significand() == HIDDEN);
            assert(HIDDEN as nat * (2 * unit) == r * unit) by (nonlinear_arith)
                requires
                    r == 2 * HIDDEN,
            ;
        } else {
            assert(d.exponent() == 1023 + e);
            assert(d.significand() == r);
        }
    }
}

/// A share is compared as rounded quotients are: where the exact quotient lies between two
/// neighbouring doubles, it reaches the upper one if it is nearer to that, and half-way where
/// the upper one is even.
pub proof fn law_quotients_go_to_the_nearest(p: nat, q: nat, lower: Double, upper: Double)
    requires
        0 < q,
        0 < lower.bits,
        upper.bits == lower.bits + 1,
        upper.exponent() <= 1075,
        upper.bits < SIGN,
    ensures
        ({
            let exact = p * pow2((1075 - lower.exponent()) as nat);
            let low = lower.significand() * q;
            let high = (lower.significand() + 1) * q;
            quotient_reaches(p, q, upper) == (exact - low > high - exact || (exact - low == high
                - exact && upper.significand() % 2 == 0))
        }),
{
    let k = (1075 - lower.exponent()) as nat;
    let exact = p * pow2(k);
    let sig = lower.significand();
    law_patterns_run_through_the_numbers(lower, upper);
    lemma2_to64();
    assert((sig + 1) * q == sig * q + q) by (nonlinear_arith);
    let mid = midpoint_below(upper);
    if upper.exponent() == lower.exponent() {
        assert(pow2(k + 2) == 4 * pow2(k)) by {
            lemma_pow2_adds(k, 2);
            assert(pow2(k) * 4 == 4 * pow2(k)) by (nonlinear_arith);
        }
        let unit = pow2(k);
        assert(p * (4 * unit) == 4 * exact) by (nonlinear_arith)
            requires
                exact == p * unit,
        ;
        if mid == 4 * (sig + 1) - 2 {
            assert(mid * q == 4 * (sig * q) + 2 * q) by (nonlinear_arith)
                requires
                    mid == 4 * sig + 2,
            ;
        } else {
            assert(upper.bits < 2 * HIDDEN);
            assert(false);
        }
    } else {
        assert(1077 - upper.exponent() == k + 1);
        lemma_pow2_unfold(k + 1);
        let unit = pow2(k);
        assert(p * (2 * unit) == 2 * exact) by (nonlinear_arith)
            requires
                exact == p * unit,
        ;
        assert(mid * q == 2 * (sig * q) + q) by (nonlinear_arith)
            requires
                mid == 2 * sig + 1,
        ;
    }
}

/// A share that falls short of the ratio by more than half a unit of the ratio's last place
/// does not reach it.
pub proof fn law_shares_below_do_not_reach(failures: nat, total: nat, ratio: Double)
    requires
        0 < total < pow2(53),
        failures < pow2(53),
        0 < ratio.bits <= ONE,
        2 * (failures * pow2((1075 - ratio.exponent()) as nat)) < (2 * ratio.significand() - 1)
            * total,
    ensures
        !share_reaches(failures, total, ratio),
{
    lemma2_to64();
    lemma2_to64_rest();
    lemma_unit_fraction(ratio);
    lemma_floor_log2_below(total, 53);
    if failures > 0 {
        lemma_floor_log2_below(failures, 53);
    }
    let k = (1075 - ratio.exponent()) as nat;
    lemma_pow2_adds(k, 2);
    let unit = pow2(k);
    let m = ratio.significand();
    let mid = midpoint_below(ratio);
    assert(failures * pow2(k + 2) < mid * total) by (nonlinear_arith)
        requires
            2 * (failures * unit) < (2 * m - 1) * total,
            pow2(k + 2) == unit * 4,
            mid >= 4 * m - 2,
            total > 0,
    ;
}

/// What is shown of a ratio is the whole part of a thousand times it, as doubles compute the
/// product: never more than one below the exact product, and above it only by rounding. It
/// is at least `n` where the product rounds to at least `n`, and only there.
pub proof fn law_thousandths_are_cut_off(ratio: Double, n: nat, t: i64)
    requires
        call_ensures(thousandths, (ratio,), t),
        0 < n <= 1000,
    ensures
        ratio.nan() || ratio.bits >= SIGN || ratio.bits == 0 ==> t == 0,
        ONE <= ratio.bits <= INFINITY ==> t == 1000,
        0 < ratio.bits <= ONE ==> {
            let p = 1000 * ratio.significand();
            let q = pow2((1075 - ratio.exponent()) as nat);
            &&& (n <= t) == quotient_reaches(p, q, Double { bits: count_bits(n) as u64 })
            &&& p < (t + 1) * q
            &&& (t * q - p) * pow2(44) <= q
        },
{
    lemma2_to64();
    lemma2_to64_rest();
    let r = ratio.clamped();
    if 0 < ratio.bits <= ONE {
        lemma_unit_fraction(ratio);
        let p = 1000 * ratio.significand();
        let k = (1075 - ratio.exponent()) as nat;
        let q = pow2(k);
        lemma_pow2_pos(k);
        vstd::arithmetic::div_mod::lemma_fundamental_div_mod(p as int, q as int);
        let floor = p / q;
        let rest = p % q;
        assert(p == floor * q + rest && (floor + 1) * q == floor * q + q) by (nonlinear_arith)
            requires
                p == q * floor + rest,
        ;
        assert(floor <= 1000) by (nonlinear_arith)
            requires
                p <= 1000 * q,
                p == floor * q + rest,
                rest >= 0,
                q > 0,
        ;
        assert((floor + 2) * q == floor * q + 2 * q) by (nonlinear_arith);
        lemma_products_reach(p, q, n);
        lemma_products_reach(p, q, floor + 1);
        if n <= floor {
            assert(n * q <= floor * q) by (nonlinear_arith)
                requires
                    n <= floor,
            ;
        }
        if n >= floor + 2 {
            assert(n * q >= floor * q + 2 * q) by (nonlinear_arith)
                requires
                    n >= floor + 2,
                    q > 0,
            ;
        }
        let slack = t * q - p;
        if slack <= 0 {
            assert(slack * pow2(44) <= 0) by (nonlinear_arith)
                requires
                    slack <= 0,
                    pow2(44) > 0,
            ;
        }
    }
    if ONE <= ratio.bits <= INFINITY {
        assert(r.bits == ONE);
        lemma_unit_fraction(r);
        let q = pow2(52);
        assert((1000 * q) / q == 1000) by (nonlinear_arith)
            requires
                q > 0,
        ;
        lemma_whole(q);
    }
}

/// When a quotient rounds to at least a small count: whenever it is at least that, and only
/// where it falls short by very little.
proof fn lemma_products_reach(p: nat, q: nat, n: nat)
    requires
        0 < n < 1024,
        0 < q,
    ensures
        p >= n * q ==> quotient_reaches(p, q, Double { bits: count_bits(n) as u64 }),
        quotient_reaches(p, q, Double { bits: count_bits(n) as u64 }) ==> (n * q - p) * pow2(44)
            <= q && n * q < p + q,
{
    lemma2_to64();
    lemma2_to64_rest();
    let e = floor_log2(n);
    lemma_floor_log2_below(n, 10);
    lemma_count_significand(n);
    lemma_small_count(n);
    let d = Double { bits: count_bits(n) as u64 };
    let up = (52 - e) as nat;
    assert(d.exponent() == 1023 + e);
    assert(d.significand() == n * pow2(up));
    let unit = pow2(up);
    let scale = pow2((54 - e) as nat);
    lemma_pow2_adds(up, 2);
    assert(scale == 4 * unit);
    if e < 9 {
        lemma_pow2_strictly_increases(43, up);
    }
    let mid = midpoint_below(d);
    assert(mid * q == (n * q) * scale - (4 * (n * unit) - mid) * q) by (nonlinear_arith)
        requires
            scale == 4 * unit,
    ;
    let c = 4 * (n * unit) - mid;
    assert(1 <= c <= 2);
    assert(q <= c * q <= 2 * q) by (nonlinear_arith)
        requires
            1 <= c <= 2,
            q > 0,
    ;
    let gap = n * q - p;
    assert(p * scale == (n * q) * scale - gap * scale) by (nonlinear_arith)
        requires
            gap == n * q - p,
    ;
    if gap <= 0 {
        assert(gap * scale <= 0 && gap * pow2(44) <= 0) by (nonlinear_arith)
            requires
                gap <= 0,
                scale > 0,
                pow2(44) > 0,
        ;
    } else {
        assert(gap * scale >= 2 * (gap * pow2(44))) by (nonlinear_arith)
            requires
                gap > 0,
                scale >= 2 * pow2(44),
        ;
        assert(gap * pow2(44) >= gap) by (nonlinear_arith)
            requires
                gap > 0,
                pow2(44) >= 1,
        ;
        assert(gap * pow2(44) >= 2 * gap) by (nonlinear_arith)
            requires
                gap > 0,
                pow2(44) >= 2,
        ;
    }
}

} // verus!
