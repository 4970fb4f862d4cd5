//! Double-precision numbers carried by their IEEE 754 bit pattern.
//!
//! Node parameters are doubles. The library stores, compares, converts
//! and truncates them; it never does arithmetic on them, so the bit
//! pattern is all it needs.

use vstd::arithmetic::power2::*;
use vstd::prelude::*;

verus! {

/// A double, by its bit pattern: one sign bit, eleven exponent bits and
/// fifty-two fraction bits.
#[derive(Clone, Copy, PartialEq, Eq, Structural, Debug)]
pub struct Double {
    pub bits: u64,
}

/// `2^52`: the weight of the lowest exponent bit.
pub const FRACTION: u64 = 0x10_0000_0000_0000;

/// `2^63`: the weight of the sign bit.
pub const SIGN: u64 = 0x8000_0000_0000_0000;

/// The bits of zero.
pub const ZERO: u64 = 0;

/// The bits of one tenth, rounded.
pub const TENTH: u64 = 0x3FB9_9999_9999_999A;

/// The bits of one half.
pub const HALF: u64 = 0x3FE0_0000_0000_0000;

/// The bits of one.
pub const ONE: u64 = 0x3FF0_0000_0000_0000;

/// The bits of one fifth, rounded.
pub const FIFTH: u64 = 0x3FC9_9999_9999_999A;

/// The bits of two.
pub const TWO: u64 = 0x4000_0000_0000_0000;

/// The bits of four.
pub const FOUR: u64 = 0x4010_0000_0000_0000;

/// The bits of five.
pub const FIVE: u64 = 0x4014_0000_0000_0000;

/// The bits of eight.
pub const EIGHT: u64 = 0x4020_0000_0000_0000;

/// The bits of sixty-four.
pub const SIXTY_FOUR: u64 = 0x4050_0000_0000_0000;

/// The bits of seventy-two.
pub const SEVENTY_TWO: u64 = 0x4052_0000_0000_0000;

/// The bits of one hundred.
pub const HUNDRED: u64 = 0x4059_0000_0000_0000;

/// The bits of three hundred.
pub const THREE_HUNDRED: u64 = 0x4072_C000_0000_0000;

/// The bits of four hundred.
pub const FOUR_HUNDRED: u64 = 0x4079_0000_0000_0000;

/// The bits of minus one.
pub const MINUS_ONE: u64 = 0xBFF0_0000_0000_0000;

/// The bits of minus one hundred.
pub const MINUS_HUNDRED: u64 = 0xC059_0000_0000_0000;

impl Double {
    /// Whether the sign bit is set.
    pub open spec fn negative(self) -> bool {
        self.bits >= SIGN
    }

    /// The biased exponent.
    pub open spec fn exponent(self) -> int {
        (self.bits as int % SIGN as int) / FRACTION as int
    }

    /// The fraction bits.
    pub open spec fn fraction(self) -> int {
        self.bits as int % FRACTION as int
    }

    /// Neither an infinity nor a NaN.
    pub open spec fn finite(self) -> bool {
        self.exponent() != 2047
    }

    /// Not a number.
    pub open spec fn nan(self) -> bool {
        self.exponent() == 2047 && self.fraction() != 0
    }

    /// Whether this is a number of at most zero.
    pub open spec fn nonpositive(self) -> bool {
        !self.nan() && (self.zero() || self.negative())
    }

    /// The place of a double among the doubles that are no NaN: they are
    /// ordered by sign, then by the magnitude that the other bits spell.
    pub open spec fn rank(self) -> int {
        if self.negative() {
            SIGN - self.bits
        } else {
            self.bits as int
        }
    }

    /// Whether this double is less than another one. A NaN is neither less
    /// nor greater than any.
    pub open spec fn below(self, other: Double) -> bool {
        !self.nan() && !other.nan() && self.rank() < other.rank()
    }

    /// Whether this double is at most another one.
    pub open spec fn at_most(self, other: Double) -> bool {
        !self.nan() && !other.nan() && self.rank() <= other.rank()
    }

    /// Whether this is a finite number above zero.
    pub open spec fn usable(self) -> bool {
        self.finite() && !self.nonpositive()
    }

    /// The lesser of two doubles; this one when neither is less.
    pub open spec fn lesser(self, other: Double) -> Double {
        if other.below(self) {
            other
        } else {
            self
        }
    }

    /// The greater of two doubles; this one when neither is greater.
    pub open spec fn greater(self, other: Double) -> Double {
        if self.below(other) {
            other
        } else {
            self
        }
    }

    /// Positive or negative zero.
    pub open spec fn zero(self) -> bool {
        self.bits == ZERO || self.bits == SIGN
    }

    /// The integer significand of a finite double.
    pub open spec fn significand(self) -> nat {
        if self.exponent() == 0 {
            self.fraction() as nat
        } else {
            (self.fraction() + FRACTION) as nat
        }
    }

    /// The power of two that scales the significand of a finite double:
    /// its magnitude is `significand * 2^scale`.
    pub open spec fn scale(self) -> int {
        if self.exponent() == 0 {
            -1074
        } else {
            self.exponent() - 1075
        }
    }

    /// The magnitude of a finite double, rounded down to an integer.
    pub open spec fn floor_magnitude(self) -> nat {
        if self.scale() >= 0 {
            self.significand() * pow2(self.scale() as nat)
        } else {
            self.significand() / pow2((-self.scale()) as nat)
        }
    }

    /// The magnitude of a finite double, rounded to the nearest integer
    /// with halves away from zero.
    pub open spec fn round_magnitude(self) -> nat {
        if self.scale() >= 0 {
            self.significand() * pow2(self.scale() as nat)
        } else {
            (self.significand() + pow2((-self.scale() - 1) as nat)) / pow2((-self.scale()) as nat)
        }
    }

    /// `magnitude` with the sign of this double.
    pub open spec fn signed(self, magnitude: nat) -> int {
        if self.negative() {
            -(magnitude as int)
        } else {
            magnitude as int
        }
    }

    /// The value truncated toward zero and saturated into `lo..=hi`; a
    /// NaN becomes zero.
    pub open spec fn truncated(self, lo: int, hi: int) -> int {
        if self.nan() {
            0
        } else if !self.finite() {
            if self.negative() {
                lo
            } else {
                hi
            }
        } else {
            clamped(self.signed(self.floor_magnitude()), lo, hi)
        }
    }
}

/// `v` brought into `lo..=hi`.
pub open spec fn clamped(v: int, lo: int, hi: int) -> int {
    if v < lo {
        lo
    } else if v > hi {
        hi
    } else {
        v
    }
}

/// The quotient `n / d` lies in the binade of `2^(k + 52)`: between that
/// power of two and the next one.
pub open spec fn in_binade(n: nat, d: nat, k: int) -> bool {
    -200 <= k && d * pow2((k + 252) as nat) <= n * pow2(200) < d * pow2((k + 253) as nat)
}

/// `num / den` rounded to the nearest integer, ties to even.
pub open spec fn round_half_even(num: nat, den: nat) -> nat {
    let q = num / den;
    let rem = num % den;
    if 2 * rem > den || (2 * rem == den && q % 2 == 1) {
        q + 1
    } else {
        q
    }
}

/// The bit pattern of the double nearest to `n / d`, ties to even, with
/// the quotient in the binade of `2^(k + 52)`.
pub open spec fn nearest_bits_at(n: nat, d: nat, k: int) -> int {
    (k + 1074) * 0x10_0000_0000_0000 + round_half_even(n * pow2(200), d * pow2((k + 200) as nat))
}

/// The double nearest to the positive quotient `n / d`, ties to even.
pub open spec fn nearest(n: nat, d: nat) -> Double {
    let k = choose|k: int| in_binade(n, d, k);
    Double { bits: nearest_bits_at(n, d, k) as u64 }
}

/// The double nearest to `n / d` for a signed `n`.
pub open spec fn double_of_ratio(n: int, d: nat) -> Double {
    if n == 0 {
        Double { bits: ZERO }
    } else if n > 0 {
        nearest(n as nat, d)
    } else {
        Double { bits: (nearest((-n) as nat, d).bits + SIGN) as u64 }
    }
}

/// The double nearest to the integer `i`.
pub open spec fn double_of_int(i: int) -> Double {
    double_of_ratio(i, 1)
}

/// A positive quotient lies in one binade only.
proof fn lemma_binade_unique(n: nat, d: nat, k1: int, k2: int)
    requires
        d > 0,
        in_binade(n, d, k1),
        in_binade(n, d, k2),
    ensures
        k1 == k2,
{
    if k1 < k2 {
        lemma_binade_bound(d, k1, k2);
    } else if k2 < k1 {
        lemma_binade_bound(d, k2, k1);
    }
}

/// The top of a binade is at most the bottom of a higher one.
proof fn lemma_binade_bound(d: nat, k1: int, k2: int)
    requires
        -200 <= k1 < k2,
    ensures
        d * pow2((k1 + 253) as nat) <= d * pow2((k2 + 252) as nat),
{
    let a = pow2((k1 + 253) as nat);
    let b = pow2((k2 + 252) as nat);
    assert(a <= b) by {
        if k1 + 253 < k2 + 252 {
            lemma_pow2_strictly_increases(
                (k1 + 253) as nat,
                (k2 + 252) as nat,
            );
        }
    }
    assert(d * a <= d * b) by (nonlinear_arith)
        requires
            a <= b,
    ;
}

/// Dividing a scaled pair gives the quotient of the pair and the scaled
/// remainder, so both round alike.
proof fn lemma_round_scaled(num: nat, den: nat, c: nat)
    requires
        den > 0,
        c > 0,
    ensures
        round_half_even(num * c, den * c) == round_half_even(num, den),
{
    let q = num / den;
    let r = num % den;
    vstd::arithmetic::div_mod::lemma_fundamental_div_mod(num as int, den as int);
    assert(num == den * q + r);
    assert(num * c == q * (den * c) + r * c) by (nonlinear_arith)
        requires
            num == den * q + r,
    ;
    assert(0 <= r * c < den * c) by (nonlinear_arith)
        requires
            0 <= r < den,
            c > 0,
    ;
    vstd::arithmetic::div_mod::lemma_fundamental_div_mod_converse(
        (num * c) as int,
        (den * c) as int,
        q as int,
        (r * c) as int,
    );
    assert((2 * r > den) == (2 * (r * c) > den * c)) by (nonlinear_arith)
        requires
            c > 0,
    ;
    assert((2 * r == den) == (2 * (r * c) == den * c)) by (nonlinear_arith)
        requires
            c > 0,
    ;
}

/// A power of two below `2^127`.
fn power_of_two(e: u32) -> (r: u128)
    requires
        e < 127,
    ensures
        r == pow2(e as nat),
{
    let mut r: u128 = 1;
    let mut i: u32 = 0;
    proof {
        lemma2_to64();
    }
    while i < e
        invariant
            i <= e < 127,
            r == pow2(i as nat),
        decreases e - i,
    {
        proof {
            lemma_pow2_unfold((i + 1) as nat);
            lemma_below_2_127((i + 1) as nat);
        }
        r = r * 2;
        i = i + 1;
    }
    r
}

proof fn lemma_below_2_127(e: nat)
    requires
        e < 127,
    ensures
        pow2(e) <= 0x4000_0000_0000_0000_0000_0000_0000_0000,
{
    lemma2_to64();
    lemma2_to64_rest();
    lemma_pow2_adds(63, 63);
    if e < 126 {
        lemma_pow2_strictly_increases(e, 126);
    }
    assert(0x8000_0000_0000_0000 * 0x8000_0000_0000_0000
        == 0x4000_0000_0000_0000_0000_0000_0000_0000) by (nonlinear_arith);
}

/// The exponent and the scaled pair found for `n / d` describe the same
/// quotient as the definition of [`nearest`].
proof fn lemma_nearest(n: nat, d: nat, k: int, num: nat, den: nat)
    requires
        n > 0,
        d > 0,
        -200 < k < 200,
        (k <= 0 && num == n * pow2((-k) as nat) && den == d) || (k > 0 && num == n && den == d
            * pow2(k as nat)),
        den * 0x10_0000_0000_0000 <= num < den * 0x20_0000_0000_0000,
    ensures
        den > 0,
        nearest(n, d).bits == ((k + 1074) * 0x10_0000_0000_0000 + round_half_even(num, den)) as u64,
{
    broadcast use lemma_pow2_pos;

    let e: int = if k <= 0 { 200 + k } else { 200 };
    let c = pow2(e as nat);
    let big_num = n * pow2(200);
    let big_den = d * pow2((k + 200) as nat);
    if k <= 0 {
        lemma_pow2_adds((-k) as nat, (200 + k) as nat);
        assert(big_num == num * c) by (nonlinear_arith)
            requires
                num == n * pow2((-k) as nat),
                pow2((-k) as nat) * c == pow2(200),
                big_num == n * pow2(200),
        ;
        assert(big_den == den * c);
    } else {
        lemma_pow2_adds(k as nat, 200);
        assert(big_num == num * c);
        assert(big_den == den * c) by (nonlinear_arith)
            requires
                den == d * pow2(k as nat),
                pow2(k as nat) * c == pow2((k + 200) as nat),
                big_den == d * pow2((k + 200) as nat),
        ;
        assert(den > 0) by (nonlinear_arith)
            requires
                den == d * pow2(k as nat),
                d > 0,
                pow2(k as nat) > 0,
        ;
    }
    lemma_round_scaled(num, den, c);
    assert(in_binade(n, d, k)) by {
        lemma2_to64_rest();
        lemma_pow2_adds((k + 200) as nat, 52);
        lemma_pow2_adds((k + 200) as nat, 53);
        assert(pow2(52) == 0x10_0000_0000_0000 && pow2(53) == 0x20_0000_0000_0000);
        assert(d * pow2((k + 252) as nat) == den * 0x10_0000_0000_0000 * c) by (nonlinear_arith)
            requires
                pow2((k + 252) as nat) == pow2((k + 200) as nat) * 0x10_0000_0000_0000,
                big_den == d * pow2((k + 200) as nat),
                big_den == den * c,
        ;
        assert(d * pow2((k + 253) as nat) == den * 0x20_0000_0000_0000 * c) by (nonlinear_arith)
            requires
                pow2((k + 253) as nat) == pow2((k + 200) as nat) * 0x20_0000_0000_0000,
                big_den == d * pow2((k + 200) as nat),
                big_den == den * c,
        ;
        assert(den * 0x10_0000_0000_0000 * c <= num * c) by (nonlinear_arith)
            requires
                den * 0x10_0000_0000_0000 <= num,
        ;
        assert(num * c < den * 0x20_0000_0000_0000 * c) by (nonlinear_arith)
            requires
                num < den * 0x20_0000_0000_0000,
                c > 0,
        ;
    }
    let chosen = choose|j: int| in_binade(n, d, j);
    lemma_binade_unique(n, d, k, chosen);
}

/// The double nearest to the positive quotient `n / d`.
fn nearest_double(n: u64, d: u64) -> (r: Double)
    requires
        n > 0,
        d > 0,
    ensures
        r == nearest(n as nat, d as nat),
        r.bits < SIGN,
{
    let mut num: u128 = n as u128;
    let mut den: u128 = d as u128;
    let mut k: i32 = 0;
    proof {
        lemma2_to64();
        assert(n * pow2(0) == n) by (nonlinear_arith)
            requires
                pow2(0) == 1,
        ;
    }
    while num < den * (0x10_0000_0000_0000u128)
        invariant
            n > 0,
            d > 0,
            -117 <= k <= 0,
            den == d,
            num == n * pow2((-k) as nat),
            num < den * 0x20_0000_0000_0000 || k == 0,
            num <= 0x400000000000000000000000000000,
            num >= pow2((-k) as nat),
        decreases k + 200,
    {
        proof {
            lemma_pow2_unfold((1 - k) as nat);
            lemma_pow2_pos((-k) as nat);
            assert(n * pow2((1 - k) as nat) == 2 * (n * pow2((-k) as nat))) by (nonlinear_arith)
                requires
                    pow2((1 - k) as nat) == 2 * pow2((-k) as nat),
            ;
            if k < -116 {
                lemma2_to64_rest();
                lemma_pow2_adds(64, 52);
                lemma_pow2_adds(58, 58);
                lemma_pow2_strictly_increases(116, (-k) as nat);
            }
        }
        num = num * 2;
        k = k - 1;
    }
    while num >= den * (0x20_0000_0000_0000u128)
        invariant
            n > 0,
            d > 0,
            -117 <= k <= 64,
            den >= 1,
            num <= 0x400000000000000000000000000000,
            (k <= 0 && num == n * pow2((-k) as nat) && den == d) || (k > 0 && num == n && den == d
                * pow2(k as nat)),
            k < 0 ==> num < den * 0x20_0000_0000_0000,
            k > 0 ==> den >= pow2(k as nat),
            den * 0x10_0000_0000_0000 <= num,
        decreases num - den,
    {
        proof {
            lemma2_to64();
            assert(n * pow2(0) == n && d * pow2(0) == d) by (nonlinear_arith)
                requires
                    pow2(0) == 1,
            ;
            lemma_pow2_unfold((k + 1) as nat);
            lemma_pow2_pos(k as nat);
            assert(d * pow2((k + 1) as nat) == 2 * (d * pow2(k as nat))) by (nonlinear_arith)
                requires
                    pow2((k + 1) as nat) == 2 * pow2(k as nat),
            ;
            if k >= 64 {
                lemma2_to64_rest();
                if k > 64 {
                    lemma_pow2_strictly_increases(64, k as nat);
                }
            }
        }
        den = den * 2;
        k = k + 1;
    }
    proof {
        lemma_nearest(n as nat, d as nat, k as int, num as nat, den as nat);
    }
    let q: u128 = num / den;
    let rem: u128 = num % den;
    assert(0x10_0000_0000_0000 <= q < 0x20_0000_0000_0000 && rem < den) by {
        vstd::arithmetic::div_mod::lemma_fundamental_div_mod(num as int, den as int);
        assert(0x10_0000_0000_0000 <= q < 0x20_0000_0000_0000) by (nonlinear_arith)
            requires
                num == den * q + rem,
                0 <= rem < den,
                den * 0x10_0000_0000_0000 <= num < den * 0x20_0000_0000_0000,
        ;
    }
    let rounded: u128 = if 2 * rem > den || (2 * rem == den && q % 2 == 1) {
        q + 1
    } else {
        q
    };
    assert(rounded == round_half_even(num as nat, den as nat));
    let exponent: u64 = (k + 1074) as u64;
    Double { bits: exponent * 0x10_0000_0000_0000 + rounded as u64 }
}

impl Double {
    /// The double nearest to `n / d`, ties to even.
    pub fn of_ratio(n: i64, d: u64) -> (r: Double)
        requires
            d > 0,
        ensures
            r == double_of_ratio(n as int, d as nat),
    {
        if n == 0 {
            Double { bits: ZERO }
        } else if n > 0 {
            nearest_double(n as u64, d)
        } else {
            let magnitude: u64 = (-(n as i128)) as u64;
            Double { bits: nearest_double(magnitude, d).bits + SIGN }
        }
    }

    /// The double nearest to `i`, ties to even.
    pub fn of_int(i: i64) -> (r: Double)
        ensures
            r == double_of_int(i as int),
    {
        Self::of_ratio(i, 1)
    }

    /// Whether this is a zero of either sign.
    pub fn is_zero(self) -> (r: bool)
        ensures
            r == self.zero(),
    {
        self.bits == ZERO || self.bits == SIGN
    }

    /// Whether this compares less than or equal to zero. A NaN does not.
    pub fn at_most_zero(self) -> (r: bool)
        ensures
            r == self.nonpositive(),
    {
        !self.is_nan() && (self.is_zero() || self.bits >= SIGN)
    }

    /// Whether this double is less than another one.
    pub fn is_below(self, other: Double) -> (r: bool)
        ensures
            r == self.below(other),
    {
        if self.is_nan() || other.is_nan() {
            return false;
        }
        let a: i64 = self.place();
        let b: i64 = other.place();
        a < b
    }

    /// Whether this double is at most another one.
    pub fn is_at_most(self, other: Double) -> (r: bool)
        ensures
            r == self.at_most(other),
    {
        if self.is_nan() || other.is_nan() {
            return false;
        }
        let a: i64 = self.place();
        let b: i64 = other.place();
        a <= b
    }

    /// Whether this is a finite number above zero.
    pub fn is_usable(self) -> (r: bool)
        ensures
            r == self.usable(),
    {
        self.is_finite() && !self.at_most_zero()
    }

    /// The lesser of two doubles.
    pub fn min(self, other: Double) -> (r: Double)
        ensures
            r == self.lesser(other),
    {
        if other.is_below(self) {
            other
        } else {
            self
        }
    }

    /// The greater of two doubles.
    pub fn max(self, other: Double) -> (r: Double)
        ensures
            r == self.greater(other),
    {
        if self.is_below(other) {
            other
        } else {
            self
        }
    }

    /// The place of a double that is no NaN.
    fn place(self) -> (r: i64)
        requires
            !self.nan(),
        ensures
            r == self.rank(),
    {
        if self.bits >= SIGN {
            -((self.bits - SIGN) as i64)
        } else {
            self.bits as i64
        }
    }

    /// Whether this is not a number.
    pub fn is_nan(self) -> (r: bool)
        ensures
            r == self.nan(),
    {
        (self.bits % SIGN) / FRACTION == 2047 && self.bits % FRACTION != 0
    }

    /// Whether this is neither an infinity nor a NaN.
    pub fn is_finite(self) -> (r: bool)
        ensures
            r == self.finite(),
    {
        (self.bits % SIGN) / FRACTION != 2047
    }

    /// The significand and the scale of a finite double.
    fn parts(self) -> (r: (u64, i32))
        requires
            self.finite(),
        ensures
            r.0 == self.significand(),
            r.1 == self.scale(),
            r.0 < 2 * FRACTION,
            r.1 >= 0 ==> r.0 >= FRACTION,
            -1074 <= r.1 <= 971,
    {
        let exponent: u64 = (self.bits % SIGN) / FRACTION;
        let fraction: u64 = self.bits % FRACTION;
        if exponent == 0 {
            (fraction, -1074)
        } else {
            (fraction + FRACTION, exponent as i32 - 1075)
        }
    }

    /// The magnitude rounded down, or `2^64` when it is at least that.
    fn floor_capped(self) -> (r: u128)
        requires
            self.finite(),
        ensures
            r <= 0x1_0000_0000_0000_0000,
            r < 0x1_0000_0000_0000_0000 ==> r == self.floor_magnitude(),
            r == 0x1_0000_0000_0000_0000 ==> self.floor_magnitude() >= r,
    {
        let (significand, scale) = self.parts();
        if scale >= 0 {
            return Self::scaled_capped(significand, scale as u32);
        }
        let k: u32 = (-scale) as u32;
        proof {
            lemma_pow2_pos(k as nat);
        }
        if k >= 64 {
            proof {
                lemma_small_quotient(significand as nat, k as nat);
            }
            return 0;
        }
        let p: u128 = power_of_two(k);
        proof {
            assert(significand as nat / pow2(k as nat) <= significand) by (nonlinear_arith)
                requires
                    pow2(k as nat) >= 1,
            ;
        }
        significand as u128 / p
    }

    /// `significand * 2^scale`, or `2^64` when it is at least that.
    fn scaled_capped(significand: u64, scale: u32) -> (r: u128)
        requires
            FRACTION <= significand < 2 * FRACTION,
        ensures
            r <= 0x1_0000_0000_0000_0000,
            r < 0x1_0000_0000_0000_0000 ==> r == significand * pow2(scale as nat),
            r == 0x1_0000_0000_0000_0000 ==> significand * pow2(scale as nat) >= r,
    {
        proof {
            lemma2_to64();
        }
        if scale >= 12 {
            proof {
                if scale > 12 {
                    lemma_pow2_strictly_increases(12, scale as nat);
                }
                assert(significand * pow2(scale as nat) >= 0x10_0000_0000_0000 * 4096)
                    by (nonlinear_arith)
                    requires
                        significand >= 0x10_0000_0000_0000,
                        pow2(scale as nat) >= 4096,
                ;
            }
            0x1_0000_0000_0000_0000
        } else {
            let p: u128 = power_of_two(scale);
            proof {
                if scale < 11 {
                    lemma_pow2_strictly_increases(scale as nat, 11);
                }
                lemma_pow2_pos(scale as nat);
                assert(0 <= significand * p < 0x20_0000_0000_0000 * 2048) by (nonlinear_arith)
                    requires
                        0 <= significand < 0x20_0000_0000_0000,
                        1 <= p <= 2048,
                ;
            }
            significand as u128 * p
        }
    }

    /// The value truncated toward zero and saturated into an `i64`.
    pub fn to_i64(self) -> (r: i64)
        ensures
            r == self.truncated(i64::MIN as int, i64::MAX as int),
    {
        if self.is_nan() {
            return 0;
        }
        let negative: bool = self.bits >= SIGN;
        if !self.is_finite() {
            return if negative { i64::MIN } else { i64::MAX };
        }
        let m: u128 = self.floor_capped();
        if negative {
            if m >= 0x8000_0000_0000_0000 {
                i64::MIN
            } else {
                -(m as i64)
            }
        } else if m > 0x7FFF_FFFF_FFFF_FFFF {
            i64::MAX
        } else {
            m as i64
        }
    }

    /// The value truncated toward zero and saturated into an `i32`.
    pub fn to_i32(self) -> (r: i32)
        ensures
            r == self.truncated(i32::MIN as int, i32::MAX as int),
    {
        let wide: i64 = self.to_i64();
        if wide < i32::MIN as i64 {
            i32::MIN
        } else if wide > i32::MAX as i64 {
            i32::MAX
        } else {
            wide as i32
        }
    }

    /// The value rounded to the nearest integer, halves away from zero,
    /// and brought into `lo..=hi`.
    pub fn rounded_into(self, lo: i32, hi: i32) -> (r: i32)
        requires
            self.finite(),
            lo <= hi,
        ensures
            r == clamped(self.signed(self.round_magnitude()), lo as int, hi as int),
    {
        let (significand, scale) = self.parts();
        let m: u128 = if scale >= 0 {
            Self::scaled_capped(significand, scale as u32)
        } else {
            let k: u32 = (-scale) as u32;
            proof {
                lemma_pow2_pos(k as nat);
                lemma_pow2_unfold(k as nat);
                lemma_pow2_pos((k - 1) as nat);
            }
            if k >= 64 {
                proof {
                    lemma_small_rounding(significand as nat, k as nat);
                }
                0
            } else {
                let half: u128 = power_of_two(k - 1);
                proof {
                    lemma_below_2_127((k - 1) as nat);
                    lemma2_to64_rest();
                    if k - 1 < 63 {
                        lemma_pow2_strictly_increases(
                            (k - 1) as nat,
                            63,
                        );
                    }
                    let total = significand as nat + half as nat;
                    assert(total / pow2(k as nat) <= total) by (nonlinear_arith)
                        requires
                            pow2(k as nat) >= 1,
                    ;
                }
                (significand as u128 + half) / (2 * half)
            }
        };
        let negative: bool = self.bits >= SIGN;
        let value: i128 = if negative { -(m as i128) } else { m as i128 };
        if value < lo as i128 {
            lo
        } else if value > hi as i128 {
            hi
        } else {
            value as i32
        }
    }
}

/// A significand divided by a larger power of two is zero.
proof fn lemma_small_quotient(significand: nat, k: nat)
    requires
        significand < 2 * FRACTION,
        k >= 64,
    ensures
        significand / pow2(k) == 0,
{
    lemma2_to64_rest();
    if k > 64 {
        lemma_pow2_strictly_increases(64, k);
    }
    vstd::arithmetic::div_mod::lemma_basic_div(significand as int, pow2(k) as int);
}

/// A magnitude below one half rounds to zero.
proof fn lemma_small_rounding(significand: nat, k: nat)
    requires
        significand < 2 * FRACTION,
        k >= 64,
    ensures
        (significand + pow2((k - 1) as nat)) / pow2(k) == 0,
{
    lemma2_to64_rest();
    lemma_pow2_unfold(k);
    if k > 64 {
        lemma_pow2_strictly_increases(63, (k - 1) as nat);
    }
    vstd::arithmetic::div_mod::lemma_basic_div(
        (significand + pow2((k - 1) as nat)) as int,
        pow2(k) as int,
    );
}

/// The shift that brings a small integer to a full significand.
proof fn lemma_normal_shift(n: nat) -> (j: nat)
    requires
        1 <= n < 0x20_0000_0000_0000,
    ensures
        j <= 52,
        0x10_0000_0000_0000 <= n * pow2(j) < 0x20_0000_0000_0000,
    decreases 0x20_0000_0000_0000 - n,
{
    lemma2_to64();
    lemma2_to64_rest();
    if n >= 0x10_0000_0000_0000 {
        assert(n * pow2(0) == n) by (nonlinear_arith)
            requires
                pow2(0) == 1,
        ;
        0
    } else {
        let i = lemma_normal_shift(2 * n);
        lemma_pow2_unfold(i + 1);
        assert(n * pow2(i + 1) == (2 * n) * pow2(i)) by (nonlinear_arith)
            requires
                pow2(i + 1) == 2 * pow2(i),
        ;
        assert(pow2(i + 1) <= n * pow2(i + 1)) by (nonlinear_arith)
            requires
                n >= 1,
        ;
        if i + 1 > 53 {
            lemma_pow2_strictly_increases(53, i + 1);
        }
        i + 1
    }
}

/// The bit pattern of a small positive integer decodes to that integer.
proof fn lemma_small_positive(n: nat)
    requires
        1 <= n < 0x20_0000_0000_0000,
    ensures
        nearest(n, 1).bits < SIGN,
        nearest(n, 1).finite(),
        nearest(n, 1).floor_magnitude() == n,
{
    let j = lemma_normal_shift(n);
    let q = n * pow2(j);
    lemma_pow2_pos(j);
    lemma_nearest(n, 1, -(j as int), q, 1);
    let r = nearest(n, 1);
    let e: int = 1075 - j;
    assert(r.bits == e * 0x10_0000_0000_0000 + (q - 0x10_0000_0000_0000));
    assert(r.exponent() == e && r.fraction() == q - 0x10_0000_0000_0000);
    assert(r.significand() == q && r.scale() == -(j as int));
    if j == 0 {
        lemma2_to64();
        assert(n * pow2(0) == n && q * pow2(0) == q) by (nonlinear_arith)
            requires
                pow2(0) == 1,
        ;
    } else {
        vstd::arithmetic::div_mod::lemma_div_by_multiple(n as int, pow2(j) as int);
    }
}

/// Converting an integer of magnitude below `2^53` to a double and
/// truncating it gives the integer back.
pub proof fn law_small_integers_survive(i: int)
    requires
        -0x20_0000_0000_0000 < i < 0x20_0000_0000_0000,
    ensures
        double_of_int(i).truncated(i64::MIN as int, i64::MAX as int) == i,
        double_of_int(i).zero() <==> i == 0,
{
    if i > 0 {
        lemma_small_positive(i as nat);
        lemma_positive_not_zero(i as nat);
    } else if i < 0 {
        let n = (-i) as nat;
        lemma_small_positive(n);
        lemma_positive_not_zero(n);
        let p = nearest(n, 1);
        let r = double_of_int(i);
        assert(r.exponent() == p.exponent() && r.fraction() == p.fraction() && r.negative());
    } else {
        let z = Double { bits: ZERO };
        assert(z.exponent() == 0 && z.fraction() == 0);
        lemma_pow2_pos(1074);
        vstd::arithmetic::div_mod::lemma_basic_div(0, pow2(1074) as int);
    }
}

proof fn lemma_positive_not_zero(n: nat)
    requires
        1 <= n < 0x20_0000_0000_0000,
    ensures
        nearest(n, 1).bits != 0,
        nearest(n, 1).bits < SIGN,
{
    let j = lemma_normal_shift(n);
    lemma_nearest(n, 1, -(j as int), n * pow2(j), 1);
}

/// The bit pattern of a small positive integer, by the shift that brings it
/// to a full significand.
proof fn lemma_small_bits(n: nat) -> (j: nat)
    requires
        1 <= n < 0x20_0000_0000_0000,
    ensures
        j <= 52,
        0x10_0000_0000_0000 <= n * pow2(j) < 0x20_0000_0000_0000,
        nearest(n, 1).bits == (1074 - j) * 0x10_0000_0000_0000 + n * pow2(j),
{
    let j = lemma_normal_shift(n);
    lemma_pow2_pos(j);
    lemma_nearest(n, 1, -(j as int), n * pow2(j), 1);
    j
}

/// Larger small integers have larger bit patterns.
proof fn lemma_small_bits_increase(n: nat, m: nat)
    requires
        1 <= n < m < 0x20_0000_0000_0000,
    ensures
        nearest(n, 1).bits < nearest(m, 1).bits < SIGN,
{
    let j = lemma_small_bits(n);
    let i = lemma_small_bits(m);
    let (x, y) = (n * pow2(j), m * pow2(i));
    if i > j {
        lemma_pow2_unfold((j + 1) as nat);
        if i > j + 1 {
            lemma_pow2_strictly_increases((j + 1) as nat, i);
        }
        assert(y >= 2 * x) by (nonlinear_arith)
            requires
                y == m * pow2(i),
                x == n * pow2(j),
                pow2(i) >= 2 * pow2(j),
                n < m,
                pow2(j) >= 0,
        ;
    }
    if i == j {
        lemma_pow2_pos(j);
        assert(x < y) by (nonlinear_arith)
            requires
                y == m * pow2(j),
                x == n * pow2(j),
                n < m,
                pow2(j) > 0,
        ;
    }
}

/// The doubles of integers of magnitude below `2^53` are ordered as the
/// integers are: comparing, and taking the lesser or the greater of two,
/// does with the doubles what it does with the integers.
pub proof fn law_integers_keep_their_order(a: int, b: int)
    requires
        -0x20_0000_0000_0000 < a < 0x20_0000_0000_0000,
        -0x20_0000_0000_0000 < b < 0x20_0000_0000_0000,
    ensures
        double_of_int(a).finite(),
        forall|r: bool| #[trigger]
            call_ensures(Double::is_below, (double_of_int(a), double_of_int(b)), r) ==> r == (a
                < b),
        forall|r: bool| #[trigger]
            call_ensures(Double::is_at_most, (double_of_int(a), double_of_int(b)), r) ==> r == (a
                <= b),
        forall|r: Double| #[trigger]
            call_ensures(Double::min, (double_of_int(a), double_of_int(b)), r) ==> r
                == double_of_int(if a < b {
                a
            } else {
                b
            }),
        forall|r: Double| #[trigger]
            call_ensures(Double::max, (double_of_int(a), double_of_int(b)), r) ==> r
                == double_of_int(if a < b {
                b
            } else {
                a
            }),
        double_of_int(a).below(double_of_int(b)) == (a < b),
        double_of_int(a).at_most(double_of_int(b)) == (a <= b),
{
    lemma_int_rank(a);
    lemma_int_rank(b);
    lemma_int_ranks(a, b);
    lemma_int_ranks(b, a);
}

/// The double of a small integer is a number, with the sign of the integer.
proof fn lemma_int_rank(a: int)
    requires
        -0x20_0000_0000_0000 < a < 0x20_0000_0000_0000,
    ensures
        double_of_int(a).finite(),
        !double_of_int(a).nan(),
        a == 0 ==> double_of_int(a).rank() == 0,
        a > 0 ==> double_of_int(a).rank() == nearest(a as nat, 1).bits && double_of_int(a).rank()
            > 0,
        a < 0 ==> double_of_int(a).rank() == -(nearest((-a) as nat, 1).bits as int)
            && double_of_int(a).rank() < 0,
{
    if a > 0 {
        lemma_small_positive(a as nat);
        lemma_positive_not_zero(a as nat);
    } else if a < 0 {
        let n = (-a) as nat;
        lemma_small_positive(n);
        lemma_positive_not_zero(n);
        let p = nearest(n, 1);
        let r = double_of_int(a);
        assert(r.exponent() == p.exponent() && r.negative());
    }
}

proof fn lemma_int_ranks(a: int, b: int)
    requires
        -0x20_0000_0000_0000 < a < 0x20_0000_0000_0000,
        -0x20_0000_0000_0000 < b < 0x20_0000_0000_0000,
    ensures
        a < b ==> double_of_int(a).rank() < double_of_int(b).rank(),
{
    lemma_int_rank(a);
    lemma_int_rank(b);
    if 0 < a < b {
        lemma_small_bits_increase(a as nat, b as nat);
    } else if a < b < 0 {
        lemma_small_bits_increase((-b) as nat, (-a) as nat);
    }
}

/// The half of a small odd number.
proof fn lemma_half(n: nat)
    requires
        1 <= n < 0x20_0000_0000_0000,
        n % 2 == 1,
    ensures
        nearest(n, 2).bits < SIGN,
        nearest(n, 2).finite(),
        nearest(n, 2).floor_magnitude() == (n - 1) / 2,
        nearest(n, 2).round_magnitude() == (n + 1) / 2,
{
    let j = lemma_normal_shift(n);
    let q = n * pow2(j);
    lemma_pow2_pos(j);
    lemma_pow2_unfold((j + 1) as nat);
    assert(n * pow2((j + 1) as nat) == 2 * q) by (nonlinear_arith)
        requires
            q == n * pow2(j),
            pow2((j + 1) as nat) == 2 * pow2(j),
    ;
    lemma_nearest(n, 2, -(j as int) - 1, 2 * q, 2);
    let r = nearest(n, 2);
    assert(round_half_even(2 * q, 2) == q);
    let e: int = 1074 - j;
    assert(r.bits == e * 0x10_0000_0000_0000 + (q - 0x10_0000_0000_0000));
    assert(r.exponent() == e && r.fraction() == q - 0x10_0000_0000_0000);
    assert(r.significand() == q && r.scale() == -(j as int) - 1);
    let k = n / 2;
    assert(q == k * pow2((j + 1) as nat) + pow2(j)) by (nonlinear_arith)
        requires
            q == n * pow2(j),
            n == 2 * k + 1,
            pow2((j + 1) as nat) == 2 * pow2(j),
    ;
    assert(q + pow2(j) == (k + 1) * pow2((j + 1) as nat) + 0) by (nonlinear_arith)
        requires
            q == k * pow2((j + 1) as nat) + pow2(j),
            pow2((j + 1) as nat) == 2 * pow2(j),
    ;
    vstd::arithmetic::div_mod::lemma_fundamental_div_mod_converse(
        q as int,
        pow2((j + 1) as nat) as int,
        k as int,
        pow2(j) as int,
    );
    vstd::arithmetic::div_mod::lemma_fundamental_div_mod_converse(
        (q + pow2(j)) as int,
        pow2((j + 1) as nat) as int,
        (k + 1) as int,
        0,
    );
}

/// A small positive integer rounds to itself.
proof fn lemma_small_rounds(n: nat)
    requires
        1 <= n < 0x20_0000_0000_0000,
    ensures
        nearest(n, 1).round_magnitude() == n,
{
    let j = lemma_small_bits(n);
    let q = n * pow2(j);
    let r = nearest(n, 1);
    lemma_small_positive(n);
    let e: int = 1075 - j;
    assert(r.bits == e * 0x10_0000_0000_0000 + (q - 0x10_0000_0000_0000));
    assert(r.exponent() == e && r.fraction() == q - 0x10_0000_0000_0000);
    assert(r.significand() == q && r.scale() == -(j as int));
    if j > 0 {
        lemma_pow2_pos(j);
        lemma_pow2_unfold(j);
        vstd::arithmetic::div_mod::lemma_fundamental_div_mod_converse(
            (q + pow2((j - 1) as nat)) as int,
            pow2(j) as int,
            n as int,
            pow2((j - 1) as nat) as int,
        );
    }
}

/// An integer rounds to itself.
pub proof fn lemma_integers_round(i: int)
    requires
        -0x10_0000_0000_0000 < i < 0x10_0000_0000_0000,
    ensures
        double_of_int(i).finite(),
        double_of_int(i).signed(double_of_int(i).round_magnitude()) == i,
{
    lemma_int_rank(i);
    if i > 0 {
        lemma_small_rounds(i as nat);
        lemma_small_positive(i as nat);
    } else if i < 0 {
        let n = (-i) as nat;
        lemma_small_rounds(n);
        lemma_small_positive(n);
        let (p, d) = (nearest(n, 1), double_of_int(i));
        assert(d.exponent() == p.exponent() && d.fraction() == p.fraction() && d.negative());
    } else {
        let z = Double { bits: ZERO };
        assert(z.exponent() == 0 && z.fraction() == 0);
        lemma_pow2_pos(1073);
        lemma_pow2_unfold(1074);
        vstd::arithmetic::div_mod::lemma_basic_div(pow2(1073) as int, pow2(1074) as int);
    }
}

/// The double of one.
pub proof fn lemma_one()
    ensures
        double_of_int(1) == (Double { bits: ONE }),
{
    let j = lemma_small_bits(1);
    vstd::arithmetic::power2::lemma2_to64_rest();
    if j < 52 {
        vstd::arithmetic::power2::lemma_pow2_strictly_increases(j, 52);
    }
}

/// Rounding a double gives the whole number it is, or the one next to it:
/// an integer rounds to itself, and a half to the integer behind it, away
/// from zero. What is outside the range becomes the nearer end of it.
pub proof fn law_halves_round_away_from_zero(i: int, lo: i32, hi: i32, r: i32)
    requires
        -0x10_0000_0000_0000 < i < 0x10_0000_0000_0000,
        lo <= hi,
    ensures
        call_ensures(Double::rounded_into, (double_of_int(i), lo, hi), r) ==> (lo <= i <= hi ==> r
            == i) && (i < lo ==> r == lo) && (i > hi ==> r == hi),
        i >= 0 && lo <= i + 1 <= hi && call_ensures(
            Double::rounded_into,
            (double_of_ratio(2 * i + 1, 2), lo, hi),
            r,
        ) ==> r == i + 1,
        i >= 0 && lo <= -(i + 1) <= hi && call_ensures(
            Double::rounded_into,
            (double_of_ratio(-(2 * i + 1), 2), lo, hi),
            r,
        ) ==> r == -(i + 1),
        double_of_int(i).finite(),
{
    lemma_integers_round(i);
    if i >= 0 {
        let n = (2 * i + 1) as nat;
        lemma_half(n);
        let (p, d) = (nearest(n, 2), double_of_ratio(-(2 * i + 1), 2));
        assert(d.exponent() == p.exponent() && d.fraction() == p.fraction() && d.negative());
    }
}

/// Truncating a double drops what is behind the point, toward zero.
pub proof fn law_halves_truncate_toward_zero(i: int, wide: i64, narrow: i32)
    requires
        0 <= i < i32::MAX,
    ensures
        call_ensures(Double::to_i64, (double_of_ratio(2 * i + 1, 2),), wide) ==> wide == i,
        call_ensures(Double::to_i64, (double_of_ratio(-(2 * i + 1), 2),), wide) ==> wide == -i,
        call_ensures(Double::to_i32, (double_of_ratio(2 * i + 1, 2),), narrow) ==> narrow == i,
        call_ensures(Double::to_i32, (double_of_ratio(-(2 * i + 1), 2),), narrow) ==> narrow == -i,
        call_ensures(Double::to_i32, (double_of_int(i),), narrow) ==> narrow == i,
        call_ensures(Double::to_i32, (double_of_int(-i),), narrow) ==> narrow == -i,
{
    let n = (2 * i + 1) as nat;
    lemma_half(n);
    let (p, d) = (nearest(n, 2), double_of_ratio(-(2 * i + 1), 2));
    assert(d.exponent() == p.exponent() && d.fraction() == p.fraction() && d.negative());
    law_small_integers_survive(i);
    law_small_integers_survive(-i);
    lemma_int_rank(i);
    lemma_int_rank(-i);
}

/// A quotient that is a whole number of magnitude below `2^53` becomes the
/// double of that number, whatever the divisor.
pub proof fn law_whole_quotients_are_integers(n: i64, d: u64, c: int, r: Double)
    requires
        d > 0,
        n == c * d,
        -0x20_0000_0000_0000 < c < 0x20_0000_0000_0000,
        call_ensures(Double::of_ratio, (n, d), r),
    ensures
        r == double_of_int(c),
        r.truncated(i64::MIN as int, i64::MAX as int) == c,
{
    law_small_integers_survive(c);
    let m = if c < 0 {
        -c
    } else {
        c
    };
    assert((n > 0) == (c > 0) && (n < 0) == (c < 0)) by (nonlinear_arith)
        requires
            n == c * d,
            d > 0,
    ;
    assert((-c) * d == -(c * d)) by (nonlinear_arith);
    if c != 0 {
        lemma_whole_quotient(m as nat, d as nat);
    }
}

/// A quotient that is whole is the integer.
proof fn lemma_whole_quotient(c: nat, d: nat)
    requires
        1 <= c < 0x20_0000_0000_0000,
        d > 0,
    ensures
        nearest((c * d) as nat, d) == nearest(c, 1),
{
    let n = (c * d) as nat;
    assert forall|k: int| in_binade(n, d, k) == in_binade(c, 1, k) by {
        if -200 <= k {
            let (lo, hi, p) = (pow2((k + 252) as nat), pow2((k + 253) as nat), pow2(200));
            assert((d * lo <= n * p) == (1 * lo <= c * p)) by (nonlinear_arith)
                requires
                    n == c * d,
                    d > 0,
            ;
            assert((n * p < d * hi) == (c * p < 1 * hi)) by (nonlinear_arith)
                requires
                    n == c * d,
                    d > 0,
            ;
        }
    }
    assert((|k: int| in_binade(n, d, k)) =~= (|k: int| in_binade(c, 1, k)));
    let j = lemma_small_bits(c);
    lemma_pow2_pos(j);
    lemma_nearest(c, 1, -(j as int), c * pow2(j), 1);
    let q = c * pow2(j);
    assert(n * pow2(j) == q * d) by (nonlinear_arith)
        requires
            n == c * d,
            q == c * pow2(j),
    ;
    assert(d * 0x10_0000_0000_0000 <= q * d < d * 0x20_0000_0000_0000) by (nonlinear_arith)
        requires
            0x10_0000_0000_0000 <= q < 0x20_0000_0000_0000,
            d > 0,
    ;
    assert(n > 0) by (nonlinear_arith)
        requires
            n == c * d,
            c >= 1,
            d > 0,
    ;
    lemma_nearest(n, d, -(j as int), (q * d) as nat, d);
    lemma_round_scaled(q, 1, d);
    assert(1 * d == d && q * d == q * d);
}

/// A double can be used as a size exactly when its bits are those of a
/// finite number above zero: no sign, not all zero, and below infinity.
pub proof fn law_usable_doubles_are_positive(d: Double, r: bool)
    requires
        call_ensures(Double::is_usable, (d,), r),
    ensures
        r == (0 < d.bits < 0x7FF0_0000_0000_0000),
{
}

/// The nearest integer to a quotient, the even one of two.
proof fn lemma_rounds_to(num: nat, den: nat, q: nat)
    requires
        den > 0,
        2 * (num - q * den) <= den,
        2 * (q * den - num) <= den,
        2 * (num - q * den) == den || 2 * (q * den - num) == den ==> q % 2 == 0,
    ensures
        round_half_even(num, den) == q,
{
    let (p, rem) = (num as int / den as int, num as int % den as int);
    vstd::arithmetic::div_mod::lemma_fundamental_div_mod(num as int, den as int);
    assert(num == p * den + rem) by (nonlinear_arith)
        requires
            num == den * p + rem,
    ;
    assert(p >= 0) by (nonlinear_arith)
        requires
            num == p * den + rem,
            rem < den,
            num >= 0,
            den > 0,
    ;
    if q >= p + 2 {
        assert(q * den >= p * den + 2 * den) by (nonlinear_arith)
            requires
                q >= p + 2,
                den > 0,
        ;
    } else if q <= p - 1 {
        assert(q * den <= p * den - den) by (nonlinear_arith)
            requires
                q <= p - 1,
                den > 0,
        ;
    } else if q == p + 1 {
        assert(q * den == p * den + den) by (nonlinear_arith)
            requires
                q == p + 1,
        ;
    } else {
        assert(q * den == p * den) by (nonlinear_arith)
            requires
                q == p,
        ;
    }
}

/// A quotient becomes the double nearest to it. Where it lies between
/// `2^(k + 52)` and twice that, doubles are the multiples of `2^k` there:
/// the quotient becomes the `q`-th of them that is at most half a step away,
/// the even one where two are. A negative quotient has the bits of the
/// positive one and the sign.
pub proof fn law_quotients_become_the_nearest_double(
    n: i64,
    d: u64,
    k: int,
    q: nat,
    r: Double,
    negated: Double,
)
    requires
        n > 0,
        d > 0,
        -200 <= k <= 200,
        d * pow2((k + 252) as nat) <= n * pow2(200) < d * pow2((k + 253) as nat),
        ({
            let (num, den) = (n * pow2(200), d * pow2((k + 200) as nat));
            &&& 2 * (num - q * den) <= den
            &&& 2 * (q * den - num) <= den
            &&& 2 * (num - q * den) == den || 2 * (q * den - num) == den ==> q % 2 == 0
        }),
        call_ensures(Double::of_ratio, (n, d), r),
        call_ensures(Double::of_ratio, ((-n) as i64, d), negated),
    ensures
        r.bits == (k + 1074) * 0x10_0000_0000_0000 + q,
        negated.bits == r.bits + 0x8000_0000_0000_0000,
{
    let (m, e) = (n as nat, d as nat);
    let (num, den) = (m * pow2(200), e * pow2((k + 200) as nat));
    lemma_pow2_pos(200);
    lemma_pow2_pos((k + 200) as nat);
    assert(den > 0) by (nonlinear_arith)
        requires
            e > 0,
            pow2((k + 200) as nat) > 0,
            den == e * pow2((k + 200) as nat),
    ;
    let top = e * pow2((k + 253) as nat);
    vstd::arithmetic::power2::lemma_pow2_adds((k + 200) as nat, 53);
    vstd::arithmetic::power2::lemma2_to64_rest();
    assert(top == den * 0x20_0000_0000_0000) by (nonlinear_arith)
        requires
            top == e * pow2((k + 253) as nat),
            den == e * pow2((k + 200) as nat),
            pow2((k + 253) as nat) == pow2((k + 200) as nat) * 0x20_0000_0000_0000,
    ;
    assert(q <= 0x20_0000_0000_0000) by (nonlinear_arith)
        requires
            2 * (q * den - num) <= den,
            num < den * 0x20_0000_0000_0000,
            den > 0,
    ;
    assert(in_binade(m, e, k));
    let chosen = choose|j: int| in_binade(m, e, j);
    lemma_binade_unique(m, e, k, chosen);
    lemma_rounds_to(num, den, q);
}

/// A double of a full significand between one half and `2^53` is that many
/// parts of `2^s`. It truncates to the whole number at most that large, and
/// rounds to the one at most half a whole away, the larger one of two. One
/// with the sign becomes the negative of that number.
pub proof fn law_doubles_round_to_the_nearest_whole(
    v: Double,
    negated: Double,
    s: nat,
    m: int,
    lo: i32,
    hi: i32,
    whole: i64,
    near: i32,
    less: i64,
    far: i32,
)
    requires
        v.bits < 0x8000_0000_0000_0000,
        negated.bits == v.bits + 0x8000_0000_0000_0000,
        v.bits as int / 0x10_0000_0000_0000 == 1075 - s,
        1 <= s <= 53,
        call_ensures(Double::to_i64, (v,), whole),
        call_ensures(Double::to_i64, (negated,), less),
        call_ensures(Double::rounded_into, (v, lo, hi), near),
        call_ensures(Double::rounded_into, (negated, lo, hi), far),
        lo <= m <= hi,
        lo <= -m <= hi,
        0 <= m,
    ensures
        ({
            let parts = 0x10_0000_0000_0000 + v.bits as int % 0x10_0000_0000_0000;
            &&& m * pow2(s) <= parts < (m + 1) * pow2(s) ==> whole == m && less == -m
            &&& 2 * (m * pow2(s) - parts) <= pow2(s) && 2 * (parts - m * pow2(s)) < pow2(s) ==> near
                == m && far == -m
        }),
{
    let parts = 0x10_0000_0000_0000 + v.bits as int % 0x10_0000_0000_0000;
    let p = pow2(s) as int;
    lemma_pow2_pos(s);
    lemma_pow2_unfold(s);
    let half = pow2((s - 1) as nat) as int;
    assert(p == 2 * half);
    assert(v.exponent() == 1075 - s && v.fraction() == parts - 0x10_0000_0000_0000);
    assert(negated.exponent() == v.exponent() && negated.fraction() == v.fraction());
    assert(negated.negative() && !v.negative());
    assert(v.significand() == parts && v.scale() == -(s as int));
    assert(negated.significand() == parts && negated.scale() == -(s as int));
    if m * p <= parts < (m + 1) * p {
        assert(parts - m * p < p) by (nonlinear_arith)
            requires
                parts < (m + 1) * p,
        ;
        vstd::arithmetic::div_mod::lemma_fundamental_div_mod_converse(parts, p, m, parts - m * p);
    }
    if 2 * (m * p - parts) <= p && 2 * (parts - m * p) < p {
        vstd::arithmetic::div_mod::lemma_fundamental_div_mod_converse(
            parts + half,
            p,
            m,
            parts + half - m * p,
        );
    }
}

/// An infinite double converts to the end of the range that it lies beyond,
/// and what is no number to zero.
pub proof fn law_doubles_without_a_whole_saturate(v: Double, wide: i64, narrow: i32)
    requires
        call_ensures(Double::to_i64, (v,), wide),
        call_ensures(Double::to_i32, (v,), narrow),
    ensures
        v.bits == 0x7FF0_0000_0000_0000 ==> wide == i64::MAX && narrow == i32::MAX,
        v.bits == 0xFFF0_0000_0000_0000 ==> wide == i64::MIN && narrow == i32::MIN,
        0x7FF0_0000_0000_0000 < v.bits < 0x8000_0000_0000_0000 || 0xFFF0_0000_0000_0000 < v.bits
            ==> wide == 0 && narrow == 0,
{
}

/// Zero has two bit patterns; what is not above it has one of them, or the
/// sign and a number.
pub proof fn law_signs_and_zeros_are_told_by_the_bits(
    v: Double,
    zero: bool,
    low: bool,
    finite: bool,
    nan: bool,
)
    requires
        call_ensures(Double::is_zero, (v,), zero),
        call_ensures(Double::at_most_zero, (v,), low),
        call_ensures(Double::is_finite, (v,), finite),
        call_ensures(Double::is_nan, (v,), nan),
    ensures
        zero <==> v.bits == 0 || v.bits == 0x8000_0000_0000_0000,
        low <==> v.bits == 0 || 0x8000_0000_0000_0000 <= v.bits <= 0xFFF0_0000_0000_0000,
        finite <==> v.bits < 0x7FF0_0000_0000_0000 || 0x8000_0000_0000_0000 <= v.bits
            < 0xFFF0_0000_0000_0000,
        nan <==> 0x7FF0_0000_0000_0000 < v.bits < 0x8000_0000_0000_0000 || 0xFFF0_0000_0000_0000
            < v.bits,
{
}

} // verus!
