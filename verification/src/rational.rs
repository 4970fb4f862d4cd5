//! Times and time ranges.

use vstd::prelude::*;

use crate::double;
use crate::double::Double;

verus! {

/// The greatest common divisor, by Euclid's recursion.
pub open spec fn gcd(a: nat, b: nat) -> nat
    decreases b,
{
    if b == 0 {
        a
    } else {
        gcd(b, a % b)
    }
}

/// The divisor of a positive number is positive and no larger.
proof fn lemma_gcd_bounds(a: nat, b: nat)
    requires
        b > 0,
    ensures
        1 <= gcd(a, b) <= b,
    decreases b,
{
    if a % b == 0 {
        assert(gcd(b, 0) == b);
    } else {
        lemma_gcd_bounds(b, a % b);
    }
}

/// An exact time in seconds: a fraction with its common factors divided
/// out.
#[derive(Clone, Copy, PartialEq, Eq, Structural, Hash, Debug)]
pub struct Rational {
    numer: i64,
    denom: u64,
}

/// The magnitude of `n`.
pub open spec fn magnitude(n: int) -> nat {
    if n < 0 {
        (-n) as nat
    } else {
        n as nat
    }
}

impl Rational {
    #[verifier::type_invariant]
    spec fn valid(self) -> bool {
        self.denom > 0
    }

    /// The numerator.
    pub closed spec fn spec_numer(self) -> i64 {
        self.numer
    }

    /// The denominator.
    pub closed spec fn spec_denom(self) -> u64 {
        self.denom
    }

    /// The fraction `numer / denom` with its common factors divided out.
    pub fn new(numer: i64, denom: u64) -> (r: Rational)
        requires
            denom > 0,
        ensures
            ({
                let g = gcd(magnitude(numer as int), denom as nat);
                &&& magnitude(r.spec_numer() as int) == magnitude(numer as int) / g
                &&& (r.spec_numer() < 0 ==> numer < 0)
                &&& (r.spec_numer() > 0 ==> numer > 0)
                &&& r.spec_denom() == denom as nat / g
            }),
    {
        let size: u64 = if numer < 0 {
            (-(numer as i128)) as u64
        } else {
            numer as u64
        };
        let mut a: u64 = size;
        let mut b: u64 = denom;
        while b != 0
            invariant
                gcd(a as nat, b as nat) == gcd(size as nat, denom as nat),
                a > 0 || b > 0,
            decreases b,
        {
            let c: u64 = a % b;
            a = b;
            b = c;
        }
        let reduced: u64 = size / a;
        let divided: u64 = denom / a;
        proof {
            lemma_gcd_bounds(size as nat, denom as nat);
            assert(reduced <= size) by (nonlinear_arith)
                requires
                    a >= 1,
                    reduced == size / a,
            ;
            assert(divided >= 1) by (nonlinear_arith)
                requires
                    1 <= a <= denom,
                    divided == denom / a,
            ;
        }
        Rational {
            numer: if numer < 0 {
                (-(reduced as i128)) as i64
            } else {
                reduced as i64
            },
            denom: divided,
        }
    }

    /// The start of time.
    pub fn zero() -> (r: Rational)
        ensures
            r.spec_numer() == 0,
            r.spec_denom() == 1,
    {
        Rational { numer: 0, denom: 1 }
    }

    /// The numerator.
    pub fn numer(&self) -> (r: i64)
        ensures
            r == self.spec_numer(),
    {
        self.numer
    }

    /// The double nearest to this time.
    pub fn to_double(&self) -> (r: Double)
        ensures
            r == double::double_of_ratio(self.spec_numer() as int, self.spec_denom() as nat),
    {
        proof {
            use_type_invariant(self);
        }
        Double::of_ratio(self.numer, self.denom)
    }

    /// The denominator.
    pub fn denom(&self) -> (r: u64)
        ensures
            r == self.spec_denom(),
    {
        self.denom
    }
}

/// A span of time from an in point to an out point.
#[derive(Clone, Copy, PartialEq, Eq, Structural, Hash, Debug)]
pub struct TimeRange {
    /// The in point.
    pub start: Rational,
    /// The out point.
    pub end: Rational,
}

impl TimeRange {
    /// The span from `start` to `end`.
    pub fn new(start: Rational, end: Rational) -> (r: TimeRange)
        ensures
            r == (TimeRange { start, end }),
    {
        TimeRange { start, end }
    }

    /// The in point.
    pub fn in_(&self) -> (r: Rational)
        ensures
            r == self.start,
    {
        self.start
    }

    /// The out point.
    pub fn out(&self) -> (r: Rational)
        ensures
            r == self.end,
    {
        self.end
    }
}

/// The greatest common divisor divides both numbers.
proof fn lemma_gcd_divides(a: nat, b: nat)
    requires
        a > 0 || b > 0,
    ensures
        gcd(a, b) > 0,
        a % gcd(a, b) == 0,
        b % gcd(a, b) == 0,
    decreases b,
{
    if b > 0 {
        let g = gcd(a, b);
        lemma_gcd_bounds(a, b);
        lemma_gcd_divides(b, a % b);
        vstd::arithmetic::div_mod::lemma_fundamental_div_mod(a as int, b as int);
        vstd::arithmetic::div_mod::lemma_fundamental_div_mod(b as int, g as int);
        vstd::arithmetic::div_mod::lemma_fundamental_div_mod((a % b) as int, g as int);
        let (q, s, u) = (a as int / b as int, b as int / g as int, (a % b) as int / g as int);
        assert(a == g * (s * q + u)) by (nonlinear_arith)
            requires
                a == b * q + (a % b),
                b == g * s,
                a % b == g * u,
        ;
        vstd::arithmetic::div_mod::lemma_mod_multiples_basic(s * q + u, g as int);
        assert(a == (s * q + u) * g) by (nonlinear_arith)
            requires
                a == g * (s * q + u),
        ;
    } else {
        vstd::arithmetic::div_mod::lemma_mod_self_0(a as int);
    }
}

/// A common factor is a factor of the greatest common divisor.
proof fn lemma_gcd_scaled(a: nat, b: nat, k: nat)
    requires
        k > 0,
    ensures
        gcd(k * a, k * b) == k * gcd(a, b),
    decreases b,
{
    if b > 0 {
        assert(k * b > 0) by (nonlinear_arith)
            requires
                k > 0,
                b > 0,
        ;
        vstd::arithmetic::div_mod::lemma_truncate_middle(a as int, k as int, b as int);
        lemma_gcd_scaled(b, a % b, k);
    } else {
        assert(k * 0 == 0);
    }
}

/// A time keeps its value: its fraction is the one it was made from.
pub proof fn law_reduced_fractions_keep_their_value(numer: i64, denom: u64, r: Rational)
    requires
        denom > 0,
        call_ensures(Rational::new, (numer, denom), r),
    ensures
        r.spec_numer() * denom == numer * r.spec_denom(),
        r.spec_denom() > 0,
{
    let m = magnitude(numer as int);
    let d = denom as nat;
    let g = gcd(m, d);
    lemma_gcd_divides(m, d);
    vstd::arithmetic::div_mod::lemma_fundamental_div_mod(m as int, g as int);
    vstd::arithmetic::div_mod::lemma_fundamental_div_mod(d as int, g as int);
    let (p, q) = (m as int / g as int, d as int / g as int);
    assert(p * d == m * q) by (nonlinear_arith)
        requires
            m == g * p,
            d == g * q,
    ;
    assert(q > 0) by (nonlinear_arith)
        requires
            d > 0,
            g > 0,
            d == g * q,
    ;
    assert(numer != 0 ==> p > 0) by (nonlinear_arith)
        requires
            numer != 0 ==> m > 0,
            g > 0,
            m == g * p,
    ;
    if numer < 0 {
        assert((-p) * d == -(p * d) && (-m) * q == -(m * q)) by (nonlinear_arith);
    }
}

/// Fractions of the same value make the same time.
pub proof fn law_equal_fractions_are_the_same_time(
    a: i64,
    b: u64,
    c: i64,
    d: u64,
    first: Rational,
    second: Rational,
)
    requires
        b > 0,
        d > 0,
        a * d == c * b,
        call_ensures(Rational::new, (a, b), first),
        call_ensures(Rational::new, (c, d), second),
    ensures
        first == second,
{
    let (m, n) = (magnitude(a as int), magnitude(c as int));
    let (b, d) = (b as nat, d as nat);
    assert(m * d == n * b && (a < 0 <==> c < 0) && (a > 0 <==> c > 0)) by (nonlinear_arith)
        requires
            b > 0,
            d > 0,
            a * d == c * b,
            m == (if a < 0 {
                -a
            } else {
                a as int
            }),
            n == (if c < 0 {
                -c
            } else {
                c as int
            }),
    ;
    lemma_scaled_fraction(m, b, d);
    lemma_scaled_fraction(n, d, b);
    assert(d * b == b * d && d * m == m * d && b * n == n * b) by (nonlinear_arith);
    law_reduced_fractions_keep_their_value(a, b as u64, first);
    law_reduced_fractions_keep_their_value(c, d as u64, second);
    assert(magnitude(first.spec_numer() as int) == magnitude(second.spec_numer() as int));
    assert(first.spec_denom() == second.spec_denom());
}

/// A fraction with a factor on both sides reduces to the same numbers.
proof fn lemma_scaled_fraction(m: nat, d: nat, k: nat)
    requires
        d > 0,
        k > 0,
    ensures
        (k * m) / gcd(k * m, k * d) == m / gcd(m, d),
        (k * d) / gcd(k * m, k * d) == d / gcd(m, d),
{
    lemma_gcd_divides(m, d);
    lemma_gcd_scaled(m, d, k);
    let g = gcd(m, d);
    vstd::arithmetic::div_mod::lemma_truncate_middle(m as int, k as int, g as int);
    vstd::arithmetic::div_mod::lemma_fundamental_div_mod(m as int, g as int);
    vstd::arithmetic::div_mod::lemma_fundamental_div_mod(d as int, g as int);
    let (p, q) = (m as int / g as int, d as int / g as int);
    assert(k * m == p * (k * g) && k * d == q * (k * g) && k * g > 0) by (nonlinear_arith)
        requires
            m == g * p,
            d == g * q,
            k > 0,
            g > 0,
    ;
    vstd::arithmetic::div_mod::lemma_div_by_multiple(p, (k * g) as int);
    vstd::arithmetic::div_mod::lemma_div_by_multiple(q, (k * g) as int);
}

} // verus!
