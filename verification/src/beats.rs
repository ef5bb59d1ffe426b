//! Exact durations: non-negative fractions in lowest terms.
//!
//! The arithmetic is that of the `fraction` crate; what this module states
//! about it is said over `Ratio`, a pair of natural numbers.

use fraction::CheckedAdd;
use fraction::Fraction;
use vstd::arithmetic::div_mod::lemma_fundamental_div_mod;
use vstd::arithmetic::div_mod::lemma_mod_multiples_basic;
use vstd::arithmetic::div_mod::lemma_truncate_middle;
use vstd::prelude::*;

verus! {

/// A numerator over a denominator.
pub struct Ratio {
    pub numer: nat,
    pub denom: nat,
}

/// The greatest common divisor, with `gcd(a, 0) == a`.
pub open spec fn gcd(a: nat, b: nat) -> nat
    decreases b,
{
    if b == 0 {
        a
    } else {
        gcd(b, a % b)
    }
}

/// `r` has a denominator and is in lowest terms.
pub open spec fn is_reduced(r: Ratio) -> bool {
    r.denom > 0 && gcd(r.numer, r.denom) == 1
}

/// `numer / denom` in lowest terms.
pub open spec fn reduced(numer: nat, denom: nat) -> Ratio {
    Ratio { numer: numer / gcd(numer, denom), denom: denom / gcd(numer, denom) }
}

/// `a` and `b` are the same number.
pub open spec fn same_value(a: Ratio, b: Ratio) -> bool {
    a.numer * b.denom == b.numer * a.denom
}

/// The sum of `a` and `b` over the product of their denominators.
pub open spec fn ratio_sum(a: Ratio, b: Ratio) -> Ratio {
    Ratio { numer: a.numer * b.denom + b.numer * a.denom, denom: a.denom * b.denom }
}

/// The whole number `n`.
pub open spec fn whole(n: nat) -> Ratio {
    Ratio { numer: n, denom: 1 }
}

/// What `fraction`'s checked addition makes of `a_numer / a_denom` and
/// `b_numer / b_denom`: numerator and denominator of the sum, or `None` where
/// it reports an overflow.
pub uninterp spec fn fraction_checked_sum(
    a_numer: u64,
    a_denom: u64,
    b_numer: u64,
    b_denom: u64,
) -> Option<(u64, u64)>;

/// The checked sum of two ratios whose parts fit in 64 bits.
pub open spec fn checked_sum(a: Ratio, b: Ratio) -> Option<Ratio> {
    match fraction_checked_sum(a.numer as u64, a.denom as u64, b.numer as u64, b.denom as u64) {
        Some(s) => Some(Ratio { numer: s.0 as nat, denom: s.1 as nat }),
        None => None,
    }
}

/// The greatest common divisor is positive unless both numbers are zero.
pub proof fn lemma_gcd_positive(a: nat, b: nat)
    requires
        a > 0 || b > 0,
    ensures
        gcd(a, b) > 0,
    decreases b,
{
    if b != 0 {
        lemma_gcd_positive(b, a % b);
    }
}

/// The greatest common divisor divides both numbers.
pub proof fn lemma_gcd_divides(a: nat, b: nat)
    requires
        a > 0 || b > 0,
    ensures
        gcd(a, b) > 0,
        a % gcd(a, b) == 0,
        b % gcd(a, b) == 0,
    decreases b,
{
    lemma_gcd_positive(a, b);
    let g = gcd(a, b);
    if b == 0 {
        lemma_mod_multiples_basic(1, g as int);
    } else {
        lemma_gcd_divides(b, a % b);
        let q = (a / b) as int;
        let r = (a % b) as int;
        let gi = g as int;
        lemma_fundamental_div_mod(a as int, b as int);
        lemma_fundamental_div_mod(b as int, gi);
        lemma_fundamental_div_mod(r, gi);
        let kb = (b as int) / gi;
        let kr = r / gi;
        assert(a as int == gi * (kb * q + kr)) by (nonlinear_arith)
            requires
                a as int == (b as int) * q + r,
                b as int == gi * kb,
                r == gi * kr,
        ;
        lemma_mod_multiples_basic(kb * q + kr, gi);
        assert(gi * (kb * q + kr) == (kb * q + kr) * gi) by (nonlinear_arith);
    }
}

/// A common factor can be taken out of the greatest common divisor.
pub proof fn lemma_gcd_scales(k: nat, a: nat, b: nat)
    requires
        k > 0,
    ensures
        gcd(k * a, k * b) == k * gcd(a, b),
    decreases b,
{
    if b == 0 {
        assert(k * b == 0) by (nonlinear_arith)
            requires
                b == 0,
        ;
    } else {
        assert(k * b > 0) by (nonlinear_arith)
            requires
                k > 0,
                b > 0,
        ;
        lemma_truncate_middle(a as int, k as int, b as int);
        assert((k * a) % (k * b) == k * (a % b));
        lemma_gcd_scales(k, b, a % b);
    }
}

/// `reduced` keeps the value and yields lowest terms.
pub proof fn lemma_reduced(numer: nat, denom: nat)
    requires
        denom > 0,
    ensures
        is_reduced(reduced(numer, denom)),
        same_value(reduced(numer, denom), Ratio { numer, denom }),
        reduced(numer, denom).numer <= numer,
        reduced(numer, denom).denom <= denom,
{
    lemma_gcd_divides(numer, denom);
    let g = gcd(numer, denom);
    let n = numer / g;
    let d = denom / g;
    lemma_fundamental_div_mod(numer as int, g as int);
    lemma_fundamental_div_mod(denom as int, g as int);
    assert(numer == g * n);
    assert(denom == g * d);
    lemma_gcd_scales(g, n, d);
    assert(g == g * gcd(n, d));
    assert(gcd(n, d) == 1) by (nonlinear_arith)
        requires
            g > 0,
            g == g * gcd(n, d),
    ;
    assert(d > 0) by (nonlinear_arith)
        requires
            denom > 0,
            denom == g * d,
    ;
    assert(n * denom == numer * d) by (nonlinear_arith)
        requires
            numer == g * n,
            denom == g * d,
    ;
    assert(n <= numer && d <= denom) by (nonlinear_arith)
        requires
            g > 0,
            numer == g * n,
            denom == g * d,
    ;
}

/// A ratio in lowest terms is its own reduction.
pub proof fn lemma_reduced_fixed(r: Ratio)
    requires
        is_reduced(r),
    ensures
        reduced(r.numer, r.denom) == r,
{
}

/// A ratio in lowest terms is the whole number `n` exactly when it has the
/// value of `n`.
pub proof fn lemma_whole(r: Ratio, n: nat)
    requires
        is_reduced(r),
    ensures
        r == whole(n) <==> same_value(r, whole(n)),
{
    if same_value(r, whole(n)) {
        let m = r.denom;
        assert(r.numer == n * m);
        lemma_mod_multiples_basic(n as int, m as int);
        assert((n * m) % m == 0);
        assert(gcd(n * m, m) == gcd(m, 0));
        assert(m == 1);
        assert(r.numer == n) by (nonlinear_arith)
            requires
                r.numer == n * m,
                m == 1,
        ;
    }
}

/// Having the same value is transitive where the middle ratio has a
/// denominator.
pub proof fn lemma_same_value_transitive(a: Ratio, b: Ratio, c: Ratio)
    requires
        same_value(a, b),
        same_value(b, c),
        b.denom > 0,
    ensures
        same_value(a, c),
{
    assert(a.numer * c.denom == c.numer * a.denom) by (nonlinear_arith)
        requires
            a.numer * b.denom == b.numer * a.denom,
            b.numer * c.denom == c.numer * b.denom,
            b.denom > 0,
    ;
}

/// Sums of ratios with the same values have the same value.
pub proof fn lemma_sum_respects_value(a: Ratio, a2: Ratio, b: Ratio)
    requires
        same_value(a, a2),
    ensures
        same_value(ratio_sum(a, b), ratio_sum(a2, b)),
{
    assert((a.numer * b.denom + b.numer * a.denom) * (a2.denom * b.denom) == (a2.numer * b.denom
        + b.numer * a2.denom) * (a.denom * b.denom)) by (nonlinear_arith)
        requires
            a.numer * a2.denom == a2.numer * a.denom,
    ;
}

/// A duration in beats: a non-negative fraction, kept in lowest terms.
#[derive(Clone, Copy, Debug, PartialEq, Eq, Structural)]
pub struct Beats {
    numer: u64,
    denom: u64,
}

impl View for Beats {
    type V = Ratio;

    closed spec fn view(&self) -> Ratio {
        Ratio { numer: self.numer as nat, denom: self.denom as nat }
    }
}

/// `fraction::Fraction::new`, read back through `numer` and `denom`: for a
/// denominator other than zero the crate stores the fraction in lowest terms,
/// and for a zero denominator it stores no rational at all.
#[verifier::external_body]
fn reduce_fraction(numer: u64, denom: u64) -> (r: Option<(u64, u64)>)
    ensures
        denom == 0 ==> r is None,
        denom != 0 ==> r == Some(
            (
                reduced(numer as nat, denom as nat).numer as u64,
                reduced(numer as nat, denom as nat).denom as u64,
            ),
        ),
{
    let f = Fraction::new(numer, denom);
    match (f.numer(), f.denom()) {
        (Some(n), Some(d)) => Some((*n, *d)),
        _ => None,
    }
}

/// `fraction`'s `checked_add` on two fractions with denominators other than
/// zero: `None` where the crate reports an overflow, else the sum, which the
/// crate stores in lowest terms.
#[verifier::external_body]
fn add_fractions(a: (u64, u64), b: (u64, u64)) -> (r: Option<(u64, u64)>)
    requires
        a.1 != 0,
        b.1 != 0,
    ensures
        r == fraction_checked_sum(a.0, a.1, b.0, b.1),
        r matches Some(s) ==> s.0 == reduced(
            (a.0 * b.1 + b.0 * a.1) as nat,
            (a.1 * b.1) as nat,
        ).numer && s.1 == reduced((a.0 * b.1 + b.0 * a.1) as nat, (a.1 * b.1) as nat).denom,
{
    let sum = Fraction::new(a.0, a.1).checked_add(&Fraction::new(b.0, b.1));
    match sum {
        Some(f) => match (f.numer(), f.denom()) {
            (Some(n), Some(d)) => Some((*n, *d)),
            _ => None,
        },
        None => None,
    }
}

impl Beats {
    /// Every duration has a denominator and is in lowest terms.
    #[verifier::type_invariant]
    pub closed spec fn well_formed(self) -> bool {
        is_reduced(self@)
    }

    /// What `well_formed` says, over the view.
    pub proof fn lemma_well_formed(self)
        requires
            self.well_formed(),
        ensures
            is_reduced(self@),
            self@.numer <= u64::MAX,
            self@.denom <= u64::MAX,
    {
    }

    /// Two durations are the same value exactly when their views are equal.
    pub proof fn lemma_view_decides(self, other: Beats)
        ensures
            (self == other) == (self@ == other@),
    {
    }

    /// The duration `numer / denom`, or nothing where `denom` is zero.
    pub fn new(numer: u64, denom: u64) -> (r: Option<Beats>)
        ensures
            denom == 0 <==> r is None,
            r matches Some(b) ==> b@ == reduced(numer as nat, denom as nat) && b.well_formed(),
    {
        match reduce_fraction(numer, denom) {
            Some(p) => {
                proof {
                    lemma_reduced(numer as nat, denom as nat);
                }
                Some(Beats { numer: p.0, denom: p.1 })
            },
            None => None,
        }
    }

    /// No time at all.
    pub fn zero() -> (r: Beats)
        ensures
            r@ == whole(0),
            r.well_formed(),
    {
        assert(gcd(0, 1) == 1) by {
            reveal_with_fuel(gcd, 3);
        }
        Beats { numer: 0, denom: 1 }
    }

    /// The numerator in lowest terms.
    pub fn numer(&self) -> (r: u64)
        ensures
            r == self@.numer,
    {
        self.numer
    }

    /// The denominator in lowest terms.
    pub fn denom(&self) -> (r: u64)
        ensures
            r == self@.denom,
    {
        self.denom
    }

    /// Whether this duration is exactly `n` beats.
    pub fn is_whole(&self, n: u64) -> (r: bool)
        ensures
            r == (self@ == whole(n as nat)),
            r == same_value(self@, whole(n as nat)),
    {
        proof {
            use_type_invariant(self);
            lemma_whole(self@, n as nat);
        }
        self.numer == n && self.denom == 1
    }

    /// The sum of two durations, or nothing where it cannot be held.
    pub fn checked_add(&self, other: &Beats) -> (r: Option<Beats>)
        ensures
            match r {
                Some(s) => checked_sum(self@, other@) == Some(s@) && same_value(
                    s@,
                    ratio_sum(self@, other@),
                ) && s.well_formed(),
                None => checked_sum(self@, other@) is None,
            },
    {
        proof {
            use_type_invariant(self);
            use_type_invariant(other);
        }
        assert(self.denom * other.denom > 0) by (nonlinear_arith)
            requires
                self.denom > 0,
                other.denom > 0,
        ;
        match add_fractions((self.numer, self.denom), (other.numer, other.denom)) {
            Some(p) => {
                proof {
                    lemma_reduced(
                        (self.numer * other.denom + other.numer * self.denom) as nat,
                        (self.denom * other.denom) as nat,
                    );
                }
                Some(Beats { numer: p.0, denom: p.1 })
            },
            None => None,
        }
    }
}

} // verus!
