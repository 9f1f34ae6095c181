//! The fraction value type: construction reduces to lowest terms, addition
//! goes through the least common denominator.

use vstd::prelude::*;
use crate::arith::{
    gcd, lcm, lemma_divides_exact, lemma_gcd_commutes, lemma_gcd_divides,
    lemma_gcd_reduce_coprime, lemma_lcm_commutes, lemma_lcm_structure,
};

verus! {

/// A rational number held as a numerator / denominator pair, reduced to
/// lowest terms on construction.
#[derive(Clone, Copy, Debug, PartialEq, Eq, Structural)]
pub struct Fraction {
    pub numerator: u32,
    pub denominator: u32,
}

impl Fraction {
    /// Both parts are strictly positive.
    pub open spec fn positive(self) -> bool {
        self.numerator > 0 && self.denominator > 0
    }

    /// The pair is in lowest terms: no common factor greater than 1.
    pub open spec fn reduced(self) -> bool {
        gcd(self.numerator as nat, self.denominator as nat) == 1
    }

    /// What construction establishes and every operation preserves.
    pub open spec fn wf(self) -> bool {
        self.positive() && self.reduced()
    }

    /// Greatest common divisor of two positive integers, by the Euclidean
    /// algorithm.
    pub fn gcf(value1: u32, value2: u32) -> (result: u32)
        requires
            value1 > 0,
            value2 > 0,
        ensures
            result == gcd(value1 as nat, value2 as nat),
            result > 0,
    {
        let mut a: u32 = if value1 > value2 {
            value1
        } else {
            value2
        };
        let mut b: u32 = if value1 > value2 {
            value2
        } else {
            value1
        };
        proof {
            if value1 <= value2 {
                lemma_gcd_commutes(value2 as nat, value1 as nat);
            }
        }
        let mut r: u32 = a % b;
        while r > 0
            invariant
                b > 0,
                r == a as nat % b as nat,
                gcd(a as nat, b as nat) == gcd(value1 as nat, value2 as nat),
            decreases b,
        {
            proof {
                assert(gcd(a as nat, b as nat) == gcd(b as nat, r as nat));
            }
            a = b;
            b = r;
            r = a % b;
        }
        proof {
            assert(gcd(a as nat, b as nat) == gcd(b as nat, 0));
            assert(gcd(b as nat, 0) == b);
        }
        b
    }

    /// Build the fraction `numerator / denominator`, reduced to lowest terms.
    pub fn new(numerator: u32, denominator: u32) -> (result: Self)
        requires
            numerator > 0,
            denominator > 0,
        ensures
            result.numerator == numerator as nat / gcd(
                numerator as nat,
                denominator as nat,
            ),
            result.denominator == denominator as nat / gcd(
                numerator as nat,
                denominator as nat,
            ),
            result.wf(),
    {
        let gcf_value: u32 = Self::gcf(numerator, denominator);
        proof {
            lemma_gcd_divides(numerator as nat, denominator as nat);
            lemma_divides_exact(gcf_value as nat, numerator as nat);
            lemma_divides_exact(gcf_value as nat, denominator as nat);
            lemma_gcd_reduce_coprime(numerator as nat, denominator as nat);
            assert(numerator as nat / gcf_value as nat > 0 && denominator as nat
                / gcf_value as nat > 0) by (nonlinear_arith)
                requires
                    numerator as nat == gcf_value as nat * (numerator as nat
                        / gcf_value as nat),
                    denominator as nat == gcf_value as nat * (denominator as nat
                        / gcf_value as nat),
                    numerator > 0,
                    denominator > 0,
            ;
        }
        Fraction { numerator: numerator / gcf_value, denominator: denominator / gcf_value }
    }
}

/// The common denominator that addition works over: the least common
/// multiple of the two denominators.
pub open spec fn common_denominator(a: Fraction, b: Fraction) -> nat {
    lcm(a.denominator as nat, b.denominator as nat)
}

/// The numerator of the sum once both fractions are scaled to the common
/// denominator, before reduction to lowest terms.
pub open spec fn unreduced_sum(a: Fraction, b: Fraction) -> nat {
    (a.numerator as nat) * (common_denominator(a, b) / (a.denominator as nat)) + (
    b.numerator as nat) * (common_denominator(a, b) / (b.denominator as nat))
}

/// The numerator of the reduced sum of `a` and `b`.
pub open spec fn sum_numerator(a: Fraction, b: Fraction) -> nat {
    unreduced_sum(a, b) / gcd(unreduced_sum(a, b), common_denominator(a, b))
}

/// The denominator of the reduced sum of `a` and `b`.
pub open spec fn sum_denominator(a: Fraction, b: Fraction) -> nat {
    common_denominator(a, b) / gcd(unreduced_sum(a, b), common_denominator(a, b))
}

impl Fraction {
    /// Add two fractions: scale both to the least common denominator, sum
    /// the scaled numerators, and reduce the result to lowest terms.
    ///
    /// The two bounds keep the common denominator and the scaled sum within
    /// the machine word; the original arithmetic is unchecked.
    pub fn add(self, other: Self) -> (result: Self)
        requires
            self.positive(),
            other.positive(),
            common_denominator(self, other) <= u32::MAX,
            unreduced_sum(self, other) <= u32::MAX,
        ensures
            result.numerator == sum_numerator(self, other),
            result.denominator == sum_denominator(self, other),
            result.wf(),
    {
        let g: u32 = Self::gcf(self.denominator, other.denominator);
        proof {
            lemma_lcm_structure(self.denominator as nat, other.denominator as nat);
        }
        let l: u32 = self.denominator / g * other.denominator;
        let scaled_self: u32 = self.numerator * (l / self.denominator);
        let scaled_other: u32 = other.numerator * (l / other.denominator);
        proof {
            assert(scaled_self >= 1) by (nonlinear_arith)
                requires
                    scaled_self == (self.numerator as nat) * (l as nat
                        / self.denominator as nat),
                    self.numerator >= 1,
                    l as nat / self.denominator as nat >= 1,
            ;
        }
        Self::new(scaled_self + scaled_other, l)
    }
}

/// Addition of fractions is commutative: both orders give the same common
/// denominator and the same scaled sum, and hence the same reduced result.
pub proof fn lemma_add_commutes(a: Fraction, b: Fraction)
    requires
        a.positive(),
        b.positive(),
    ensures
        common_denominator(a, b) == common_denominator(b, a),
        unreduced_sum(a, b) == unreduced_sum(b, a),
        sum_numerator(a, b) == sum_numerator(b, a),
        sum_denominator(a, b) == sum_denominator(b, a),
{
    lemma_lcm_commutes(a.denominator as nat, b.denominator as nat);
}

} // verus!
