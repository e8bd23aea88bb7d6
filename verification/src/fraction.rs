//! Fractions kept as a numerator and a denominator.

use vstd::prelude::*;
use crate::fields::qm31::QM31;

verus! {

/// A fraction in projective form: no division is made.
#[derive(Debug, Clone, Copy)]
pub struct Fraction<N, D> {
    pub numerator: N,
    pub denominator: D,
}

impl<N, D> Fraction<N, D> {
    pub fn new(numerator: N, denominator: D) -> (r: Fraction<N, D>)
        ensures
            r.numerator == numerator,
            r.denominator == denominator,
    {
        Fraction { numerator, denominator }
    }
}

impl Fraction<QM31, QM31> {
    /// `a/b + c/d = (da + bc) / (bd)`.
    pub open spec fn spec_add(self, rhs: Fraction<QM31, QM31>) -> Fraction<QM31, QM31> {
        Fraction {
            numerator: rhs.denominator.spec_mul(self.numerator).spec_add(
                self.denominator.spec_mul(rhs.numerator),
            ),
            denominator: self.denominator.spec_mul(rhs.denominator),
        }
    }

    /// The fraction `0/1`.
    pub open spec fn spec_zero() -> Fraction<QM31, QM31> {
        Fraction { numerator: QM31::spec_zero(), denominator: QM31::spec_one() }
    }

    /// The sum of the fractions, from the first on; `0/1` if there is none.
    pub open spec fn spec_sum(fracs: Seq<Fraction<QM31, QM31>>) -> Fraction<QM31, QM31>
        decreases fracs.len(),
    {
        if fracs.len() == 0 {
            Fraction::<QM31, QM31>::spec_zero()
        } else if fracs.len() == 1 {
            fracs[0]
        } else {
            Fraction::<QM31, QM31>::spec_sum(fracs.drop_last()).spec_add(fracs.last())
        }
    }

    pub fn zero() -> (r: Fraction<QM31, QM31>)
        ensures
            r == Fraction::<QM31, QM31>::spec_zero(),
    {
        Fraction { numerator: QM31::zero(), denominator: QM31::one() }
    }

    pub fn add(self, rhs: Fraction<QM31, QM31>) -> (r: Fraction<QM31, QM31>)
        ensures
            r == self.spec_add(rhs),
    {
        Fraction {
            numerator: rhs.denominator.mul(self.numerator).add(
                self.denominator.mul(rhs.numerator),
            ),
            denominator: self.denominator.mul(rhs.denominator),
        }
    }

    /// The sum of the fractions, added from the first on.
    pub fn sum(fracs: &Vec<Fraction<QM31, QM31>>) -> (r: Fraction<QM31, QM31>)
        ensures
            r == Fraction::<QM31, QM31>::spec_sum(fracs@),
    {
        if fracs.len() == 0 {
            return Fraction::<QM31, QM31>::zero();
        }
        let mut acc = fracs[0];
        let mut i: usize = 1;
        proof {
            assert(fracs@.subrange(0, 1).len() == 1);
        }
        while i < fracs.len()
            invariant
                1 <= i <= fracs.len(),
                acc == Fraction::<QM31, QM31>::spec_sum(fracs@.subrange(0, i as int)),
            decreases fracs.len() - i,
        {
            proof {
                let s = fracs@.subrange(0, i + 1);
                assert(s.drop_last() =~= fracs@.subrange(0, i as int));
                assert(s.last() == fracs[i as int]);
            }
            acc = acc.add(fracs[i]);
            i = i + 1;
        }
        proof {
            assert(fracs@.subrange(0, fracs.len() as int) =~= fracs@);
        }
        acc
    }
}

} // verus!
