//! Exact scores: fractions kept as the factors of numerator and denominator.

use crate::natural::{BigNat, FACTOR_MAX};
use std::cmp::Ordering;
use vstd::prelude::*;
use vstd::std_specs::cmp::{PartialEqSpecImpl, PartialOrdSpecImpl};

verus! {

/// A fraction of two natural numbers. Fractions are compared across the
/// fraction bar, so that no division is needed.
pub struct Fraction {
    pub numerator: nat,
    pub denominator: nat,
}

impl Fraction {
    /// The fraction one.
    pub open spec fn one() -> Fraction {
        Fraction { numerator: 1, denominator: 1 }
    }

    /// The product of this fraction and `numerator / denominator`.
    pub open spec fn times(self, numerator: nat, denominator: nat) -> Fraction {
        Fraction {
            numerator: self.numerator * numerator,
            denominator: self.denominator * denominator,
        }
    }

    /// Whether this fraction is less than `other`.
    pub open spec fn below(self, other: Fraction) -> bool {
        self.numerator * other.denominator < other.numerator * self.denominator
    }

    /// Whether this fraction has the value of `other`.
    pub open spec fn same(self, other: Fraction) -> bool {
        self.numerator * other.denominator == other.numerator * self.denominator
    }
}

/// The product of a sequence of factors; the empty product is one.
pub open spec fn product(factors: Seq<u128>) -> nat
    decreases factors.len(),
{
    if factors.len() == 0 {
        1
    } else {
        product(factors.drop_last()) * factors.last() as nat
    }
}

/// The product of one factor more is the product so far times that factor.
pub proof fn lemma_product_step(factors: Seq<u128>, n: int)
    requires
        0 <= n < factors.len(),
    ensures
        product(factors.take(n + 1)) == product(factors.take(n)) * factors[n] as nat,
{
    assert(factors.take(n + 1).drop_last() =~= factors.take(n));
}

/// The score of a label: an exact fraction, kept as the factors of its
/// numerator and of its denominator.
pub struct Score {
    numerators: Vec<u128>,
    denominators: Vec<u128>,
}

impl View for Score {
    type V = Fraction;

    closed spec fn view(&self) -> Fraction {
        Fraction {
            numerator: product(self.numerators@),
            denominator: product(self.denominators@),
        }
    }
}

impl Score {
    /// No factor is above `FACTOR_MAX`, and no factor of the denominator is
    /// zero.
    #[verifier::type_invariant]
    spec fn well_formed(&self) -> bool {
        &&& forall|i: int|
            0 <= i < self.numerators@.len() ==> #[trigger] self.numerators@[i] <= FACTOR_MAX
        &&& forall|i: int|
            0 <= i < self.denominators@.len() ==> 1 <= #[trigger] self.denominators@[i]
                <= FACTOR_MAX
    }

    /// The factors of the numerator, in the order in which they came.
    pub closed spec fn numerator_factors(&self) -> Seq<u128> {
        self.numerators@
    }

    /// The factors of the denominator, in the order in which they came.
    pub closed spec fn denominator_factors(&self) -> Seq<u128> {
        self.denominators@
    }

    /// The score one, which has no factors.
    pub fn one() -> (score: Self)
        ensures
            score@ == Fraction::one(),
            score.numerator_factors() == Seq::<u128>::empty(),
            score.denominator_factors() == Seq::<u128>::empty(),
    {
        Score { numerators: Vec::new(), denominators: Vec::new() }
    }

    /// Multiplies the score by `numerator / denominator`.
    pub fn weigh(&mut self, numerator: u128, denominator: u128)
        requires
            numerator <= FACTOR_MAX,
            1 <= denominator <= FACTOR_MAX,
        ensures
            final(self)@ == old(self)@.times(numerator as nat, denominator as nat),
            final(self).numerator_factors() == old(self).numerator_factors().push(numerator),
            final(self).denominator_factors() == old(self).denominator_factors().push(denominator),
    {
        proof {
            use_type_invariant(&*self);
        }
        let mut numerators: Vec<u128> = Vec::new();
        let mut denominators: Vec<u128> = Vec::new();
        std::mem::swap(&mut numerators, &mut self.numerators);
        std::mem::swap(&mut denominators, &mut self.denominators);
        numerators.push(numerator);
        denominators.push(denominator);
        self.numerators = numerators;
        self.denominators = denominators;
        proof {
            assert(self.numerators@.drop_last() =~= old(self).numerators@);
            assert(self.denominators@.drop_last() =~= old(self).denominators@);
        }
    }

    /// The factors of the numerator.
    pub fn numerators(&self) -> (factors: &Vec<u128>)
        ensures
            factors@ == self.numerator_factors(),
    {
        &self.numerators
    }

    /// The factors of the denominator.
    pub fn denominators(&self) -> (factors: &Vec<u128>)
        ensures
            factors@ == self.denominator_factors(),
    {
        &self.denominators
    }

    /// Whether this score is less than `other`.
    pub fn less_than(&self, other: &Score) -> (less: bool)
        ensures
            less == self@.below(other@),
    {
        proof {
            use_type_invariant(self);
            use_type_invariant(other);
        }
        let left = product_of(&self.numerators, &other.denominators);
        let right = product_of(&other.numerators, &self.denominators);
        left.less_than(&right)
    }
}

impl PartialEq for Score {
    fn eq(&self, other: &Score) -> (equal: bool) {
        !self.less_than(other) && !other.less_than(self)
    }
}

impl PartialEqSpecImpl for Score {
    open spec fn obeys_eq_spec() -> bool {
        true
    }

    open spec fn eq_spec(&self, other: &Score) -> bool {
        self@.same(other@)
    }
}

impl PartialOrd for Score {
    fn partial_cmp(&self, other: &Score) -> (order: Option<Ordering>) {
        if self.less_than(other) {
            Some(Ordering::Less)
        } else if other.less_than(self) {
            Some(Ordering::Greater)
        } else {
            Some(Ordering::Equal)
        }
    }
}

impl PartialOrdSpecImpl for Score {
    open spec fn obeys_partial_cmp_spec() -> bool {
        true
    }

    open spec fn partial_cmp_spec(&self, other: &Score) -> Option<Ordering> {
        if self@.below(other@) {
            Some(Ordering::Less)
        } else if other@.below(self@) {
            Some(Ordering::Greater)
        } else {
            Some(Ordering::Equal)
        }
    }
}

/// The product of all factors of `first` and of `second`.
fn product_of(first: &Vec<u128>, second: &Vec<u128>) -> (result: BigNat)
    requires
        forall|i: int| 0 <= i < first@.len() ==> first@[i] <= FACTOR_MAX,
        forall|i: int| 0 <= i < second@.len() ==> second@[i] <= FACTOR_MAX,
    ensures
        result@ == product(first@) * product(second@),
{
    let mut result = BigNat::one();
    let mut at: usize = 0;
    while at < first.len()
        invariant
            0 <= at <= first.len(),
            result@ == product(first@.take(at as int)),
            forall|i: int| 0 <= i < first@.len() ==> first@[i] <= FACTOR_MAX,
        decreases first.len() - at,
    {
        proof {
            lemma_product_step(first@, at as int);
        }
        result.scale(first[at]);
        at = at + 1;
    }
    proof {
        assert(first@.take(at as int) =~= first@);
        assert(product(first@) * 1 == product(first@)) by (nonlinear_arith);
    }
    let mut at: usize = 0;
    while at < second.len()
        invariant
            0 <= at <= second.len(),
            result@ == product(first@) * product(second@.take(at as int)),
            forall|i: int| 0 <= i < second@.len() ==> second@[i] <= FACTOR_MAX,
        decreases second.len() - at,
    {
        proof {
            lemma_product_step(second@, at as int);
            let so_far = product(second@.take(at as int));
            let factor = second@[at as int] as nat;
            assert((product(first@) * so_far) * factor == product(first@) * (so_far * factor))
                by (nonlinear_arith);
        }
        result.scale(second[at]);
        at = at + 1;
    }
    proof {
        assert(second@.take(at as int) =~= second@);
    }
    result
}

} // verus!
