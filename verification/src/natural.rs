//! Natural numbers of any size, as far as scores need them: multiplied by
//! a factor, and compared.

use vstd::prelude::*;

verus! {

/// Each limb of a natural number holds 32 bits.
pub const LIMB_BASE: u128 = 0x1_0000_0000;

/// The largest factor that a natural number is scaled by in one step.
pub const FACTOR_MAX: u128 = 0x1_0000_0000_0000_0000;

/// The weight of the limb at `index`: `LIMB_BASE` to the power of `index`.
pub open spec fn place(index: nat) -> nat
    decreases index,
{
    if index == 0 {
        1
    } else {
        0x1_0000_0000 * place((index - 1) as nat)
    }
}

/// The number that a sequence of limbs stands for, least significant limb
/// first.
pub open spec fn limbs_value(limbs: Seq<u32>) -> nat
    decreases limbs.len(),
{
    if limbs.len() == 0 {
        0
    } else {
        limbs_value(limbs.drop_last()) + limbs.last() as nat * place((limbs.len() - 1) as nat)
    }
}

/// Every place is positive.
pub proof fn lemma_place_positive(index: nat)
    ensures
        place(index) > 0,
    decreases index,
{
    if index > 0 {
        lemma_place_positive((index - 1) as nat);
    }
}

/// A higher place weighs no less.
pub proof fn lemma_place_grows(low: nat, high: nat)
    requires
        low <= high,
    ensures
        place(low) <= place(high),
    decreases high,
{
    if low < high {
        lemma_place_grows(low, (high - 1) as nat);
        lemma_place_positive((high - 1) as nat);
    }
}

/// Limbs stand for a number below the place that follows them.
pub proof fn lemma_value_below_place(limbs: Seq<u32>)
    ensures
        limbs_value(limbs) < place(limbs.len()),
    decreases limbs.len(),
{
    if limbs.len() > 0 {
        lemma_value_below_place(limbs.drop_last());
        let weight = place((limbs.len() - 1) as nat);
        let top = limbs.last() as nat;
        assert(limbs_value(limbs.drop_last()) + top * weight < 0x1_0000_0000 * weight)
            by (nonlinear_arith)
            requires
                limbs_value(limbs.drop_last()) < weight,
                top < 0x1_0000_0000,
        ;
    }
}

/// Limbs whose last limb is not zero stand for a number that reaches the
/// place of that limb.
pub proof fn lemma_value_reaches_place(limbs: Seq<u32>)
    requires
        limbs.len() > 0,
        limbs.last() != 0,
    ensures
        limbs_value(limbs) >= place((limbs.len() - 1) as nat),
{
    let weight = place((limbs.len() - 1) as nat);
    let top = limbs.last() as nat;
    assert(top * weight >= weight) by (nonlinear_arith)
        requires
            top >= 1,
    ;
}

/// Taking one limb more adds that limb at its place.
pub proof fn lemma_value_step(limbs: Seq<u32>, n: int)
    requires
        0 <= n < limbs.len(),
    ensures
        limbs_value(limbs.take(n + 1)) == limbs_value(limbs.take(n)) + limbs[n] as nat * place(
            n as nat,
        ),
{
    assert(limbs.take(n + 1).drop_last() =~= limbs.take(n));
}

/// A natural number of any size.
pub struct BigNat {
    limbs: Vec<u32>,
}

impl View for BigNat {
    type V = nat;

    closed spec fn view(&self) -> nat {
        limbs_value(self.limbs@)
    }
}

impl BigNat {
    /// The most significant limb is not zero, so that a number has one form.
    #[verifier::type_invariant]
    spec fn well_formed(&self) -> bool {
        self.limbs@.len() > 0 ==> self.limbs@.last() != 0
    }

    /// The number one.
    pub fn one() -> (number: Self)
        ensures
            number@ == 1,
    {
        let mut limbs: Vec<u32> = Vec::new();
        limbs.push(1);
        proof {
            reveal_with_fuel(limbs_value, 2);
        }
        BigNat { limbs }
    }

    /// Multiplies the number by `factor`.
    pub fn scale(&mut self, factor: u128)
        requires
            factor <= FACTOR_MAX,
        ensures
            final(self)@ == old(self)@ * factor,
    {
        proof {
            use_type_invariant(&*self);
        }
        let ghost before = self.limbs@;
        if factor == 0 {
            self.limbs = Vec::new();
            return;
        }
        let mut limbs: Vec<u32> = Vec::new();
        std::mem::swap(&mut limbs, &mut self.limbs);
        let length = limbs.len();
        let mut carry: u128 = 0;
        let mut at: usize = 0;
        proof {
            assert(0 * factor == 0) by (nonlinear_arith);
        }
        while at < length
            invariant
                0 <= at <= length,
                length == before.len(),
                limbs@.len() == length,
                1 <= factor <= FACTOR_MAX,
                carry <= factor,
                before.len() > 0 ==> before.last() != 0,
                forall|j: int| at <= j < length ==> limbs@[j] == before[j],
                limbs_value(limbs@.take(at as int)) + carry * place(at as nat) == limbs_value(
                    before.take(at as int),
                ) * factor,
                at == length && length > 0 ==> carry > 0 || limbs@[length - 1] != 0,
            decreases length - at,
        {
            let limb = limbs[at];
            assert(limb as u128 * factor + carry <= 0x1_0000_0000 * factor) by (nonlinear_arith)
                requires
                    limb < 0x1_0000_0000,
                    carry <= factor,
            ;
            let total: u128 = limb as u128 * factor + carry;
            let low: u32 = (total % LIMB_BASE) as u32;
            let high: u128 = total / LIMB_BASE;
            let ghost limbs_before = limbs@;
            limbs[at] = low;
            proof {
                let weight = place(at as nat);
                lemma_value_step(before, at as int);
                lemma_value_step(limbs@, at as int);
                assert(limbs@.take(at as int) =~= limbs_before.take(at as int));
                assert((low + high * 0x1_0000_0000) * weight == low * weight + high * (0x1_0000_0000
                    * weight)) by (nonlinear_arith);
                assert((limb * factor + carry) * weight == (limb * weight) * factor + carry
                    * weight) by (nonlinear_arith);
                assert((limbs_value(before.take(at as int)) + limb * weight) * factor
                    == limbs_value(before.take(at as int)) * factor + (limb * weight) * factor)
                    by (nonlinear_arith);
                if at + 1 == length {
                    assert(total >= 1) by (nonlinear_arith)
                        requires
                            total == limb * factor + carry,
                            limb >= 1,
                            factor >= 1,
                    ;
                }
            }
            carry = high;
            at = at + 1;
        }
        proof {
            assert(limbs@.take(length as int) =~= limbs@);
            assert(before.take(length as int) =~= before);
        }
        while carry > 0
            invariant
                carry <= FACTOR_MAX,
                limbs_value(limbs@) + carry * place(limbs@.len()) == limbs_value(before)
                    * factor,
                limbs@.len() > 0 ==> carry > 0 || limbs@.last() != 0,
            decreases carry,
        {
            let low: u32 = (carry % LIMB_BASE) as u32;
            let high: u128 = carry / LIMB_BASE;
            let ghost limbs_before = limbs@;
            limbs.push(low);
            proof {
                let weight = place(limbs_before.len());
                assert(limbs@.drop_last() =~= limbs_before);
                assert((low + high * 0x1_0000_0000) * weight == low * weight + high * (0x1_0000_0000
                    * weight)) by (nonlinear_arith);
            }
            carry = high;
        }
        self.limbs = limbs;
    }

    /// Whether the number is less than `other`.
    pub fn less_than(&self, other: &BigNat) -> (less: bool)
        ensures
            less == (self@ < other@),
    {
        proof {
            use_type_invariant(self);
            use_type_invariant(other);
        }
        let length = self.limbs.len();
        if length != other.limbs.len() {
            proof {
                lemma_value_below_place(self.limbs@);
                lemma_value_below_place(other.limbs@);
                if length < other.limbs.len() {
                    lemma_value_reaches_place(other.limbs@);
                    lemma_place_grows(length as nat, (other.limbs@.len() - 1) as nat);
                } else {
                    lemma_value_reaches_place(self.limbs@);
                    lemma_place_grows(other.limbs@.len(), (length - 1) as nat);
                }
            }
            return length < other.limbs.len();
        }
        let mut at: usize = length;
        proof {
            assert(self.limbs@.take(length as int) =~= self.limbs@);
            assert(other.limbs@.take(length as int) =~= other.limbs@);
        }
        while at > 0
            invariant
                0 <= at <= length,
                length == self.limbs@.len(),
                length == other.limbs@.len(),
                (self@ < other@) == (limbs_value(self.limbs@.take(at as int)) < limbs_value(
                    other.limbs@.take(at as int),
                )),
            decreases at,
        {
            at = at - 1;
            let mine = self.limbs[at];
            let theirs = other.limbs[at];
            proof {
                lemma_value_step(self.limbs@, at as int);
                lemma_value_step(other.limbs@, at as int);
                lemma_value_below_place(self.limbs@.take(at as int));
                lemma_value_below_place(other.limbs@.take(at as int));
                let weight = place(at as nat);
                if mine < theirs {
                    assert(mine * weight + weight <= theirs * weight) by (nonlinear_arith)
                        requires
                            mine < theirs,
                    ;
                } else if mine > theirs {
                    assert(theirs * weight + weight <= mine * weight) by (nonlinear_arith)
                        requires
                            theirs < mine,
                    ;
                }
            }
            if mine != theirs {
                return mine < theirs;
            }
        }
        false
    }
}

} // verus!
