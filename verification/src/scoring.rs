//! What the score of a label is, and which label a ranking puts at the top.

use crate::extract::Feature;
use crate::frequency_store::Frequencies;
use crate::label_histogram::Label;
use crate::score::Fraction;
use vstd::prelude::*;

verus! {

/// How a feature weighs in a label's score.
#[derive(Clone, Copy, Debug, PartialEq, Eq, Structural)]
pub enum Scoring {
    /// Each feature multiplies the score by its smoothed likelihood alone.
    Likelihood,
    /// Each feature multiplies the score by its smoothed likelihood and by
    /// the label's share of all examples seen.
    PriorWeighted,
}

/// The likelihood of `feature` under `label`, with one added to the count
/// of the two together and to the count of the label.
pub open spec fn likelihood(freq: Frequencies, feature: Feature, label: Label) -> Fraction {
    Fraction {
        numerator: freq.feature_label_count(feature, label) + 1,
        denominator: freq.label_count(label) + 1,
    }
}

/// The score of `label` for a sequence of features: the product, over the
/// features, of the likelihood of each, and of the label's share as well
/// where the scoring weighs by it. With no features the score is one.
pub open spec fn label_score(
    freq: Frequencies,
    scoring: Scoring,
    features: Seq<Feature>,
    label: Label,
) -> Fraction
    decreases features.len(),
{
    if features.len() == 0 {
        Fraction::one()
    } else {
        let so_far = label_score(freq, scoring, features.drop_last(), label);
        let likely = likelihood(freq, features.last(), label);
        let weighed = so_far.times(likely.numerator, likely.denominator);
        match scoring {
            Scoring::Likelihood => weighed,
            Scoring::PriorWeighted => {
                let share = freq.label_probability(label);
                weighed.times(share.numerator, share.denominator)
            },
        }
    }
}

/// The factors of the numerator of a label's score, in the order of the
/// features: for each feature the numerator of its likelihood, followed by
/// the numerator of the label's share where the scoring weighs by it.
pub open spec fn score_numerators(
    freq: Frequencies,
    scoring: Scoring,
    features: Seq<Feature>,
    label: Label,
) -> Seq<u128>
    decreases features.len(),
{
    if features.len() == 0 {
        Seq::empty()
    } else {
        let so_far = score_numerators(freq, scoring, features.drop_last(), label).push(
            likelihood(freq, features.last(), label).numerator as u128,
        );
        match scoring {
            Scoring::Likelihood => so_far,
            Scoring::PriorWeighted => so_far.push(
                freq.label_probability(label).numerator as u128,
            ),
        }
    }
}

/// The factors of the denominator of a label's score, in the order of the
/// features: for each feature the denominator of its likelihood, followed
/// by the denominator of the label's share where the scoring weighs by it.
pub open spec fn score_denominators(
    freq: Frequencies,
    scoring: Scoring,
    features: Seq<Feature>,
    label: Label,
) -> Seq<u128>
    decreases features.len(),
{
    if features.len() == 0 {
        Seq::empty()
    } else {
        let so_far = score_denominators(freq, scoring, features.drop_last(), label).push(
            likelihood(freq, features.last(), label).denominator as u128,
        );
        match scoring {
            Scoring::Likelihood => so_far,
            Scoring::PriorWeighted => so_far.push(
                freq.label_probability(label).denominator as u128,
            ),
        }
    }
}

/// Whether `winner` stands above `other` in the ranking: its score is
/// higher, or the scores are the same and it is the greater label.
pub open spec fn ranks_above(
    freq: Frequencies,
    scoring: Scoring,
    features: Seq<Feature>,
    winner: Label,
    other: Label,
) -> bool {
    let high = label_score(freq, scoring, features, winner);
    let low = label_score(freq, scoring, features, other);
    low.below(high) || (low.same(high) && other < winner)
}

/// Whether `label` is at the top of the ranking: it is known, and it stands
/// above every other known label.
pub open spec fn top_ranked(
    freq: Frequencies,
    scoring: Scoring,
    features: Seq<Feature>,
    label: Label,
) -> bool {
    &&& freq.knows(label)
    &&& forall|other: Label|
        freq.knows(other) && other != label ==> #[trigger] ranks_above(
            freq,
            scoring,
            features,
            label,
            other,
        )
}

/// The denominator of a label's score is never zero.
pub proof fn lemma_score_denominator_positive(
    freq: Frequencies,
    scoring: Scoring,
    features: Seq<Feature>,
    label: Label,
)
    ensures
        label_score(freq, scoring, features, label).denominator > 0,
    decreases features.len(),
{
    if features.len() > 0 {
        lemma_score_denominator_positive(freq, scoring, features.drop_last(), label);
        let so_far = label_score(freq, scoring, features.drop_last(), label).denominator;
        let likely = freq.label_count(label) + 1;
        let share = freq.label_probability(label).denominator;
        assert(so_far * likely > 0) by (nonlinear_arith)
            requires
                so_far > 0,
                likely > 0,
        ;
        assert((so_far * likely) * share > 0) by (nonlinear_arith)
            requires
                so_far * likely > 0,
                share > 0,
        ;
    }
}

/// Of three fractions with denominators that are not zero: where the first
/// is not above the second and the second not above the third, the first is
/// not above the third.
pub proof fn lemma_not_above_chains(first: Fraction, second: Fraction, third: Fraction)
    requires
        first.denominator > 0,
        second.denominator > 0,
        third.denominator > 0,
        !second.below(first),
        !third.below(second),
    ensures
        !third.below(first),
{
    let (a, b) = (first.numerator as int, first.denominator as int);
    let (c, d) = (second.numerator as int, second.denominator as int);
    let (e, f) = (third.numerator as int, third.denominator as int);
    assert((a * d) * f <= (c * b) * f) by (nonlinear_arith)
        requires
            a * d <= c * b,
            f > 0,
    ;
    assert((c * f) * b <= (e * d) * b) by (nonlinear_arith)
        requires
            c * f <= e * d,
            b > 0,
    ;
    assert((a * d) * f == (a * f) * d) by (nonlinear_arith);
    assert((c * b) * f == (c * f) * b) by (nonlinear_arith);
    assert((e * d) * b == (e * b) * d) by (nonlinear_arith);
    assert(a * f <= e * b) by (nonlinear_arith)
        requires
            (a * f) * d <= (e * b) * d,
            d > 0,
    ;
}

} // verus!
