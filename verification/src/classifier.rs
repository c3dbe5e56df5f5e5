//! The classifier: training on batches of examples, and ranking the known
//! labels for an example.

use crate::batch::{
    batch_fits, distinct_features, lemma_batch_labels_len, lemma_room_throughout,
    lemma_trained_step, room_at, trained,
};
use crate::extract::{Feature, NaiveBayesExtractor};
use crate::frequency_store::{Frequencies, FrequencyStore, Ratio};
use crate::label_histogram::Label;
use crate::laws::law_count_consistency;
use crate::ranking::cmp_w_label;
use crate::score::Score;
use crate::scoring::{
    label_score, lemma_not_above_chains, lemma_score_denominator_positive, ranks_above,
    score_denominators, score_numerators, top_ranked, Scoring,
};
use std::cmp::Ordering;
use vstd::multiset::lemma_multiset_empty_len;
use vstd::prelude::*;

verus! {

/// Why a classifier gave no label.
#[derive(Clone, Copy, Debug, PartialEq, Eq, Structural)]
pub enum ClassifyError {
    /// The classifier has not seen any example yet.
    Untrained,
}

/// A naive Bayes classifier that learns from labelled examples, a batch at
/// a time.
pub struct NaiveBayes<E: NaiveBayesExtractor> {
    extractor: E,
    counts: FrequencyStore,
    scoring: Scoring,
}

impl<E: NaiveBayesExtractor> View for NaiveBayes<E> {
    type V = Frequencies;

    /// What the classifier has counted so far.
    closed spec fn view(&self) -> Frequencies {
        self.counts@
    }
}

impl<E: NaiveBayesExtractor> NaiveBayes<E> {
    /// The extractor that the classifier was made with.
    pub closed spec fn extractor(&self) -> E {
        self.extractor
    }

    /// The scoring that the classifier was made with.
    pub closed spec fn scoring(&self) -> Scoring {
        self.scoring
    }

    /// An untrained classifier that weighs each feature by the label's prior.
    pub fn new(extractor: E) -> (classifier: Self)
        ensures
            classifier@ == Frequencies::empty(),
            classifier.extractor() == extractor,
            classifier.scoring() == Scoring::PriorWeighted,
    {
        NaiveBayes { extractor, counts: FrequencyStore::new(), scoring: Scoring::PriorWeighted }
    }

    /// An untrained classifier with the scoring of the caller's choice.
    pub fn with_scoring(extractor: E, scoring: Scoring) -> (classifier: Self)
        ensures
            classifier@ == Frequencies::empty(),
            classifier.extractor() == extractor,
            classifier.scoring() == scoring,
    {
        NaiveBayes { extractor, counts: FrequencyStore::new(), scoring }
    }

    /// What the classifier has counted so far.
    pub fn counts(&self) -> (counts: &FrequencyStore)
        ensures
            counts@ == self@,
    {
        &self.counts
    }

    /// The features that the classifier's extractor finds in `example`.
    pub fn features_of(&self, example: &E::InputValue) -> (found: Vec<Feature>)
        ensures
            found@ == self.extractor().features(example),
    {
        self.extractor.extract(example)
    }

    /// Learns from a batch of labelled examples: each example counts its
    /// label once, and each of its features once with that label, so that no
    /// count is lowered. The features of an example are extracted before
    /// anything is counted for it. No counter may pass `usize::MAX`.
    pub fn train(&mut self, training: &Vec<(Label, E::InputValue)>)
        requires
            batch_fits(old(self)@, old(self).extractor(), training@),
        ensures
            final(self).extractor() == old(self).extractor(),
            final(self).scoring() == old(self).scoring(),
            final(self)@ == trained(old(self)@, old(self).extractor(), training@),
            final(self)@.total() == old(self)@.total() + training.len(),
            forall|label: Label| #[trigger]
                final(self)@.label_count(label) >= old(self)@.label_count(label),
            forall|feature: Feature, label: Label| #[trigger]
                final(self)@.feature_label_count(feature, label) >= old(self)@.feature_label_count(
                    feature,
                    label,
                ),
            old(self)@.consistent() && distinct_features(old(self).extractor(), training@)
                ==> final(self)@.consistent(),
    {
        let ghost before = self@;
        let ghost extractor = self.extractor();
        let mut done: usize = 0;
        while done < training.len()
            invariant
                0 <= done <= training.len(),
                self.extractor() == extractor,
                self.scoring() == old(self).scoring(),
                self@ == trained(before, extractor, training@.take(done as int)),
                batch_fits(before, extractor, training@),
            decreases training.len() - done,
        {
            let features = self.extractor.extract(&training[done].1);
            proof {
                lemma_room_throughout(before, extractor, training@, done as int);
                lemma_trained_step(before, extractor, training@, done as int);
            }
            self.counts.observe(&features, &training[done].0);
            done = done + 1;
        }
        proof {
            assert(training@.take(done as int) =~= training@);
            lemma_batch_labels_len(training@);
            if before.consistent() && distinct_features(extractor, training@) {
                law_count_consistency(before, extractor, training@);
            }
        }
    }

    /// Learns from the examples of a batch in their order, as `train` does,
    /// up to the first example that cannot be counted without a counter
    /// passing `usize::MAX`, and says how many examples it has learned from.
    pub fn train_while_room(&mut self, training: &Vec<(Label, E::InputValue)>) -> (learned: usize)
        ensures
            final(self).extractor() == old(self).extractor(),
            final(self).scoring() == old(self).scoring(),
            learned <= training.len(),
            final(self)@ == trained(
                old(self)@,
                old(self).extractor(),
                training@.take(learned as int),
            ),
            forall|at: int|
                0 <= at < learned ==> #[trigger] room_at(
                    old(self)@,
                    old(self).extractor(),
                    training@,
                    at,
                ),
            learned < training.len() ==> !room_at(
                old(self)@,
                old(self).extractor(),
                training@,
                learned as int,
            ),
            batch_fits(old(self)@, old(self).extractor(), training@) ==> learned == training.len(),
    {
        let ghost before = self@;
        let ghost extractor = self.extractor();
        let mut done: usize = 0;
        while done < training.len()
            invariant
                0 <= done <= training.len(),
                before == old(self)@,
                extractor == old(self).extractor(),
                self.extractor() == extractor,
                self.scoring() == old(self).scoring(),
                self@ == trained(before, extractor, training@.take(done as int)),
                forall|at: int|
                    0 <= at < done ==> #[trigger] room_at(before, extractor, training@, at),
            decreases training.len() - done,
        {
            let features = self.extractor.extract(&training[done].1);
            if !self.counts.fits(&features, &training[done].0) {
                proof {
                    if batch_fits(before, extractor, training@) {
                        lemma_room_throughout(before, extractor, training@, done as int);
                    }
                }
                return done;
            }
            proof {
                lemma_trained_step(before, extractor, training@, done as int);
            }
            self.counts.observe(&features, &training[done].0);
            done = done + 1;
        }
        done
    }

    /// The share of `label` among all examples seen so far.
    pub fn p_label(&self, label: &Label) -> (share: Ratio)
        ensures
            share@ == self@.label_probability(*label),
    {
        self.counts.label_probability(label)
    }

    /// The score of `label` for the given features.
    pub fn score(&self, features: &Vec<Feature>, label: &Label) -> (score: Score)
        ensures
            score@ == label_score(self@, self.scoring(), features@, *label),
            score.numerator_factors() == score_numerators(
                self@,
                self.scoring(),
                features@,
                *label,
            ),
            score.denominator_factors() == score_denominators(
                self@,
                self.scoring(),
                features@,
                *label,
            ),
    {
        let label_total: u128 = self.counts.label_count(label) as u128 + 1;
        let share = self.counts.label_probability(label);
        let mut score = Score::one();
        let mut at: usize = 0;
        while at < features.len()
            invariant
                0 <= at <= features.len(),
                label_total == self@.label_count(*label) + 1,
                share@ == self@.label_probability(*label),
                score@ == label_score(self@, self.scoring(), features@.take(at as int), *label),
                score.numerator_factors() == score_numerators(
                    self@,
                    self.scoring(),
                    features@.take(at as int),
                    *label,
                ),
                score.denominator_factors() == score_denominators(
                    self@,
                    self.scoring(),
                    features@.take(at as int),
                    *label,
                ),
            decreases features.len() - at,
        {
            let joint: u128 = self.counts.feature_label_count(&features[at], label) as u128 + 1;
            proof {
                assert(features@.take(at + 1).drop_last() =~= features@.take(at as int));
            }
            score.weigh(joint, label_total);
            match self.scoring {
                Scoring::Likelihood => {},
                Scoring::PriorWeighted => {
                    score.weigh(share.numerator as u128, share.denominator as u128);
                },
            }
            at = at + 1;
        }
        proof {
            assert(features@.take(at as int) =~= features@);
        }
        score
    }

    /// Ranks the known labels by their scores for the given features and
    /// gives the one at the top: the label with the highest score, and of
    /// several with that score the greatest. Fails where no label is known.
    pub fn classify_features(&self, features: &Vec<Feature>) -> (result: Result<
        Label,
        ClassifyError,
    >)
        ensures
            result is Err <==> self@.total() == 0,
            result matches Ok(label) ==> top_ranked(self@, self.scoring(), features@, label),
            result matches Err(error) ==> error == ClassifyError::Untrained,
    {
        let labels = self.counts.known_labels();
        proof {
            lemma_multiset_empty_len(self@.labels);
            if labels.len() == 0 && self@.total() > 0 {
                let seen = choose|label: Label| 0 < self@.labels.count(label);
                assert(labels@.contains(seen));
            }
        }
        if labels.len() == 0 {
            return Err(ClassifyError::Untrained);
        }
        let mut best_at: usize = 0;
        let mut best_score = self.score(features, &labels[0]);
        let mut at: usize = 1;
        while at < labels.len()
            invariant
                0 <= best_at < at <= labels.len(),
                best_score@ == label_score(
                    self@,
                    self.scoring(),
                    features@,
                    labels@[best_at as int],
                ),
                forall|i: int, j: int| 0 <= i < j < labels.len() ==> labels[i] < labels[j],
                forall|j: int|
                    0 <= j < at && j != best_at ==> #[trigger] ranks_above(
                        self@,
                        self.scoring(),
                        features@,
                        labels@[best_at as int],
                        labels@[j],
                    ),
            decreases labels.len() - at,
        {
            let score = self.score(features, &labels[at]);
            if !scored_below(&(&score, labels[at]), &(&best_score, labels[best_at])) {
                proof {
                    let freq = self@;
                    let scoring = self.scoring();
                    lemma_score_denominator_positive(freq, scoring, features@, labels@[at as int]);
                    lemma_score_denominator_positive(
                        freq,
                        scoring,
                        features@,
                        labels@[best_at as int],
                    );
                    assert forall|j: int| 0 <= j < at + 1 && j != at implies #[trigger] ranks_above(
                        freq,
                        scoring,
                        features@,
                        labels@[at as int],
                        labels@[j],
                    ) by {
                        let low = label_score(freq, scoring, features@, labels@[j]);
                        if j != best_at {
                            assert(ranks_above(
                                freq,
                                scoring,
                                features@,
                                labels@[best_at as int],
                                labels@[j],
                            ));
                            lemma_score_denominator_positive(freq, scoring, features@, labels@[j]);
                            lemma_not_above_chains(low, best_score@, score@);
                        }
                    }
                }
                best_at = at;
                best_score = score;
            }
            at = at + 1;
        }
        proof {
            assert(labels@.contains(labels@[best_at as int]));
        }
        Ok(labels[best_at])
    }

    /// Classifies an example: extracts its features and gives the label at
    /// the top of the ranking for them. Fails where no label is known.
    pub fn classify(&self, example: &E::InputValue) -> (result: Result<Label, ClassifyError>)
        ensures
            result is Err <==> self@.total() == 0,
            result matches Ok(label) ==> top_ranked(
                self@,
                self.scoring(),
                self.extractor().features(example),
                label,
            ),
            result matches Err(error) ==> error == ClassifyError::Untrained,
    {
        let features = self.extractor.extract(example);
        self.classify_features(&features)
    }
}

/// Whether the first scored label comes before the second where scored
/// labels are put in ascending order of their scores.
fn scored_below(first: &(&Score, Label), second: &(&Score, Label)) -> (below: bool)
    ensures
        below == first.0@.below(second.0@),
{
    match cmp_w_label(first, second) {
        Ordering::Less => true,
        _ => false,
    }
}

} // verus!
