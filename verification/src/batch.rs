//! What a batch of labelled examples adds to the frequencies.

use crate::extract::{Feature, NaiveBayesExtractor};
use crate::frequency_store::{
    example_pairs, lemma_example_pairs_count, lemma_occurrences_bounds, occurrences, Frequencies,
};
use crate::gather::{gather, lemma_gather_prefix, lemma_gather_step};
use crate::label_histogram::Label;
use vstd::multiset::Multiset;
use vstd::prelude::*;

verus! {

/// What one example adds to the labels: its label, once.
pub open spec fn label_of<V>() -> spec_fn((Label, V)) -> Multiset<Label> {
    |example: (Label, V)| Multiset::singleton(example.0)
}

/// What one example adds to the pairs, under a given extractor.
pub open spec fn pairs_of<E: NaiveBayesExtractor>(extractor: E) -> spec_fn(
    (Label, E::InputValue),
) -> Multiset<(Feature, Label)> {
    |example: (Label, E::InputValue)| example_pairs(extractor.features(&example.1), example.0)
}

/// The labels of a batch of examples, one entry for each example.
pub open spec fn batch_labels<V>(batch: Seq<(Label, V)>) -> Multiset<Label> {
    gather(batch, label_of::<V>())
}

/// The pairs that a batch of examples adds, under a given extractor.
pub open spec fn batch_pairs<E: NaiveBayesExtractor>(
    extractor: E,
    batch: Seq<(Label, E::InputValue)>,
) -> Multiset<(Feature, Label)> {
    gather(batch, pairs_of(extractor))
}

/// Whether the extractor finds no feature twice in one example of a batch.
pub open spec fn distinct_features<E: NaiveBayesExtractor>(
    extractor: E,
    batch: Seq<(Label, E::InputValue)>,
) -> bool {
    forall|i: int|
        0 <= i < batch.len() ==> (#[trigger] extractor.features(&batch[i].1)).no_duplicates()
}

/// The frequencies after training on a batch: the batch's labels and pairs
/// are added to what was counted before.
pub open spec fn trained<E: NaiveBayesExtractor>(
    before: Frequencies,
    extractor: E,
    batch: Seq<(Label, E::InputValue)>,
) -> Frequencies {
    Frequencies {
        labels: before.labels.add(batch_labels(batch)),
        pairs: before.pairs.add(batch_pairs(extractor, batch)),
    }
}

/// Whether a whole batch can be counted without a counter passing
/// `usize::MAX`.
pub open spec fn batch_fits<E: NaiveBayesExtractor>(
    before: Frequencies,
    extractor: E,
    batch: Seq<(Label, E::InputValue)>,
) -> bool {
    &&& before.total() + batch.len() <= usize::MAX
    &&& forall|feature: Feature, label: Label|
        before.feature_label_count(feature, label) + #[trigger] batch_pairs(
            extractor,
            batch,
        ).count((feature, label)) <= usize::MAX
}

/// Whether, once the first `at` examples of a batch are counted, the
/// example at `at` can be counted without a counter passing `usize::MAX`.
pub open spec fn room_at<E: NaiveBayesExtractor>(
    before: Frequencies,
    extractor: E,
    batch: Seq<(Label, E::InputValue)>,
    at: int,
) -> bool {
    trained(before, extractor, batch.take(at)).fits(
        extractor.features(&batch[at].1),
        batch[at].0,
    )
}

/// A batch has as many labels as it has examples.
pub proof fn lemma_batch_labels_len<V>(batch: Seq<(Label, V)>)
    ensures
        batch_labels(batch).len() == batch.len(),
    decreases batch.len(),
{
    if batch.len() > 0 {
        lemma_batch_labels_len(batch.drop_last());
    }
}

/// Training on one example more is observing that example after training
/// on those before it.
pub proof fn lemma_trained_step<E: NaiveBayesExtractor>(
    before: Frequencies,
    extractor: E,
    batch: Seq<(Label, E::InputValue)>,
    at: int,
)
    requires
        0 <= at < batch.len(),
    ensures
        trained(before, extractor, batch.take(at + 1)) == trained(
            before,
            extractor,
            batch.take(at),
        ).observed(extractor.features(&batch[at].1), batch[at].0),
{
    lemma_gather_step(batch, label_of::<E::InputValue>(), at);
    lemma_gather_step(batch, pairs_of(extractor), at);
}

/// Where a whole batch can be counted, each of its examples can be counted
/// in its turn.
pub proof fn lemma_room_throughout<E: NaiveBayesExtractor>(
    before: Frequencies,
    extractor: E,
    batch: Seq<(Label, E::InputValue)>,
    at: int,
)
    requires
        batch_fits(before, extractor, batch),
        0 <= at < batch.len(),
    ensures
        room_at(before, extractor, batch, at),
{
    let so_far = trained(before, extractor, batch.take(at));
    let found = extractor.features(&batch[at].1);
    let label = batch[at].0;
    lemma_batch_labels_len(batch.take(at));
    lemma_gather_step(batch, pairs_of(extractor), at);
    lemma_gather_prefix(batch, pairs_of(extractor), at + 1);
    assert forall|feature: Feature|
        so_far.feature_label_count(feature, label) + #[trigger] occurrences(found, feature)
            <= usize::MAX by {
        lemma_example_pairs_count(found, label, feature, label);
        assert(batch_pairs(extractor, batch.take(at + 1)).count((feature, label)) <= batch_pairs(
            extractor,
            batch,
        ).count((feature, label)));
    }
}

/// A batch whose examples have no feature twice pairs a feature with a
/// label no more often than it holds that label.
pub proof fn lemma_batch_pairs_within_labels<E: NaiveBayesExtractor>(
    extractor: E,
    batch: Seq<(Label, E::InputValue)>,
    feature: Feature,
    label: Label,
)
    requires
        distinct_features(extractor, batch),
    ensures
        batch_pairs(extractor, batch).count((feature, label)) <= batch_labels(batch).count(label),
    decreases batch.len(),
{
    if batch.len() > 0 {
        let rest = batch.drop_last();
        let last = batch.last();
        lemma_batch_pairs_within_labels(extractor, rest, feature, label);
        let found = extractor.features(&last.1);
        lemma_example_pairs_count(found, last.0, feature, label);
        lemma_occurrences_bounds(found, feature);
    }
}

} // verus!
