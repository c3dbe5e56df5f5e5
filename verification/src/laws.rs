//! Laws of training and of ranking.

use crate::batch::{
    batch_labels, distinct_features, label_of, lemma_batch_pairs_within_labels, pairs_of, trained,
};
use crate::extract::{Feature, NaiveBayesExtractor};
use crate::frequency_store::{example_pairs, Frequencies};
use crate::gather::{lemma_gather_concat, lemma_gather_permutation};
use crate::label_histogram::Label;
use crate::scoring::{ranks_above, top_ranked, Scoring};
use vstd::multiset::{lemma_multiset_empty_len, Multiset};
use vstd::prelude::*;
use vstd::seq_lib::to_multiset_build;

verus! {

/// The labels of a batch are the labels of its examples, each as often as
/// the batch holds an example with it.
pub proof fn law_batch_labels<V>(batch: Seq<(Label, V)>)
    ensures
        batch_labels(batch) == batch.map_values(|example: (Label, V)| example.0).to_multiset(),
    decreases batch.len(),
{
    let label_in = |example: (Label, V)| example.0;
    if batch.len() == 0 {
        batch.map_values(label_in).to_multiset_ensures();
    } else {
        let rest = batch.drop_last();
        law_batch_labels(rest);
        to_multiset_build(rest.map_values(label_in), batch.last().0);
        assert(batch.map_values(label_in) =~= rest.map_values(label_in).push(batch.last().0));
    }
}

/// The pairs of an example are its features, each as often as it occurs,
/// paired with its label.
pub proof fn law_example_pairs(features: Seq<Feature>, label: Label)
    ensures
        example_pairs(features, label) == features.map_values(
            |feature: Feature| (feature, label),
        ).to_multiset(),
    decreases features.len(),
{
    let pair_in = |feature: Feature| (feature, label);
    if features.len() == 0 {
        features.map_values(pair_in).to_multiset_ensures();
    } else {
        let rest = features.drop_last();
        law_example_pairs(rest, label);
        to_multiset_build(rest.map_values(pair_in), (features.last(), label));
        assert(features.map_values(pair_in) =~= rest.map_values(pair_in).push(
            (features.last(), label),
        ));
    }
}

/// Count consistency. Where no feature was counted with a label more often
/// than the label itself, and the extractor finds no feature twice in one
/// example, training on a batch keeps it so.
pub proof fn law_count_consistency<E: NaiveBayesExtractor>(
    before: Frequencies,
    extractor: E,
    batch: Seq<(Label, E::InputValue)>,
)
    requires
        before.consistent(),
        distinct_features(extractor, batch),
    ensures
        trained(before, extractor, batch).consistent(),
{
    let after = trained(before, extractor, batch);
    assert forall|feature: Feature, label: Label|
        after.feature_label_count(feature, label) <= after.label_count(label) by {
        lemma_batch_pairs_within_labels(extractor, batch, feature, label);
        assert(before.feature_label_count(feature, label) <= before.label_count(label));
    }
}

/// The counts of the given labels, added up.
pub open spec fn sum_of_counts(freq: Frequencies, labels: Seq<Label>) -> nat
    decreases labels.len(),
{
    if labels.len() == 0 {
        0
    } else {
        sum_of_counts(freq, labels.drop_last()) + freq.label_count(labels.last())
    }
}

/// Taking one instance of a label out of the labels seen lowers the sum of
/// the counts by one where the label is among those summed over, and leaves
/// it where it is not.
proof fn lemma_sum_without_one(freq: Frequencies, labels: Seq<Label>, label: Label)
    requires
        labels.no_duplicates(),
        freq.label_count(label) > 0,
    ensures
        sum_of_counts(
            Frequencies { labels: freq.labels.remove(label), pairs: freq.pairs },
            labels,
        ) + (if labels.contains(label) {
            1nat
        } else {
            0nat
        }) == sum_of_counts(freq, labels),
    decreases labels.len(),
{
    if labels.len() > 0 {
        let rest = labels.drop_last();
        lemma_sum_without_one(freq, rest, label);
        if labels.contains(label) && labels.last() != label {
            let at = choose|at: int| 0 <= at < labels.len() && labels[at] == label;
            assert(rest[at] == label);
        }
    }
}

/// The total is the sum of the counts of the known labels: of any labels,
/// each named once, that leave no known label out.
pub proof fn law_total_is_sum_of_counts(freq: Frequencies, labels: Seq<Label>)
    requires
        labels.no_duplicates(),
        forall|label: Label| freq.knows(label) ==> labels.contains(label),
    ensures
        sum_of_counts(freq, labels) == freq.total(),
    decreases freq.total(),
{
    if freq.total() == 0 {
        lemma_sum_of_no_counts(freq, labels);
    } else {
        lemma_multiset_empty_len(freq.labels);
        let label = choose|label: Label| 0 < freq.labels.count(label);
        let fewer = Frequencies { labels: freq.labels.remove(label), pairs: freq.pairs };
        lemma_sum_without_one(freq, labels, label);
        law_total_is_sum_of_counts(fewer, labels);
    }
}

/// Where no label was seen, the counts add up to nothing.
proof fn lemma_sum_of_no_counts(freq: Frequencies, labels: Seq<Label>)
    requires
        freq.labels =~= Multiset::empty(),
    ensures
        sum_of_counts(freq, labels) == 0,
    decreases labels.len(),
{
    if labels.len() > 0 {
        lemma_sum_of_no_counts(freq, labels.drop_last());
    }
}

/// A classifier that has counted nothing is consistent and knows no label.
pub proof fn law_empty_frequencies()
    ensures
        Frequencies::empty().consistent(),
        Frequencies::empty().total() == 0,
        forall|label: Label| !Frequencies::empty().knows(label),
{
}

/// Monotonicity. Training on a batch lowers no count: not the count of a
/// label, not the count of a feature with a label, not the total.
pub proof fn law_training_never_lowers<E: NaiveBayesExtractor>(
    before: Frequencies,
    extractor: E,
    batch: Seq<(Label, E::InputValue)>,
    feature: Feature,
    label: Label,
)
    ensures
        trained(before, extractor, batch).label_count(label) >= before.label_count(label),
        trained(before, extractor, batch).feature_label_count(feature, label)
            >= before.feature_label_count(feature, label),
        trained(before, extractor, batch).total() >= before.total(),
{
}

/// Order invariance. Two batches that hold the same examples equally often
/// leave the same frequencies behind, whatever the order of their examples.
pub proof fn law_order_invariance<E: NaiveBayesExtractor>(
    before: Frequencies,
    extractor: E,
    first: Seq<(Label, E::InputValue)>,
    second: Seq<(Label, E::InputValue)>,
)
    requires
        first.to_multiset() == second.to_multiset(),
    ensures
        trained(before, extractor, first) == trained(before, extractor, second),
{
    lemma_gather_permutation(first, second, label_of::<E::InputValue>());
    lemma_gather_permutation(first, second, pairs_of(extractor));
}

/// Training on two batches in turn is training on the one batch made of
/// both.
pub proof fn law_training_in_turn<E: NaiveBayesExtractor>(
    before: Frequencies,
    extractor: E,
    first: Seq<(Label, E::InputValue)>,
    second: Seq<(Label, E::InputValue)>,
)
    ensures
        trained(trained(before, extractor, first), extractor, second) == trained(
            before,
            extractor,
            first + second,
        ),
{
    lemma_gather_concat(first, second, label_of::<E::InputValue>());
    lemma_gather_concat(first, second, pairs_of(extractor));
}

/// Determinism. At most one label is at the top of a ranking, so that the
/// same frequencies, scoring and features always give the same label.
pub proof fn law_one_top_ranked(
    freq: Frequencies,
    scoring: Scoring,
    features: Seq<Feature>,
    first: Label,
    second: Label,
)
    requires
        top_ranked(freq, scoring, features, first),
        top_ranked(freq, scoring, features, second),
    ensures
        first == second,
{
    if first != second {
        assert(ranks_above(freq, scoring, features, first, second));
        assert(ranks_above(freq, scoring, features, second, first));
    }
}

} // verus!
