//! The counts that the classifier learns: labels, and features with labels.

use crate::extract::Feature;
use crate::gather::{gather, lemma_gather_prefix, lemma_gather_step};
use crate::label_histogram::{Label, LabelHistogram};
use crate::score::Fraction;
use crate::tally::{tally_bump, tally_contents, tally_count, tally_new, LabelTally};
use std::collections::hash_map::Entry;
use std::collections::HashMap;
use vstd::multiset::Multiset;
use vstd::prelude::*;

verus! {

/// How often `feature` occurs among `features`.
pub open spec fn occurrences(features: Seq<Feature>, feature: Feature) -> nat
    decreases features.len(),
{
    if features.len() == 0 {
        0
    } else {
        occurrences(features.drop_last(), feature) + if features.last() == feature {
            1nat
        } else {
            0nat
        }
    }
}

/// What one feature adds under `label`: the pair of the two, once.
pub open spec fn pair_with(label: Label) -> spec_fn(Feature) -> Multiset<(Feature, Label)> {
    |feature: Feature| Multiset::singleton((feature, label))
}

/// The pairs that one example adds: each of its features, as often as it
/// occurs, with the example's label.
pub open spec fn example_pairs(features: Seq<Feature>, label: Label) -> Multiset<(Feature, Label)> {
    gather(features, pair_with(label))
}

/// An example adds a feature with the example's label as often as the
/// feature occurs in the example, and adds nothing with another label.
pub proof fn lemma_example_pairs_count(
    features: Seq<Feature>,
    label: Label,
    feature: Feature,
    other: Label,
)
    ensures
        example_pairs(features, label).count((feature, other)) == (if other == label {
            occurrences(features, feature)
        } else {
            0
        }),
    decreases features.len(),
{
    if features.len() > 0 {
        lemma_example_pairs_count(features.drop_last(), label, feature, other);
    }
}

/// A feature occurs in a sequence no more often than the sequence is long,
/// and not at all where the sequence does not hold it.
pub proof fn lemma_occurrences_bounds(features: Seq<Feature>, feature: Feature)
    ensures
        occurrences(features, feature) <= features.len(),
        !features.contains(feature) ==> occurrences(features, feature) == 0,
        features.no_duplicates() ==> occurrences(features, feature) <= 1,
    decreases features.len(),
{
    if features.len() > 0 {
        let rest = features.drop_last();
        lemma_occurrences_bounds(rest, feature);
    }
}

/// What a frequency store has counted, as two multisets: one entry of
/// `labels` for each labelled example, and one entry of `pairs` for each
/// feature found in an example, paired with that example's label.
#[verifier::ext_equal]
pub struct Frequencies {
    pub labels: Multiset<Label>,
    pub pairs: Multiset<(Feature, Label)>,
}

impl Frequencies {
    /// The frequencies of a store that has counted nothing.
    pub open spec fn empty() -> Frequencies {
        Frequencies { labels: Multiset::empty(), pairs: Multiset::empty() }
    }

    /// How often `label` was seen.
    pub open spec fn label_count(self, label: Label) -> nat {
        self.labels.count(label)
    }

    /// How many labelled examples were seen in all.
    pub open spec fn total(self) -> nat {
        self.labels.len()
    }

    /// How often `feature` was seen in an example labelled `label`.
    pub open spec fn feature_label_count(self, feature: Feature, label: Label) -> nat {
        self.pairs.count((feature, label))
    }

    /// The share of `label` among all examples seen: zero where none was
    /// seen yet.
    pub open spec fn label_probability(self, label: Label) -> Fraction {
        if self.total() == 0 {
            Fraction { numerator: 0, denominator: 1 }
        } else {
            Fraction { numerator: self.label_count(label), denominator: self.total() }
        }
    }

    /// A label is known once it was seen.
    pub open spec fn knows(self, label: Label) -> bool {
        self.labels.count(label) > 0
    }

    /// Whether no feature was counted with a label more often than the label
    /// itself was counted.
    pub open spec fn consistent(self) -> bool {
        forall|feature: Feature, label: Label|
            self.feature_label_count(feature, label) <= self.label_count(label)
    }

    /// The frequencies after `label` was seen once more.
    pub open spec fn with_label(self, label: Label) -> Frequencies {
        Frequencies { labels: self.labels.insert(label), pairs: self.pairs }
    }

    /// The frequencies after `feature` was seen once more with `label`.
    pub open spec fn with_pair(self, feature: Feature, label: Label) -> Frequencies {
        Frequencies { labels: self.labels, pairs: self.pairs.insert((feature, label)) }
    }

    /// The frequencies after one more example, with the given features and
    /// label, was seen.
    pub open spec fn observed(self, features: Seq<Feature>, label: Label) -> Frequencies {
        Frequencies {
            labels: self.labels.insert(label),
            pairs: self.pairs.add(example_pairs(features, label)),
        }
    }

    /// Whether one more example with the given features and label can be
    /// counted without a counter passing `usize::MAX`.
    pub open spec fn fits(self, features: Seq<Feature>, label: Label) -> bool {
        &&& self.total() < usize::MAX
        &&& forall|feature: Feature|
            self.feature_label_count(feature, label) + #[trigger] occurrences(features, feature)
                <= usize::MAX
    }
}

/// A fraction of two counts.
#[derive(Clone, Copy, Debug, PartialEq, Eq, Structural)]
pub struct Ratio {
    pub numerator: usize,
    pub denominator: usize,
}

impl View for Ratio {
    type V = Fraction;

    open spec fn view(&self) -> Fraction {
        Fraction { numerator: self.numerator as nat, denominator: self.denominator as nat }
    }
}

/// The counts of a classifier: how often each label was seen, and for each
/// feature how often it was seen with each label.
pub struct FrequencyStore {
    labels: LabelHistogram,
    by_feature: HashMap<Feature, LabelTally>,
    pairs: Ghost<Multiset<(Feature, Label)>>,
}

impl View for FrequencyStore {
    type V = Frequencies;

    closed spec fn view(&self) -> Frequencies {
        Frequencies { labels: self.labels@, pairs: self.pairs@ }
    }
}

/// Whether the tally kept for a feature holds each label as often as
/// `pairs` holds it with that feature, and every count fits a counter.
spec fn tallies_hold(
    by_feature: Map<Feature, LabelTally>,
    pairs: Multiset<(Feature, Label)>,
) -> bool {
    forall|feature: Feature, label: Label| #[trigger]
        pairs.count((feature, label)) <= usize::MAX && pairs.count((feature, label)) == (
        if by_feature.contains_key(feature) {
            tally_contents(by_feature[feature]).count(label)
        } else {
            0
        })
}

/// Counts `label` once more in the tally of `feature`, which is made where
/// the feature has none yet.
fn bump_tally(
    by_feature: &mut HashMap<Feature, LabelTally>,
    feature: &Feature,
    label: &Label,
    Ghost(pairs): Ghost<Multiset<(Feature, Label)>>,
)
    requires
        tallies_hold(old(by_feature)@, pairs),
        pairs.count((*feature, *label)) < usize::MAX,
    ensures
        tallies_hold(final(by_feature)@, pairs.insert((*feature, *label))),
{
    match by_feature.entry(*feature) {
        Entry::Occupied(mut occupied) => {
            tally_bump(occupied.get_mut(), label);
        },
        Entry::Vacant(vacant) => {
            tally_bump(vacant.insert(tally_new()), label);
        },
    }
}

impl FrequencyStore {
    /// The tallies hold what the view says.
    #[verifier::type_invariant]
    spec fn well_formed(&self) -> bool {
        tallies_hold(self.by_feature@, self.pairs@)
    }

    /// A store that has counted nothing.
    pub fn new() -> (store: Self)
        ensures
            store@ == Frequencies::empty(),
    {
        FrequencyStore {
            labels: LabelHistogram::new(),
            by_feature: HashMap::new(),
            pairs: Ghost(Multiset::empty()),
        }
    }

    /// Counts one more example labelled `label`.
    pub fn bump_label(&mut self, label: &Label)
        requires
            old(self)@.total() < usize::MAX,
        ensures
            final(self)@ == old(self)@.with_label(*label),
    {
        proof {
            use_type_invariant(&*self);
        }
        let mut labels = LabelHistogram::new();
        std::mem::swap(&mut labels, &mut self.labels);
        labels.bump(label);
        self.labels = labels;
    }

    /// Counts `feature` once more under `label`.
    pub fn bump_feature_label(&mut self, feature: &Feature, label: &Label)
        requires
            old(self)@.feature_label_count(*feature, *label) < usize::MAX,
        ensures
            final(self)@ == old(self)@.with_pair(*feature, *label),
    {
        proof {
            use_type_invariant(&*self);
        }
        let mut taken = FrequencyStore::new();
        std::mem::swap(self, &mut taken);
        let FrequencyStore { labels, mut by_feature, pairs } = taken;
        bump_tally(&mut by_feature, feature, label, pairs);
        *self = FrequencyStore {
            labels,
            by_feature,
            pairs: Ghost(pairs@.insert((*feature, *label))),
        };
    }

    /// Whether one more example with the given features and label can be
    /// counted without a counter passing `usize::MAX`.
    pub fn fits(&self, features: &Vec<Feature>, label: &Label) -> (room: bool)
        ensures
            room == self@.fits(features@, *label),
    {
        proof {
            use_type_invariant(self);
        }
        if self.total() == usize::MAX {
            return false;
        }
        let mut at: usize = 0;
        while at < features.len()
            invariant
                0 <= at <= features.len(),
                forall|i: int|
                    0 <= i < at ==> self@.feature_label_count(features@[i], *label) + occurrences(
                        features@,
                        #[trigger] features@[i],
                    ) <= usize::MAX,
            decreases features.len() - at,
        {
            let count = self.feature_label_count(&features[at], label);
            proof {
                lemma_occurrences_bounds(features@, features@[at as int]);
            }
            if count > usize::MAX - features.len() {
                let times = count_occurrences(features, &features[at]);
                if count > usize::MAX - times {
                    return false;
                }
            }
            at = at + 1;
        }
        proof {
            assert forall|feature: Feature|
                self@.feature_label_count(feature, *label) + #[trigger] occurrences(
                    features@,
                    feature,
                ) <= usize::MAX by {
                lemma_occurrences_bounds(features@, feature);
            }
        }
        true
    }

    /// Counts one more example: its label once, and each of its features,
    /// as often as it occurs, once with that label.
    pub fn observe(&mut self, features: &Vec<Feature>, label: &Label)
        requires
            old(self)@.fits(features@, *label),
        ensures
            final(self)@ == old(self)@.observed(features@, *label),
    {
        proof {
            use_type_invariant(&*self);
        }
        let ghost before = self@;
        let mut taken = FrequencyStore::new();
        std::mem::swap(self, &mut taken);
        let FrequencyStore { mut labels, mut by_feature, pairs } = taken;
        labels.bump(label);
        let ghost mut counted = pairs@;
        let mut at: usize = 0;
        while at < features.len()
            invariant
                0 <= at <= features.len(),
                before.fits(features@, *label),
                tallies_hold(by_feature@, counted),
                counted == before.pairs.add(example_pairs(features@.take(at as int), *label)),
            decreases features.len() - at,
        {
            proof {
                let feature = features@[at as int];
                lemma_gather_step(features@, pair_with(*label), at as int);
                lemma_gather_prefix(features@, pair_with(*label), at + 1);
                lemma_example_pairs_count(features@, *label, feature, *label);
            }
            bump_tally(&mut by_feature, &features[at], label, Ghost(counted));
            proof {
                counted = counted.insert((features@[at as int], *label));
            }
            at = at + 1;
        }
        proof {
            assert(features@.take(at as int) =~= features@);
        }
        *self = FrequencyStore { labels, by_feature, pairs: Ghost(counted) };
    }

    /// How often `label` was seen.
    pub fn label_count(&self, label: &Label) -> (count: usize)
        ensures
            count == self@.label_count(*label),
    {
        self.labels.count(label)
    }

    /// How many labelled examples were seen in all.
    pub fn total(&self) -> (total: usize)
        ensures
            total == self@.total(),
    {
        self.labels.len()
    }

    /// The share of `label` among all examples seen, as the fraction of its
    /// count and the total; zero over one where no example was seen yet.
    pub fn label_probability(&self, label: &Label) -> (share: Ratio)
        ensures
            share@ == self@.label_probability(*label),
    {
        let total = self.labels.len();
        if total == 0 {
            Ratio { numerator: 0, denominator: 1 }
        } else {
            Ratio { numerator: self.labels.count(label), denominator: total }
        }
    }

    /// How often `feature` was seen with `label`: zero where the feature was
    /// never seen, or never with this label.
    pub fn feature_label_count(&self, feature: &Feature, label: &Label) -> (count: usize)
        ensures
            count == self@.feature_label_count(*feature, *label),
    {
        proof {
            use_type_invariant(self);
        }
        match self.by_feature.get(feature) {
            Some(tally) => tally_count(tally, label),
            None => 0,
        }
    }

    /// The labels seen at least once, in ascending order.
    pub fn known_labels(&self) -> (labels: Vec<Label>)
        ensures
            forall|i: int, j: int| 0 <= i < j < labels.len() ==> labels[i] < labels[j],
            forall|label: Label| labels@.contains(label) <==> self@.knows(label),
    {
        self.labels.labels()
    }
}

/// How often `feature` occurs among `features`.
fn count_occurrences(features: &Vec<Feature>, feature: &Feature) -> (times: usize)
    ensures
        times == occurrences(features@, *feature),
{
    let mut times: usize = 0;
    let mut at: usize = 0;
    while at < features.len()
        invariant
            0 <= at <= features.len(),
            times <= at,
            times == occurrences(features@.take(at as int), *feature),
        decreases features.len() - at,
    {
        proof {
            assert(features@.take(at + 1).drop_last() =~= features@.take(at as int));
        }
        if features[at] == *feature {
            times = times + 1;
        }
        at = at + 1;
    }
    proof {
        assert(features@.take(at as int) =~= features@);
    }
    times
}

} // verus!
