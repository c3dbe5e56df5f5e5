use naive_bayes::{
    ClassifyError, Feature, FeatureSeq, Label, NaiveBayes, NaiveBayesExtractor, Ratio, Scoring,
};

struct Extractor {}

fn feature(name: char, value: i32) -> Feature {
    ((name as u64) << 32) | (value as u32 as u64)
}

fn label(name: char) -> Label {
    name as u64
}

impl NaiveBayesExtractor for Extractor {
    type InputValue = Vec<(char, i32)>;

    fn features(&self, _value: &Self::InputValue) -> FeatureSeq {
        unreachable!()
    }

    fn extract(&self, value: &Self::InputValue) -> Vec<Feature> {
        value.iter().map(|(name, value)| feature(*name, *value)).collect()
    }
}

/// Takes a list of features as it stands.
struct Plain {}

impl NaiveBayesExtractor for Plain {
    type InputValue = Vec<Feature>;

    fn features(&self, _value: &Self::InputValue) -> FeatureSeq {
        unreachable!()
    }

    fn extract(&self, value: &Self::InputValue) -> Vec<Feature> {
        value.clone()
    }
}

fn training() -> Vec<(Label, Vec<(char, i32)>)> {
    vec![
        (label('A'), vec![('X', 5), ('Y', 4)]),
        (label('A'), vec![('X', 5), ('Y', 2)]),
        (label('A'), vec![('X', 3), ('Y', 2)]),
        (label('B'), vec![('X', 4), ('Y', 4)]),
        (label('B'), vec![('X', 5), ('Y', 3)]),
    ]
}

fn trained(scoring: Scoring) -> NaiveBayes<Extractor> {
    let mut nb = NaiveBayes::with_scoring(Extractor {}, scoring);
    nb.train(&training());
    nb
}

#[test]
fn it_works() {
    let testing = vec![
        (label('A'), vec![('X', 5), ('Y', 2)]),
        (label('A'), vec![('X', 4), ('Y', 2)]),
        (label('B'), vec![('X', 4), ('Y', 1)]),
        (label('A'), vec![('X', 5), ('Y', 1)]),
        (label('B'), vec![('X', 2), ('Y', 3)]),
        (label('A'), vec![('X', 3), ('Y', 3)]),
    ];

    let mut nb = NaiveBayes::new(Extractor {});
    nb.train(&training());

    for (label, example) in testing.iter() {
        let result = nb.classify(example);
        println!("{label} {example:?} ? {result:?}");
        assert_eq!(result, Ok(*label));
    }
}

#[test]
fn classify_before_training_fails() {
    let nb = NaiveBayes::new(Extractor {});
    assert_eq!(nb.classify(&vec![('X', 5)]), Err(ClassifyError::Untrained));
    assert_eq!(nb.classify_features(&vec![]), Err(ClassifyError::Untrained));
    let plain = NaiveBayes::with_scoring(Extractor {}, Scoring::Likelihood);
    assert_eq!(plain.classify(&vec![]), Err(ClassifyError::Untrained));
}

#[test]
fn training_on_nothing_leaves_the_classifier_untrained() {
    let mut nb = NaiveBayes::new(Extractor {});
    nb.train(&vec![]);
    assert_eq!(nb.counts().total(), 0);
    assert_eq!(nb.classify(&vec![('X', 5)]), Err(ClassifyError::Untrained));
}

#[test]
fn worked_scenario() {
    let nb = trained(Scoring::PriorWeighted);
    assert_eq!(nb.classify(&vec![('X', 5), ('Y', 2)]), Ok(label('A')));
    assert_eq!(nb.classify(&vec![('X', 4), ('Y', 1)]), Ok(label('B')));
    assert_eq!(nb.classify(&vec![('X', 3), ('Y', 3)]), Ok(label('A')));
}

#[test]
fn counts_after_training() {
    let nb = trained(Scoring::PriorWeighted);
    let counts = nb.counts();
    assert_eq!(counts.total(), 5);
    assert_eq!(counts.label_count(&label('A')), 3);
    assert_eq!(counts.label_count(&label('B')), 2);
    assert_eq!(counts.label_count(&label('C')), 0);
    assert_eq!(counts.feature_label_count(&feature('X', 5), &label('A')), 2);
    assert_eq!(counts.feature_label_count(&feature('X', 5), &label('B')), 1);
    assert_eq!(counts.feature_label_count(&feature('Y', 2), &label('A')), 2);
    assert_eq!(counts.feature_label_count(&feature('Y', 2), &label('B')), 0);
    assert_eq!(counts.feature_label_count(&feature('Y', 1), &label('A')), 0);
    assert_eq!(counts.feature_label_count(&feature('X', 5), &label('C')), 0);
    assert_eq!(counts.known_labels(), vec![label('A'), label('B')]);
}

#[test]
fn p_label_is_the_share_of_a_label() {
    let nb = trained(Scoring::PriorWeighted);
    assert_eq!(nb.p_label(&label('A')), Ratio { numerator: 3, denominator: 5 });
    assert_eq!(nb.p_label(&label('B')), Ratio { numerator: 2, denominator: 5 });
    assert_eq!(nb.p_label(&label('C')), Ratio { numerator: 0, denominator: 5 });
}

#[test]
fn p_label_of_an_untrained_classifier_is_zero() {
    let nb = NaiveBayes::new(Extractor {});
    assert_eq!(nb.p_label(&label('A')), Ratio { numerator: 0, denominator: 1 });
}

#[test]
fn score_with_prior_has_two_factors_for_each_feature() {
    let nb = trained(Scoring::PriorWeighted);
    let features = vec![feature('X', 5), feature('Y', 2)];
    let a = nb.score(&features, &label('A'));
    assert_eq!(a.numerators(), &vec![3u128, 3, 3, 3]);
    assert_eq!(a.denominators(), &vec![4u128, 5, 4, 5]);
    let b = nb.score(&features, &label('B'));
    assert_eq!(b.numerators(), &vec![2u128, 2, 1, 2]);
    assert_eq!(b.denominators(), &vec![3u128, 5, 3, 5]);
    assert!(b.less_than(&a));
    assert!(!a.less_than(&b));
}

#[test]
fn score_without_prior_has_one_factor_for_each_feature() {
    let nb = trained(Scoring::Likelihood);
    let features = vec![feature('X', 3), feature('Y', 3)];
    let a = nb.score(&features, &label('A'));
    assert_eq!(a.numerators(), &vec![2u128, 1]);
    assert_eq!(a.denominators(), &vec![4u128, 4]);
    let b = nb.score(&features, &label('B'));
    assert_eq!(b.numerators(), &vec![1u128, 2]);
    assert_eq!(b.denominators(), &vec![3u128, 3]);
    // 2/16 is less than 2/9
    assert!(a.less_than(&b));
}

#[test]
fn an_unseen_feature_is_smoothed() {
    let nb = trained(Scoring::Likelihood);
    let score = nb.score(&vec![feature('Z', 9)], &label('A'));
    assert_eq!(score.numerators(), &vec![1u128]);
    assert_eq!(score.denominators(), &vec![4u128]);
    // one over four for 'A', one over three for 'B': the rarer label wins
    assert_eq!(nb.classify(&vec![('Z', 9)]), Ok(label('B')));
}

#[test]
fn score_of_no_features_is_one() {
    let nb = trained(Scoring::PriorWeighted);
    let score = nb.score(&vec![], &label('A'));
    assert!(score.numerators().is_empty());
    assert!(score.denominators().is_empty());
}

#[test]
fn the_scoring_decides_a_close_call() {
    let example = vec![('X', 3), ('Y', 3)];
    assert_eq!(trained(Scoring::PriorWeighted).classify(&example), Ok(label('A')));
    assert_eq!(trained(Scoring::Likelihood).classify(&example), Ok(label('B')));
}

#[test]
fn the_greatest_label_wins_a_tie() {
    let mut nb = NaiveBayes::new(Plain {});
    nb.train(&vec![(7, vec![1]), (3, vec![1]), (5, vec![1])]);
    assert_eq!(nb.classify(&vec![1]), Ok(7));
    assert_eq!(nb.classify(&vec![1, 1, 1]), Ok(7));
    // with no features every score is one
    assert_eq!(nb.classify(&vec![]), Ok(7));
}

#[test]
fn a_higher_score_beats_a_greater_label() {
    let mut nb = NaiveBayes::with_scoring(Plain {}, Scoring::Likelihood);
    nb.train(&vec![(3, vec![1]), (7, vec![2])]);
    assert_eq!(nb.classify(&vec![1]), Ok(3));
    assert_eq!(nb.classify(&vec![2]), Ok(7));
}

#[test]
fn a_single_label_is_always_given() {
    let mut nb = NaiveBayes::new(Plain {});
    nb.train(&vec![(4, vec![])]);
    assert_eq!(nb.classify(&vec![]), Ok(4));
    assert_eq!(nb.classify(&vec![9, 9, 8]), Ok(4));
}

#[test]
fn classifying_twice_gives_the_same_label() {
    let nb = trained(Scoring::PriorWeighted);
    for example in [vec![('X', 5), ('Y', 2)], vec![('X', 4), ('Y', 1)], vec![], vec![('Q', 0)]] {
        assert_eq!(nb.classify(&example), nb.classify(&example));
    }
}

#[test]
fn classifying_changes_no_count() {
    let nb = trained(Scoring::PriorWeighted);
    let _ = nb.classify(&vec![('X', 5), ('W', 1)]);
    assert_eq!(nb.counts().total(), 5);
    assert_eq!(nb.counts().feature_label_count(&feature('W', 1), &label('A')), 0);
    assert_eq!(nb.counts().feature_label_count(&feature('X', 5), &label('A')), 2);
}

#[test]
fn the_order_of_the_examples_does_not_matter() {
    let forward = trained(Scoring::PriorWeighted);
    let mut backward = NaiveBayes::new(Extractor {});
    let mut reversed = training();
    reversed.reverse();
    backward.train(&reversed);
    assert_eq!(forward.counts().total(), backward.counts().total());
    for l in [label('A'), label('B'), label('C')] {
        assert_eq!(forward.counts().label_count(&l), backward.counts().label_count(&l));
        for name in ['X', 'Y'] {
            for value in 0..7 {
                let f = feature(name, value);
                assert_eq!(
                    forward.counts().feature_label_count(&f, &l),
                    backward.counts().feature_label_count(&f, &l)
                );
            }
        }
    }
    for example in [vec![('X', 5), ('Y', 2)], vec![('X', 4), ('Y', 1)], vec![('X', 3), ('Y', 3)]] {
        assert_eq!(forward.classify(&example), backward.classify(&example));
    }
}

#[test]
fn training_in_two_batches_is_training_in_one() {
    let whole = trained(Scoring::PriorWeighted);
    let mut parts = NaiveBayes::new(Extractor {});
    let all = training();
    parts.train(&all[..2].to_vec());
    parts.train(&all[2..].to_vec());
    assert_eq!(parts.counts().total(), 5);
    for l in [label('A'), label('B')] {
        assert_eq!(whole.counts().label_count(&l), parts.counts().label_count(&l));
        assert_eq!(
            whole.counts().feature_label_count(&feature('X', 5), &l),
            parts.counts().feature_label_count(&feature('X', 5), &l)
        );
    }
}

#[test]
fn training_again_lowers_no_count() {
    let mut nb = trained(Scoring::PriorWeighted);
    let before_a = nb.counts().label_count(&label('A'));
    let before_b = nb.counts().label_count(&label('B'));
    let before_pair = nb.counts().feature_label_count(&feature('X', 5), &label('A'));
    nb.train(&vec![(label('B'), vec![('X', 5)]), (label('C'), vec![('Y', 9)])]);
    assert_eq!(nb.counts().label_count(&label('A')), before_a);
    assert_eq!(nb.counts().label_count(&label('B')), before_b + 1);
    assert_eq!(nb.counts().label_count(&label('C')), 1);
    assert_eq!(nb.counts().feature_label_count(&feature('X', 5), &label('A')), before_pair);
    assert_eq!(nb.counts().feature_label_count(&feature('X', 5), &label('B')), 2);
    assert_eq!(nb.counts().total(), 7);
    assert_eq!(nb.counts().known_labels(), vec![label('A'), label('B'), label('C')]);
}

#[test]
fn a_repeated_example_counts_again() {
    let mut nb = NaiveBayes::new(Plain {});
    nb.train(&vec![(1, vec![10, 11]), (1, vec![10, 11])]);
    assert_eq!(nb.counts().label_count(&1), 2);
    assert_eq!(nb.counts().feature_label_count(&10, &1), 2);
    assert_eq!(nb.counts().feature_label_count(&11, &1), 2);
}

#[test]
fn no_feature_is_counted_more_often_than_its_label() {
    let nb = trained(Scoring::PriorWeighted);
    for l in [label('A'), label('B')] {
        for name in ['X', 'Y'] {
            for value in 0..7 {
                assert!(
                    nb.counts().feature_label_count(&feature(name, value), &l)
                        <= nb.counts().label_count(&l)
                );
            }
        }
    }
}

#[test]
fn a_feature_found_twice_in_one_example_is_counted_twice() {
    let mut nb = NaiveBayes::new(Plain {});
    nb.train(&vec![(1, vec![7, 7])]);
    assert_eq!(nb.counts().label_count(&1), 1);
    assert_eq!(nb.counts().feature_label_count(&7, &1), 2);
}

#[test]
fn train_while_room_learns_a_whole_batch() {
    let mut nb = NaiveBayes::new(Extractor {});
    assert_eq!(nb.train_while_room(&training()), 5);
    assert_eq!(nb.counts().total(), 5);
    assert_eq!(nb.counts().feature_label_count(&feature('X', 5), &label('A')), 2);
    assert_eq!(nb.classify(&vec![('X', 4), ('Y', 1)]), Ok(label('B')));
    assert_eq!(nb.train_while_room(&vec![]), 0);
    assert_eq!(nb.counts().total(), 5);
}

#[test]
fn classify_features_ranks_what_it_is_given() {
    let nb = trained(Scoring::PriorWeighted);
    assert_eq!(nb.classify_features(&vec![feature('X', 5), feature('Y', 2)]), Ok(label('A')));
    assert_eq!(nb.classify_features(&vec![feature('X', 4), feature('Y', 1)]), Ok(label('B')));
}

#[test]
fn many_features_do_not_wear_the_scores_out() {
    // Four hundred unseen features drive both scores far below what a
    // 64-bit float can hold; the ranking still tells them apart.
    let mut nb = NaiveBayes::with_scoring(Plain {}, Scoring::Likelihood);
    let mut batch: Vec<(Label, Vec<Feature>)> = Vec::new();
    for _ in 0..8 {
        batch.push((1, vec![100]));
    }
    for _ in 0..9 {
        batch.push((2, vec![100]));
    }
    nb.train(&batch);
    // one ninth to the power of 400 against one tenth to the power of 400
    assert_eq!(nb.classify(&vec![300; 400]), Ok(1));
    let score = nb.score(&vec![300; 400], &1);
    assert_eq!(score.numerators(), &vec![1u128; 400]);
    assert_eq!(score.denominators(), &vec![9u128; 400]);
}

/// A small generator of numbers that look random, so that a test is the
/// same on every run.
struct Numbers {
    state: u64,
}

impl Numbers {
    fn below(&mut self, bound: u64) -> u64 {
        self.state = self.state.wrapping_mul(6364136223846793005).wrapping_add(1442695040888963407);
        (self.state >> 33) % bound
    }
}

/// The label that the counts of `batch` give for `example`, worked out
/// from the formula with 128-bit numbers.
fn expected_label(
    batch: &Vec<(Label, Vec<Feature>)>,
    example: &Vec<Feature>,
    prior: bool,
) -> Option<Label> {
    let total = batch.len() as u128;
    let mut labels: Vec<Label> = batch.iter().map(|(label, _)| *label).collect();
    labels.sort();
    labels.dedup();
    let mut best: Option<(u128, u128, Label)> = None;
    for label in labels {
        let count = batch.iter().filter(|(l, _)| *l == label).count() as u128;
        let mut numerator: u128 = 1;
        let mut denominator: u128 = 1;
        for feature in example {
            let joint: u128 = batch
                .iter()
                .filter(|(l, _)| *l == label)
                .map(|(_, features)| features.iter().filter(|f| *f == feature).count() as u128)
                .sum();
            numerator *= joint + 1;
            denominator *= count + 1;
            if prior {
                numerator *= count;
                denominator *= total;
            }
        }
        best = match best {
            Some((n, d, l)) if numerator * d < n * denominator => Some((n, d, l)),
            _ => Some((numerator, denominator, label)),
        };
    }
    best.map(|(_, _, label)| label)
}

#[test]
fn classify_agrees_with_the_formula() {
    let mut numbers = Numbers { state: 2024 };
    for round in 0..300 {
        let scoring = if round % 2 == 0 { Scoring::PriorWeighted } else { Scoring::Likelihood };
        let mut batch: Vec<(Label, Vec<Feature>)> = Vec::new();
        for _ in 0..numbers.below(9) {
            let label = 10 + numbers.below(4);
            let features = (0..numbers.below(4)).map(|_| numbers.below(5)).collect();
            batch.push((label, features));
        }
        let mut nb = NaiveBayes::with_scoring(Plain {}, scoring);
        nb.train(&batch);
        for _ in 0..5 {
            let example: Vec<Feature> = (0..numbers.below(5)).map(|_| numbers.below(6)).collect();
            let expected = expected_label(&batch, &example, round % 2 == 0);
            assert_eq!(nb.classify(&example).ok(), expected, "{batch:?} {example:?}");
        }
    }
}
