use naive_bayes::label_histogram::LabelHistogram;
use naive_bayes::{FrequencyStore, Ratio};

#[test]
fn a_new_store_has_counted_nothing() {
    let store = FrequencyStore::new();
    assert_eq!(store.total(), 0);
    assert_eq!(store.label_count(&1), 0);
    assert_eq!(store.feature_label_count(&1, &1), 0);
    assert!(store.known_labels().is_empty());
    assert_eq!(store.label_probability(&1), Ratio { numerator: 0, denominator: 1 });
}

#[test]
fn bump_label_counts_one_label() {
    let mut store = FrequencyStore::new();
    store.bump_label(&5);
    store.bump_label(&5);
    store.bump_label(&3);
    assert_eq!(store.label_count(&5), 2);
    assert_eq!(store.label_count(&3), 1);
    assert_eq!(store.label_count(&4), 0);
    assert_eq!(store.total(), 3);
    assert_eq!(store.feature_label_count(&5, &5), 0);
}

#[test]
fn bump_feature_label_counts_one_pair() {
    let mut store = FrequencyStore::new();
    store.bump_feature_label(&9, &5);
    assert_eq!(store.feature_label_count(&9, &5), 1);
    store.bump_feature_label(&9, &5);
    store.bump_feature_label(&9, &6);
    store.bump_feature_label(&8, &5);
    assert_eq!(store.feature_label_count(&9, &5), 2);
    assert_eq!(store.feature_label_count(&9, &6), 1);
    assert_eq!(store.feature_label_count(&8, &5), 1);
    assert_eq!(store.feature_label_count(&8, &6), 0);
    assert_eq!(store.feature_label_count(&5, &9), 0);
    assert_eq!(store.total(), 0);
    assert_eq!(store.label_count(&5), 0);
    assert!(store.known_labels().is_empty());
}

#[test]
fn known_labels_come_in_ascending_order() {
    let mut store = FrequencyStore::new();
    for label in [40u64, 7, u64::MAX, 0, 7, 1 << 40, 40] {
        store.bump_label(&label);
    }
    assert_eq!(store.known_labels(), vec![0, 7, 40, 1 << 40, u64::MAX]);
}

#[test]
fn label_probability_is_count_over_total() {
    let mut store = FrequencyStore::new();
    store.bump_label(&1);
    store.bump_label(&2);
    store.bump_label(&2);
    store.bump_label(&2);
    assert_eq!(store.label_probability(&1), Ratio { numerator: 1, denominator: 4 });
    assert_eq!(store.label_probability(&2), Ratio { numerator: 3, denominator: 4 });
    assert_eq!(store.label_probability(&3), Ratio { numerator: 0, denominator: 4 });
}

#[test]
fn observe_counts_a_label_and_its_features() {
    let mut store = FrequencyStore::new();
    assert!(store.fits(&vec![10, 11, 10], &1));
    store.observe(&vec![10, 11, 10], &1);
    store.observe(&vec![], &2);
    assert_eq!(store.total(), 2);
    assert_eq!(store.label_count(&1), 1);
    assert_eq!(store.label_count(&2), 1);
    assert_eq!(store.feature_label_count(&10, &1), 2);
    assert_eq!(store.feature_label_count(&11, &1), 1);
    assert_eq!(store.feature_label_count(&10, &2), 0);
    assert_eq!(store.known_labels(), vec![1, 2]);
}

#[test]
fn label_histogram_counts_labels() {
    let mut histogram = LabelHistogram::new();
    assert_eq!(histogram.len(), 0);
    assert_eq!(histogram.count(&3), 0);
    assert!(histogram.labels().is_empty());
    histogram.bump(&3);
    histogram.bump(&1);
    histogram.bump(&3);
    assert_eq!(histogram.len(), 3);
    assert_eq!(histogram.count(&3), 2);
    assert_eq!(histogram.count(&1), 1);
    assert_eq!(histogram.count(&2), 0);
    assert_eq!(histogram.labels(), vec![1, 3]);
}
