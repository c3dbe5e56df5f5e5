//! A naive Bayes classifier that learns from labelled examples, a batch at
//! a time, and ranks labels by exact scores.
//!
//! Labels and features are 64-bit numbers; what a value's features are is
//! the business of a [`NaiveBayesExtractor`]. A [`NaiveBayes`] counts how
//! often each label was seen, and each feature with each label, and gives
//! for an example the label whose score is highest: the product, over the
//! example's features, of the smoothed likelihood of each under the label.
//! Scores are kept as fractions of whole numbers of any size and compared
//! without rounding.

pub mod batch;
pub mod classifier;
pub mod extract;
pub mod frequency_store;
pub mod gather;
pub mod label_histogram;
pub mod laws;
pub mod natural;
pub mod ranking;
pub mod score;
pub mod scoring;
pub mod tally;

pub use crate::classifier::{ClassifyError, NaiveBayes};
pub use crate::extract::{Feature, FeatureSeq, NaiveBayesExtractor};
pub use crate::frequency_store::{FrequencyStore, Ratio};
pub use crate::label_histogram::Label;
pub use crate::ranking::{cmp_f64, cmp_w_label};
pub use crate::score::Score;
pub use crate::scoring::Scoring;
