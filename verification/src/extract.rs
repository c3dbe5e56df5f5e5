//! Features, and the extractors that find them in input values.

use vstd::prelude::*;

verus! {

/// A feature is identified by a 64-bit number.
pub type Feature = u64;

/// The features of one value, in the order in which they were found.
pub type FeatureSeq = Seq<Feature>;

/// Turns an input value into the features that describe it.
///
/// An extractor finds the same features in the same value every time. What
/// is proved of a classifier holds for extractors that keep to this.
pub trait NaiveBayesExtractor {
    /// The values that features are extracted from.
    type InputValue;

    /// The features of `value`, in the order in which `extract` gives them.
    spec fn features(&self, value: &Self::InputValue) -> FeatureSeq;

    /// Finds the features of `value`.
    fn extract(&self, value: &Self::InputValue) -> (found: Vec<Feature>)
        ensures
            found@ == self.features(value),
    ;
}

} // verus!
