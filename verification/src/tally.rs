//! The per-feature histograms of labels, which the `hash_histogram` crate
//! keeps.

use hash_histogram::HashHistogram;
use vstd::multiset::Multiset;
use vstd::prelude::*;

verus! {

/// A histogram of labels: a `HashHistogram` of the `hash_histogram` crate,
/// with `u64` keys and `usize` counts. Nothing is proved of it; what it
/// holds is spoken of through [`tally_contents`] alone.
#[verifier::external_body]
pub struct LabelTally {
    histogram: HashHistogram<u64, usize>,
}

/// What a tally holds: each label as many times as the histogram has
/// counted it, which is the count that the histogram keeps for the label,
/// and zero for a label for which it keeps none.
pub uninterp spec fn tally_contents(tally: LabelTally) -> Multiset<u64>;

/// Calls `HashHistogram::new`. Believed of it: the histogram that it makes
/// holds nothing.
#[verifier::external_body]
pub(crate) fn tally_new() -> (tally: LabelTally)
    ensures
        tally_contents(tally) == Multiset::<u64>::empty(),
{
    LabelTally { histogram: HashHistogram::new() }
}

/// Calls `HashHistogram::bump`. Believed of it: the count of `label` grows
/// by one and no other count changes. The crate adds to the count with
/// `+=`, which overflows at `usize::MAX`: such a count is left out.
#[verifier::external_body]
pub(crate) fn tally_bump(tally: &mut LabelTally, label: &u64)
    requires
        tally_contents(*old(tally)).count(*label) < usize::MAX,
    ensures
        tally_contents(*final(tally)) == tally_contents(*old(tally)).insert(*label),
{
    tally.histogram.bump(label)
}

/// Calls `HashHistogram::count`. Believed of it: it gives the count kept
/// for `label`, and zero for a label that was never counted.
#[verifier::external_body]
pub(crate) fn tally_count(tally: &LabelTally, label: &u64) -> (count: usize)
    ensures
        count == tally_contents(*tally).count(*label),
{
    tally.histogram.count(label)
}

} // verus!
