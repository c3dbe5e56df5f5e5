//! A histogram of labels that lists its labels in ascending order.

use std::collections::BTreeMap;
use vstd::multiset::Multiset;
use vstd::prelude::*;
use vstd::std_specs::btree::spec_keys_iter;
use vstd::std_specs::cmp::OrdSpec;
use vstd::std_specs::iter::IteratorSpec;

verus! {

/// A label is identified by a 64-bit number; labels are ordered as numbers.
pub type Label = u64;

/// How often each label was seen, and how many labels were seen in all.
pub struct LabelHistogram {
    counts: BTreeMap<Label, usize>,
    total: usize,
    seen: Ghost<Multiset<Label>>,
}

impl View for LabelHistogram {
    type V = Multiset<Label>;

    /// The labels that were counted, each as often as it was counted.
    closed spec fn view(&self) -> Multiset<Label> {
        self.seen@
    }
}

impl LabelHistogram {
    /// The stored counts are those of the view, no stored count is zero,
    /// and the stored total is the size of the view.
    #[verifier::type_invariant]
    spec fn well_formed(&self) -> bool {
        &&& forall|label: Label| #[trigger]
            self.counts@.contains_key(label) ==> self.counts@[label] > 0
        &&& forall|label: Label| #[trigger]
            self.seen@.count(label) == (if self.counts@.contains_key(label) {
                self.counts@[label] as nat
            } else {
                0
            })
        &&& self.total == self.seen@.len()
    }

    /// A histogram that has counted nothing.
    pub fn new() -> (histogram: Self)
        ensures
            histogram@ == Multiset::<Label>::empty(),
    {
        LabelHistogram { counts: BTreeMap::new(), total: 0, seen: Ghost(Multiset::empty()) }
    }

    /// How often `label` was counted.
    pub fn count(&self, label: &Label) -> (count: usize)
        ensures
            count == self@.count(*label),
    {
        proof {
            use_type_invariant(self);
        }
        match self.counts.get(label) {
            Some(count) => *count,
            None => 0,
        }
    }

    /// How many labels were counted in all.
    pub fn len(&self) -> (total: usize)
        ensures
            total == self@.len(),
    {
        proof {
            use_type_invariant(self);
        }
        self.total
    }

    /// Counts `label` once more.
    pub fn bump(&mut self, label: &Label)
        requires
            old(self)@.len() < usize::MAX,
        ensures
            final(self)@ == old(self)@.insert(*label),
    {
        proof {
            use_type_invariant(&*self);
        }
        let count = self.count(label);
        let mut taken = LabelHistogram::new();
        std::mem::swap(self, &mut taken);
        let LabelHistogram { mut counts, total, seen } = taken;
        counts.insert(*label, count + 1);
        *self = LabelHistogram { counts, total: total + 1, seen: Ghost(seen@.insert(*label)) };
    }

    /// The labels that were counted at least once, in ascending order.
    pub fn labels(&self) -> (labels: Vec<Label>)
        ensures
            forall|i: int, j: int| 0 <= i < j < labels.len() ==> labels[i] < labels[j],
            forall|label: Label| labels@.contains(label) <==> self@.count(label) > 0,
    {
        proof {
            use_type_invariant(self);
        }
        let mut labels: Vec<Label> = Vec::new();
        for key in it: self.counts.keys()
            invariant
                it.seq() == spec_keys_iter(&self.counts).remaining(),
                labels.len() == it.index(),
                forall|i: int| 0 <= i < labels.len() ==> labels[i] == *it.seq()[i],
        {
            labels.push(*key);
        }
        proof {
            let keys = spec_keys_iter(&self.counts).remaining();
            assert(labels@ =~= keys.unref());
            assert forall|i: int, j: int| 0 <= i < j < labels.len() implies labels[i]
                < labels[j] by {
                assert(OrdSpec::cmp_spec(&keys[i], &keys[j]) is Less);
            }
        }
        labels
    }
}

} // verus!
