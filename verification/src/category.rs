//! The traffic category taxonomy and byte totals keyed by category.
use vstd::prelude::*;
use crate::stats::clamp;

verus! {

/// The coarse classes that a flow can fall into.
#[derive(Debug, Clone, Copy, PartialEq, Eq, Hash, Structural)]
pub enum TrafficCategory {
    Web,
    Database,
    Streaming,
    FileTransfer,
    Gaming,
    Voip,
    Malicious,
    Unknown,
}

/// The entry of `c` in `m`, if it has one.
pub open spec fn category_entry(m: Map<TrafficCategory, u64>, c: TrafficCategory) -> Option<u64> {
    if m.contains_key(c) {
        Some(m[c])
    } else {
        None
    }
}

/// The place of a category in the taxonomy, counted from zero.
pub open spec fn slot_of(c: TrafficCategory) -> int {
    match c {
        TrafficCategory::Web => 0,
        TrafficCategory::Database => 1,
        TrafficCategory::Streaming => 2,
        TrafficCategory::FileTransfer => 3,
        TrafficCategory::Gaming => 4,
        TrafficCategory::Voip => 5,
        TrafficCategory::Malicious => 6,
        TrafficCategory::Unknown => 7,
    }
}

fn slot_index(c: TrafficCategory) -> (i: usize)
    ensures
        i == slot_of(c),
        i < 8,
{
    match c {
        TrafficCategory::Web => 0,
        TrafficCategory::Database => 1,
        TrafficCategory::Streaming => 2,
        TrafficCategory::FileTransfer => 3,
        TrafficCategory::Gaming => 4,
        TrafficCategory::Voip => 5,
        TrafficCategory::Malicious => 6,
        TrafficCategory::Unknown => 7,
    }
}

/// Byte totals per category. A category that was never added to has no entry.
#[derive(Debug)]
pub struct CategoryTotals {
    slots: Vec<Option<u64>>,
}

impl CategoryTotals {
    /// There is one slot for each category.
    pub closed spec fn wf(&self) -> bool {
        self.slots@.len() == 8
    }

    /// The totals as a map from category to bytes.
    pub closed spec fn view(&self) -> Map<TrafficCategory, u64> {
        Map::new(
            |c: TrafficCategory| self.slots@[slot_of(c)] is Some,
            |c: TrafficCategory| self.slots@[slot_of(c)].unwrap(),
        )
    }

    /// Totals without any entry.
    pub fn new() -> (t: Self)
        ensures
            t.wf(),
            t@ == Map::<TrafficCategory, u64>::empty(),
    {
        let mut slots: Vec<Option<u64>> = Vec::new();
        let mut i: usize = 0;
        while i < 8
            invariant
                i <= 8,
                slots@.len() == i,
                forall|j: int| 0 <= j < i ==> slots@[j] is None,
            decreases 8 - i,
        {
            slots.push(None);
            i += 1;
        }
        let t = CategoryTotals { slots };
        assert(t@ =~= Map::<TrafficCategory, u64>::empty());
        t
    }

    /// The total of `c`, if it has an entry.
    pub fn get(&self, c: TrafficCategory) -> (r: Option<u64>)
        requires
            self.wf(),
        ensures
            r == category_entry(self@, c),
    {
        self.slots[slot_index(c)]
    }

    /// Adds `bytes` to the total of `c`, which starts at zero and clamps at
    /// `u64::MAX`.
    pub fn add(&mut self, c: TrafficCategory, bytes: u64)
        requires
            old(self).wf(),
        ensures
            final(self).wf(),
            final(self)@ == old(self)@.insert(
                c,
                match category_entry(old(self)@, c) {
                    Some(t) => clamp((t + bytes) as nat),
                    None => bytes,
                },
            ),
    {
        let i = slot_index(c);
        let updated = match self.slots[i] {
            Some(t) => t.saturating_add(bytes),
            None => bytes,
        };
        self.slots[i] = Some(updated);
        assert(self@ =~= old(self)@.insert(c, updated)) by {
            assert forall|d: TrafficCategory| d != c implies slot_of(d) != slot_of(c) by {}
        }
    }

    /// Whether no category has an entry.
    pub fn is_empty(&self) -> (b: bool)
        requires
            self.wf(),
        ensures
            b == (self@ == Map::<TrafficCategory, u64>::empty()),
    {
        let mut i: usize = 0;
        while i < 8
            invariant
                self.wf(),
                i <= 8,
                forall|j: int| 0 <= j < i ==> self.slots@[j] is None,
            decreases 8 - i,
        {
            if self.slots[i].is_some() {
                proof {
                    let c = category_at(i as int);
                    assert(self@.contains_key(c));
                }
                return false;
            }
            i += 1;
        }
        assert(self@ =~= Map::<TrafficCategory, u64>::empty());
        true
    }
}

/// The category at a given place in the taxonomy.
pub open spec fn category_at(i: int) -> TrafficCategory {
    if i == 0 {
        TrafficCategory::Web
    } else if i == 1 {
        TrafficCategory::Database
    } else if i == 2 {
        TrafficCategory::Streaming
    } else if i == 3 {
        TrafficCategory::FileTransfer
    } else if i == 4 {
        TrafficCategory::Gaming
    } else if i == 5 {
        TrafficCategory::Voip
    } else if i == 6 {
        TrafficCategory::Malicious
    } else {
        TrafficCategory::Unknown
    }
}

} // verus!
