//! Running totals over classified flows, split by direction and category.
use vstd::prelude::*;
use crate::category::{category_entry, CategoryTotals, TrafficCategory};
use crate::classifier::{ClassifiedFlow, ClassifiedTraffic};
use crate::stats::clamp;

verus! {

/// Whether a flow counts as received: its destination is a web port.
pub open spec fn counts_as_received(flow: ClassifiedFlow) -> bool {
    flow.destination_port == Some(80u16) || flow.destination_port == Some(443u16)
}

/// Bytes and packets by direction, and bytes by category. Every counter
/// clamps at `u64::MAX`.
#[derive(Debug)]
pub struct DirectionTotals {
    pub bytes_received: u64,
    pub bytes_sent: u64,
    pub packets_received: u64,
    pub packets_sent: u64,
    pub classified_traffic: CategoryTotals,
}

impl DirectionTotals {
    /// Totals of nothing.
    pub fn new() -> (t: Self)
        ensures
            t.bytes_received == 0,
            t.bytes_sent == 0,
            t.packets_received == 0,
            t.packets_sent == 0,
            t.classified_traffic.wf(),
            t.classified_traffic@ == Map::<TrafficCategory, u64>::empty(),
    {
        DirectionTotals {
            bytes_received: 0,
            bytes_sent: 0,
            packets_received: 0,
            packets_sent: 0,
            classified_traffic: CategoryTotals::new(),
        }
    }

    /// Counts one classified flow: towards the received side where its
    /// destination is port 80 or 443, towards the sent side otherwise, and
    /// in either case towards its category.
    pub fn update(&mut self, classified: &ClassifiedTraffic)
        requires
            old(self).classified_traffic.wf(),
        ensures
            final(self).classified_traffic.wf(),
            counts_as_received(classified@) ==> {
                &&& final(self).bytes_received == clamp((old(self).bytes_received + classified.bytes) as nat)
                &&& final(self).packets_received == clamp(
                    (old(self).packets_received + classified.packets) as nat,
                )
                &&& final(self).bytes_sent == old(self).bytes_sent
                &&& final(self).packets_sent == old(self).packets_sent
            },
            !counts_as_received(classified@) ==> {
                &&& final(self).bytes_sent == clamp((old(self).bytes_sent + classified.bytes) as nat)
                &&& final(self).packets_sent == clamp((old(self).packets_sent + classified.packets) as nat)
                &&& final(self).bytes_received == old(self).bytes_received
                &&& final(self).packets_received == old(self).packets_received
            },
            final(self).classified_traffic@ == old(self).classified_traffic@.insert(
                classified.category,
                match category_entry(old(self).classified_traffic@, classified.category) {
                    Some(t) => clamp((t + classified.bytes) as nat),
                    None => classified.bytes,
                },
            ),
    {
        let received = match classified.destination_port {
            Some(p) => p == 80 || p == 443,
            None => false,
        };
        if received {
            self.bytes_received = self.bytes_received.saturating_add(classified.bytes);
            self.packets_received = self.packets_received.saturating_add(classified.packets);
        } else {
            self.bytes_sent = self.bytes_sent.saturating_add(classified.bytes);
            self.packets_sent = self.packets_sent.saturating_add(classified.packets);
        }
        self.classified_traffic.add(classified.category, classified.bytes);
    }
}

} // verus!
