//! The retention-windowed statistics aggregator.
//!
//! Traffic is accumulated per service label in one open window. A query
//! closes the open window into the history, drops the closed windows that
//! have outlived the retention period and merges what is left. Counters
//! clamp at `u64::MAX`; timestamps are nanoseconds since the Unix epoch.
use vstd::prelude::*;
use crate::clock::wall_clock_nanos;
use crate::label_map::LabelMap;
use crate::stats_lemmas::{lemma_detailed_spans_ordered, lemma_expired_windows_leave, lemma_observe_keeps_order, lemma_roll_keeps_order};

verus! {

/// The retention period of an aggregator made by [`TrafficStats::new`]: one hour.
pub const DEFAULT_RETENTION_NANOS: u128 = 3_600_000_000_000;

/// What was seen of one service label: counters and the time span.
#[derive(Clone, Copy, Debug, PartialEq, Eq)]
pub struct TrafficData {
    pub bytes: u64,
    pub packets: u64,
    pub first_seen: u128,
    pub last_seen: u128,
}

/// A closed window: the moment it was closed and the buckets it held.
pub struct ClosedWindow {
    pub closed_at: u128,
    pub buckets: Map<Seq<char>, TrafficData>,
}

/// Unbounded running totals for one label.
pub struct Tally {
    pub bytes: nat,
    pub packets: nat,
    pub first_seen: u128,
    pub last_seen: u128,
}

/// The aggregator as a mathematical value.
pub struct StatsState {
    pub open: Map<Seq<char>, TrafficData>,
    pub history: Seq<ClosedWindow>,
    pub retention: u128,
}

/// A counter value: exact up to `u64::MAX`, and `u64::MAX` beyond.
pub open spec fn clamp(n: nat) -> u64 {
    if n > u64::MAX {
        u64::MAX
    } else {
        n as u64
    }
}

/// The time elapsed from `then` to `now`; a clock that went backwards counts
/// as no time elapsed.
pub open spec fn age(now: u128, then: u128) -> nat {
    if now >= then {
        (now - then) as nat
    } else {
        0
    }
}

/// The test that a closed window passes while it is younger than `retention`.
pub open spec fn keeps(now: u128, retention: u128) -> spec_fn(ClosedWindow) -> bool {
    |w: ClosedWindow| age(now, w.closed_at) < retention
}

/// The bucket of a label after one more observation at `now`.
pub open spec fn bump(prev: Option<TrafficData>, bytes: u64, packets: u64, now: u128) -> TrafficData {
    match prev {
        Some(d) => TrafficData {
            bytes: clamp((d.bytes + bytes) as nat),
            packets: clamp((d.packets + packets) as nat),
            first_seen: d.first_seen,
            last_seen: now,
        },
        None => TrafficData { bytes, packets, first_seen: now, last_seen: now },
    }
}

/// The totals after one more bucket: counters add up, the time span widens.
pub open spec fn absorb(acc: Option<Tally>, d: TrafficData) -> Tally {
    match acc {
        Some(t) => Tally {
            bytes: t.bytes + d.bytes as nat,
            packets: t.packets + d.packets as nat,
            first_seen: if d.first_seen < t.first_seen {
                d.first_seen
            } else {
                t.first_seen
            },
            last_seen: if d.last_seen > t.last_seen {
                d.last_seen
            } else {
                t.last_seen
            },
        },
        None => Tally {
            bytes: d.bytes as nat,
            packets: d.packets as nat,
            first_seen: d.first_seen,
            last_seen: d.last_seen,
        },
    }
}

/// The totals of `label` over `windows`, on top of `acc`. `None` where nothing
/// was seen of the label.
pub open spec fn tally(acc: Option<Tally>, windows: Seq<ClosedWindow>, label: Seq<char>) -> Option<Tally>
    decreases windows.len(),
{
    if windows.len() == 0 {
        acc
    } else {
        let before = tally(acc, windows.drop_last(), label);
        let w = windows.last();
        if w.buckets.contains_key(label) {
            Some(absorb(before, w.buckets[label]))
        } else {
            before
        }
    }
}

/// The bucket that reports a tally, counters clamped.
pub open spec fn settle(t: Tally) -> TrafficData {
    TrafficData {
        bytes: clamp(t.bytes),
        packets: clamp(t.packets),
        first_seen: t.first_seen,
        last_seen: t.last_seen,
    }
}

/// The bucket reported for an optional tally.
pub open spec fn settled(t: Option<Tally>) -> Option<TrafficData> {
    match t {
        Some(t) => Some(settle(t)),
        None => None,
    }
}

/// The entry of `label` in `m`, if it has one.
pub open spec fn lookup<V>(m: Map<Seq<char>, V>, label: Seq<char>) -> Option<V> {
    if m.contains_key(label) {
        Some(m[label])
    } else {
        None
    }
}

impl StatsState {
    /// The state with nothing recorded.
    pub open spec fn empty(retention: u128) -> StatsState {
        StatsState { open: Map::empty(), history: Seq::empty(), retention }
    }

    /// One observation for `label` at time `now`, added to the open window.
    pub open spec fn observe(self, label: Seq<char>, bytes: u64, packets: u64, now: u128) -> StatsState {
        StatsState {
            open: self.open.insert(label, bump(lookup(self.open, label), bytes, packets, now)),
            history: self.history,
            retention: self.retention,
        }
    }

    /// The open window, if it holds anything, moved to the end of the history
    /// with the close time `now`.
    pub open spec fn closed(self, now: u128) -> StatsState {
        if self.open == Map::<Seq<char>, TrafficData>::empty() {
            self
        } else {
            StatsState {
                open: Map::empty(),
                history: self.history.push(ClosedWindow { closed_at: now, buckets: self.open }),
                retention: self.retention,
            }
        }
    }

    /// The history without the windows whose age at `now` has reached the
    /// retention period.
    pub open spec fn purged(self, now: u128) -> StatsState {
        StatsState {
            open: self.open,
            history: self.history.filter(keeps(now, self.retention)),
            retention: self.retention,
        }
    }

    /// What a query at `now` leaves behind: the window closed, then the purge.
    pub open spec fn rolled(self, now: u128) -> StatsState {
        self.closed(now).purged(now)
    }

    /// Everything forgotten but the retention period.
    pub open spec fn cleared(self) -> StatsState {
        StatsState::empty(self.retention)
    }

    /// Per label, the merge of all closed windows.
    pub open spec fn detailed(self) -> Map<Seq<char>, TrafficData> {
        Map::new(
            |l: Seq<char>| tally(None, self.history, l) is Some,
            |l: Seq<char>| settle(tally(None, self.history, l).unwrap()),
        )
    }

    /// Per label, the bytes and packets summed over all closed windows.
    pub open spec fn totals(self) -> Map<Seq<char>, (u64, u64)> {
        Map::new(
            |l: Seq<char>| tally(None, self.history, l) is Some,
            |l: Seq<char>|
                (
                    settle(tally(None, self.history, l).unwrap()).bytes,
                    settle(tally(None, self.history, l).unwrap()).packets,
                ),
        )
    }

    /// The merge of the open bucket of `label` with all its closed buckets.
    pub open spec fn service(self, label: Seq<char>) -> Option<TrafficData> {
        let start = match lookup(self.open, label) {
            Some(d) => Some(absorb(None, d)),
            None => None,
        };
        settled(tally(start, self.history, label))
    }

    /// Every bucket, open or closed, was first seen no later than last seen.
    pub open spec fn ordered(self) -> bool {
        &&& forall|l: Seq<char>| #[trigger]
            self.open.contains_key(l) ==> self.open[l].first_seen <= self.open[l].last_seen
        &&& forall|i: int, l: Seq<char>|
            0 <= i < self.history.len() && #[trigger] self.history[i].buckets.contains_key(l)
                ==> self.history[i].buckets[l].first_seen <= self.history[i].buckets[l].last_seen
    }
}

/// One closed window as the aggregator stores it.
struct HistoryEntry {
    closed_at: u128,
    window: LabelMap<TrafficData>,
}

impl HistoryEntry {
    spec fn view(&self) -> ClosedWindow {
        ClosedWindow { closed_at: self.closed_at, buckets: self.window@ }
    }
}

/// The closed windows that a stored history stands for.
spec fn windows_of(entries: Seq<HistoryEntry>) -> Seq<ClosedWindow> {
    Seq::new(entries.len(), |i: int| entries[i]@)
}

/// Whether a window closed at `closed_at` is younger than `retention` at `now`.
fn is_retained(now: u128, closed_at: u128, retention: u128) -> (kept: bool)
    ensures
        kept == (age(now, closed_at) < retention),
{
    let elapsed: u128 = if now >= closed_at {
        now - closed_at
    } else {
        0
    };
    elapsed < retention
}

/// One bucket merged into another: counters add up and clamp, the time span widens.
fn combine(acc: &TrafficData, d: &TrafficData) -> (merged: TrafficData)
    ensures
        forall|t: Tally| settle(t) == *acc ==> merged == settle(absorb(Some(t), *d)),
{
    TrafficData {
        bytes: acc.bytes.saturating_add(d.bytes),
        packets: acc.packets.saturating_add(d.packets),
        first_seen: if d.first_seen < acc.first_seen {
            d.first_seen
        } else {
            acc.first_seen
        },
        last_seen: if d.last_seen > acc.last_seen {
            d.last_seen
        } else {
            acc.last_seen
        },
    }
}

/// The totals of `label` while the window at position `h` is being merged:
/// the labels in `seen` already include that window.
spec fn partial_tally(windows: Seq<ClosedWindow>, h: int, seen: Seq<Seq<char>>, label: Seq<char>) -> Option<
    Tally,
> {
    if seen.contains(label) {
        tally(None, windows.take(h + 1), label)
    } else {
        tally(None, windows.take(h), label)
    }
}

/// Merges the closed windows label by label.
fn merge_detailed(history: &Vec<HistoryEntry>) -> (merged: LabelMap<TrafficData>)
    requires
        forall|i: int| 0 <= i < history@.len() ==> (#[trigger] history@[i]).window.wf(),
    ensures
        merged.wf(),
        forall|l: Seq<char>| #[trigger] lookup(merged@, l) == settled(tally(None, windows_of(history@), l)),
{
    let ghost windows = windows_of(history@);
    let mut merged: LabelMap<TrafficData> = LabelMap::new();
    let n = history.len();
    let mut h: usize = 0;
    while h < n
        invariant
            n == history@.len(),
            h <= n,
            windows == windows_of(history@),
            forall|i: int| 0 <= i < history@.len() ==> (#[trigger] history@[i]).window.wf(),
            merged.wf(),
            forall|l: Seq<char>| #[trigger] lookup(merged@, l) == settled(tally(None, windows.take(h as int), l)),
        decreases n - h,
    {
        let window = &history[h].window;
        let ghost keys = window.keys();
        let m = window.len();
        let mut k: usize = 0;
        proof {
            assert(windows.take(h + 1).drop_last() =~= windows.take(h as int));
            assert(windows.take(h + 1).last() == windows[h as int]);
            assert(windows[h as int].buckets == window@);
            assert forall|l: Seq<char>| #[trigger]
                lookup(merged@, l) == settled(partial_tally(windows, h as int, keys.take(0), l)) by {
                assert(!keys.take(0).contains(l));
            }
        }
        while k < m
            invariant
                h < n,
                n == history@.len(),
                window == &history@[h as int].window,
                window.wf(),
                keys == window.keys(),
                m == keys.len(),
                k <= m,
                windows == windows_of(history@),
                windows.take(h + 1).drop_last() == windows.take(h as int),
                windows.take(h + 1).last().buckets == window@,
                merged.wf(),
                forall|l: Seq<char>| #[trigger]
                    lookup(merged@, l) == settled(partial_tally(windows, h as int, keys.take(k as int), l)),
            decreases m - k,
        {
            let label = window.key_at(k);
            let d = window.value_at(k);
            let ghost prior = merged@;
            let ghost before = tally(None, windows.take(h as int), label@);
            proof {
                assert(keys.take(k + 1) =~= keys.take(k as int).push(label@));
                assert(!keys.take(k as int).contains(label@));
                assert(lookup(prior, label@) == settled(before));
                assert(tally(None, windows.take(h + 1), label@) == Some(absorb(before, *d)));
            }
            let updated = match merged.get(label) {
                Some(acc) => combine(acc, d),
                None => *d,
            };
            assert(updated == settle(absorb(before, *d)));
            merged.set(label, updated);
            proof {
                assert forall|l: Seq<char>| #[trigger]
                    lookup(merged@, l) == settled(
                        partial_tally(windows, h as int, keys.take(k + 1), l),
                    ) by {
                    if l == label@ {
                        assert(keys.take(k + 1)[k as int] == l);
                    } else {
                        assert(lookup(prior, l) == settled(
                            partial_tally(windows, h as int, keys.take(k as int), l),
                        ));
                        if keys.take(k + 1).contains(l) {
                            let j = keys.take(k + 1).index_of(l);
                            assert(keys.take(k as int)[j] == l);
                        }
                        if keys.take(k as int).contains(l) {
                            let j = keys.take(k as int).index_of(l);
                            assert(keys.take(k + 1)[j] == l);
                        }
                    }
                }
            }
            k += 1;
        }
        proof {
            assert(keys.take(m as int) =~= keys);
            assert forall|l: Seq<char>| #[trigger]
                lookup(merged@, l) == settled(tally(None, windows.take(h + 1), l)) by {
                assert(lookup(merged@, l) == settled(partial_tally(windows, h as int, keys.take(m as int), l)));
            }
        }
        h += 1;
    }
    assert(windows.take(n as int) =~= windows);
    merged
}

/// The aggregator: one open window and the history of closed ones.
pub struct TrafficStats {
    current: LabelMap<TrafficData>,
    history: Vec<HistoryEntry>,
    retention_period: u128,
}

impl TrafficStats {
    /// The aggregator as a mathematical value.
    pub closed spec fn view(&self) -> StatsState {
        StatsState {
            open: self.current@,
            history: windows_of(self.history@),
            retention: self.retention_period,
        }
    }

    /// The stored windows are well-formed maps.
    pub closed spec fn wf(&self) -> bool {
        &&& self.current.wf()
        &&& forall|i: int| 0 <= i < self.history@.len() ==> (#[trigger] self.history@[i]).window.wf()
    }

    /// An aggregator with nothing recorded and a retention period of one hour.
    pub fn new() -> (s: Self)
        ensures
            s.wf(),
            s@ == StatsState::empty(DEFAULT_RETENTION_NANOS),
    {
        let s = TrafficStats {
            current: LabelMap::new(),
            history: Vec::new(),
            retention_period: DEFAULT_RETENTION_NANOS,
        };
        assert(windows_of(s.history@) =~= Seq::<ClosedWindow>::empty());
        s
    }

    /// Records `bytes` and `packets` for `service` at the time `now`.
    pub fn add_traffic_at(&mut self, service: &str, bytes: u64, packets: u64, now: u128)
        requires
            old(self).wf(),
        ensures
            final(self).wf(),
            final(self)@ == old(self)@.observe(service@, bytes, packets, now),
            old(self)@.ordered() && (old(self)@.open.contains_key(service@) ==> old(self)@.open[service@].first_seen
                <= now) ==> final(self)@.ordered(),
    {
        proof {
            if old(self)@.ordered() && (old(self)@.open.contains_key(service@) ==> old(self)@.open[service@].first_seen
                <= now) {
                lemma_observe_keeps_order(old(self)@, service@, bytes, packets, now);
            }
        }
        let updated = match self.current.get(service) {
            Some(d) => TrafficData {
                bytes: d.bytes.saturating_add(bytes),
                packets: d.packets.saturating_add(packets),
                first_seen: d.first_seen,
                last_seen: now,
            },
            None => TrafficData { bytes, packets, first_seen: now, last_seen: now },
        };
        self.current.set(service, updated);
    }

    /// Records `bytes` and `packets` for `service` at the current time.
    pub fn add_traffic(&mut self, service: &str, bytes: u64, packets: u64)
        requires
            old(self).wf(),
        ensures
            final(self).wf(),
            exists|now: u128| final(self)@ == old(self)@.observe(service@, bytes, packets, now),
    {
        let now = wall_clock_nanos();
        self.add_traffic_at(service, bytes, packets, now);
    }

    /// Moves a non-empty open window to the end of the history.
    fn close_window(&mut self, now: u128)
        requires
            old(self).wf(),
        ensures
            final(self).wf(),
            final(self)@ == old(self)@.closed(now),
    {
        if !self.current.is_empty() {
            let mut window = LabelMap::new();
            std::mem::swap(&mut self.current, &mut window);
            let entry = HistoryEntry { closed_at: now, window };
            self.history.push(entry);
            assert(windows_of(self.history@) =~= windows_of(old(self).history@).push(entry@));
        }
    }

    /// Forgets every window, open or closed.
    pub fn reset_stats(&mut self)
        ensures
            final(self).wf(),
            final(self)@ == old(self)@.cleared(),
    {
        self.current.clear();
        self.history.clear();
        assert(windows_of(self.history@) =~= Seq::<ClosedWindow>::empty());
    }

    /// Drops the closed windows whose age at `now` has reached the retention
    /// period. The windows that stay keep their order.
    fn clean_old_data(&mut self, now: u128)
        requires
            old(self).wf(),
        ensures
            final(self).wf(),
            final(self)@ == old(self)@.purged(now),
    {
        let ghost stored = self.history@;
        let ghost before = windows_of(self.history@);
        let ghost pred = keeps(now, self.retention_period);
        let n = self.history.len();
        let mut stack: Vec<HistoryEntry> = Vec::new();
        while self.history.len() > 0
            invariant
                stored.len() == n,
                self.history@.len() + stack@.len() == n,
                self.history@ == stored.take(self.history@.len() as int),
                forall|j: int| 0 <= j < stack@.len() ==> stack@[j] == stored[n - 1 - j],
                self.current == old(self).current,
                self.retention_period == old(self).retention_period,
            decreases self.history@.len(),
        {
            let entry = self.history.pop().unwrap();
            stack.push(entry);
        }
        let mut i: usize = 0;
        proof {
            assert(before.take(0) =~= Seq::<ClosedWindow>::empty());
            assert(windows_of(self.history@) =~= Seq::<ClosedWindow>::empty());
            reveal(Seq::filter);
            assert(Seq::<ClosedWindow>::empty().filter(pred) =~= Seq::<ClosedWindow>::empty());
        }
        while stack.len() > 0
            invariant
                stored.len() == n,
                before == windows_of(stored),
                pred == keeps(now, self.retention_period),
                stack@.len() + i == n,
                forall|j: int| 0 <= j < stack@.len() ==> stack@[j] == stored[n - 1 - j],
                forall|j: int| 0 <= j < stored.len() ==> (#[trigger] stored[j]).window.wf(),
                forall|j: int| 0 <= j < self.history@.len() ==> (#[trigger] self.history@[j]).window.wf(),
                windows_of(self.history@) == before.take(i as int).filter(pred),
                self.current == old(self).current,
                self.retention_period == old(self).retention_period,
            decreases stack@.len(),
        {
            let ghost kept = self.history@;
            let entry = stack.pop().unwrap();
            assert(entry == stored[i as int]);
            proof {
                assert(before.take(i + 1) =~= before.take(i as int).push(entry@));
                before.take(i as int).lemma_filter_push(entry@, pred);
                assert(pred(entry@) == (age(now, entry.closed_at) < self.retention_period));
            }
            if is_retained(now, entry.closed_at, self.retention_period) {
                self.history.push(entry);
                assert(windows_of(self.history@) =~= windows_of(kept).push(entry@));
            }
            i += 1;
        }
        assert(before.take(n as int) =~= before);
    }

    /// The detailed statistics of a query made at `now`: the open window is
    /// closed, expired windows are dropped, and what is left is merged.
    pub fn get_detailed_stats_at(&mut self, now: u128) -> (stats: LabelMap<TrafficData>)
        requires
            old(self).wf(),
        ensures
            final(self).wf(),
            final(self)@ == old(self)@.rolled(now),
            stats.wf(),
            stats@ == final(self)@.detailed(),
            old(self)@.ordered() ==> final(self)@.ordered(),
            old(self)@.ordered() ==> forall|l: Seq<char>| #[trigger]
                stats@.contains_key(l) ==> stats@[l].first_seen <= stats@[l].last_seen,
    {
        self.close_window(now);
        self.clean_old_data(now);
        let stats = merge_detailed(&self.history);
        proof {
            let state = self@;
            if old(self)@.ordered() {
                lemma_roll_keeps_order(old(self)@, now);
                assert forall|l: Seq<char>| #[trigger] state.detailed().contains_key(l) implies state.detailed()[l].first_seen
                    <= state.detailed()[l].last_seen by {
                    lemma_detailed_spans_ordered(old(self)@, now, l);
                }
            }
            assert forall|l: Seq<char>| stats@.contains_key(l) == state.detailed().contains_key(l) by {
                assert(lookup(stats@, l) == settled(tally(None, state.history, l)));
            }
            assert forall|l: Seq<char>| stats@.contains_key(l) implies stats@[l] == state.detailed()[l] by {
                assert(lookup(stats@, l) == settled(tally(None, state.history, l)));
            }
            assert(stats@ =~= state.detailed());
        }
        stats
    }

    /// The detailed statistics of a query made at the current time.
    pub fn get_detailed_stats(&mut self) -> (stats: LabelMap<TrafficData>)
        requires
            old(self).wf(),
        ensures
            final(self).wf(),
            exists|now: u128| final(self)@ == old(self)@.rolled(now),
            stats.wf(),
            stats@ == final(self)@.detailed(),
            old(self)@.ordered() ==> final(self)@.ordered(),
            old(self)@.ordered() ==> forall|l: Seq<char>| #[trigger]
                stats@.contains_key(l) ==> stats@[l].first_seen <= stats@[l].last_seen,
    {
        let now = wall_clock_nanos();
        self.get_detailed_stats_at(now)
    }

    /// Bytes and packets per label, summed over the given closed windows.
    fn merge_history(history: &Vec<HistoryEntry>) -> (stats: LabelMap<(u64, u64)>)
        requires
            forall|i: int| 0 <= i < history@.len() ==> (#[trigger] history@[i]).window.wf(),
        ensures
            stats.wf(),
            forall|l: Seq<char>| #[trigger]
                lookup(stats@, l) == match tally(None, windows_of(history@), l) {
                    Some(t) => Some((clamp(t.bytes), clamp(t.packets))),
                    None => None,
                },
    {
        let detailed = merge_detailed(history);
        let ghost keys = detailed.keys();
        let mut stats: LabelMap<(u64, u64)> = LabelMap::new();
        let n = detailed.len();
        let mut i: usize = 0;
        while i < n
            invariant
                detailed.wf(),
                keys == detailed.keys(),
                n == keys.len(),
                i <= n,
                stats.wf(),
                forall|l: Seq<char>| #[trigger]
                    lookup(stats@, l) == if keys.take(i as int).contains(l) {
                        Some((detailed@[l].bytes, detailed@[l].packets))
                    } else {
                        None
                    },
            decreases n - i,
        {
            let label = detailed.key_at(i);
            let d = detailed.value_at(i);
            let ghost prior = stats@;
            stats.set(label, (d.bytes, d.packets));
            proof {
                assert(keys.take(i + 1) =~= keys.take(i as int).push(label@));
                assert forall|l: Seq<char>| #[trigger]
                    lookup(stats@, l) == if keys.take(i + 1).contains(l) {
                        Some((detailed@[l].bytes, detailed@[l].packets))
                    } else {
                        None
                    } by {
                    if l == label@ {
                        assert(keys.take(i + 1)[i as int] == l);
                    } else {
                        assert(lookup(prior, l) == if keys.take(i as int).contains(l) {
                            Some((detailed@[l].bytes, detailed@[l].packets))
                        } else {
                            None
                        });
                        if keys.take(i + 1).contains(l) {
                            let j = keys.take(i + 1).index_of(l);
                            assert(keys.take(i as int)[j] == l);
                        }
                        if keys.take(i as int).contains(l) {
                            let j = keys.take(i as int).index_of(l);
                            assert(keys.take(i + 1)[j] == l);
                        }
                    }
                }
            }
            i += 1;
        }
        proof {
            assert(keys.take(n as int) =~= keys);
            assert forall|l: Seq<char>| #[trigger]
                lookup(stats@, l) == match tally(None, windows_of(history@), l) {
                    Some(t) => Some((clamp(t.bytes), clamp(t.packets))),
                    None => None,
                } by {
                assert(lookup(detailed@, l) == settled(tally(None, windows_of(history@), l)));
            }
        }
        stats
    }

    /// The totals of a query made at `now`: the open window is closed,
    /// expired windows are dropped, and bytes and packets are summed per
    /// label over what is left.
    pub fn get_stats_at(&mut self, now: u128) -> (stats: LabelMap<(u64, u64)>)
        requires
            old(self).wf(),
        ensures
            final(self).wf(),
            final(self)@ == old(self)@.rolled(now),
            stats.wf(),
            stats@ == final(self)@.totals(),
            forall|j: int|
                0 <= j < final(self)@.history.len() ==> age(now, (#[trigger] final(self)@.history[j]).closed_at)
                    < final(self)@.retention,
    {
        self.close_window(now);
        self.clean_old_data(now);
        let stats = Self::merge_history(&self.history);
        proof {
            let state = self@;
            lemma_expired_windows_leave(old(self)@, now);
            assert forall|l: Seq<char>| stats@.contains_key(l) == state.totals().contains_key(l) by {
                assert(lookup(stats@, l) is Some == tally(None, state.history, l) is Some);
            }
            assert forall|l: Seq<char>| stats@.contains_key(l) implies stats@[l] == state.totals()[l] by {
                assert(lookup(stats@, l) is Some == tally(None, state.history, l) is Some);
            }
            assert(stats@ =~= state.totals());
        }
        stats
    }

    /// The totals of a query made at the current time.
    pub fn get_stats(&mut self) -> (stats: LabelMap<(u64, u64)>)
        requires
            old(self).wf(),
        ensures
            final(self).wf(),
            exists|now: u128| final(self)@ == old(self)@.rolled(now),
            stats.wf(),
            stats@ == final(self)@.totals(),
    {
        let now = wall_clock_nanos();
        self.get_stats_at(now)
    }

    /// Everything recorded for `service`, open or closed, merged into one
    /// bucket. Closes no window and drops none.
    pub fn get_service_stats(&self, service: &str) -> (found: Option<TrafficData>)
        requires
            self.wf(),
        ensures
            found == self@.service(service@),
    {
        let ghost windows = windows_of(self.history@);
        let ghost start = match lookup(self.current@, service@) {
            Some(d) => Some(absorb(None, d)),
            None => None,
        };
        let mut result: Option<TrafficData> = match self.current.get(service) {
            Some(d) => Some(*d),
            None => None,
        };
        let n = self.history.len();
        let mut i: usize = 0;
        assert(windows.take(0) =~= Seq::<ClosedWindow>::empty());
        while i < n
            invariant
                self.wf(),
                n == self.history@.len(),
                i <= n,
                windows == windows_of(self.history@),
                result == settled(tally(start, windows.take(i as int), service@)),
            decreases n - i,
        {
            proof {
                assert(windows.take(i + 1).drop_last() =~= windows.take(i as int));
                assert(windows.take(i + 1).last() == windows[i as int]);
                assert(windows[i as int].buckets == self.history@[i as int].window@);
            }
            match self.history[i].window.get(service) {
                Some(historical) => {
                    result = match result {
                        Some(acc) => Some(combine(&acc, historical)),
                        None => Some(*historical),
                    };
                },
                None => {},
            }
            i += 1;
        }
        assert(windows.take(n as int) =~= windows);
        result
    }
}

impl Default for TrafficStats {
    /// The same as [`TrafficStats::new`].
    fn default() -> (s: Self)
        ensures
            s.wf(),
            s@ == StatsState::empty(DEFAULT_RETENTION_NANOS),
    {
        Self::new()
    }
}

} // verus!
