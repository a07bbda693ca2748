//! What holds of the statistics aggregator across several operations.
//!
//! Every statement is about [`StatsState`], the value that the contracts of
//! [`crate::stats::TrafficStats`] are written over.
use vstd::prelude::*;
use crate::stats::{absorb, age, clamp, keeps, lookup, settle, tally, ClosedWindow, StatsState, Tally, TrafficData};

verus! {

/// One call that records traffic: the label, the counters and the time.
pub struct Observation {
    pub label: Seq<char>,
    pub bytes: u64,
    pub packets: u64,
    pub at: u128,
}

/// The state after the observations in `obs`, first to last.
pub open spec fn observe_all(s: StatsState, obs: Seq<Observation>) -> StatsState
    decreases obs.len(),
{
    if obs.len() == 0 {
        s
    } else {
        let o = obs.last();
        observe_all(s, obs.drop_last()).observe(o.label, o.bytes, o.packets, o.at)
    }
}

/// Whether some observation in `obs` is for `label`.
pub open spec fn mentions(obs: Seq<Observation>, label: Seq<char>) -> bool {
    exists|i: int| 0 <= i < obs.len() && (#[trigger] obs[i]).label == label
}

/// The bytes of the observations for `label`, added up.
pub open spec fn bytes_sum(obs: Seq<Observation>, label: Seq<char>) -> nat
    decreases obs.len(),
{
    if obs.len() == 0 {
        0
    } else if obs.last().label == label {
        bytes_sum(obs.drop_last(), label) + obs.last().bytes as nat
    } else {
        bytes_sum(obs.drop_last(), label)
    }
}

/// The packets of the observations for `label`, added up.
pub open spec fn packets_sum(obs: Seq<Observation>, label: Seq<char>) -> nat
    decreases obs.len(),
{
    if obs.len() == 0 {
        0
    } else if obs.last().label == label {
        packets_sum(obs.drop_last(), label) + obs.last().packets as nat
    } else {
        packets_sum(obs.drop_last(), label)
    }
}

/// Observations touch the open window only. Starting where `label` has no
/// open bucket, the label has one afterwards exactly if it was observed, and
/// that bucket holds the sums of its bytes and packets.
pub proof fn lemma_open_window_sums(s: StatsState, obs: Seq<Observation>, label: Seq<char>)
    requires
        !s.open.contains_key(label),
    ensures
        observe_all(s, obs).history == s.history,
        observe_all(s, obs).retention == s.retention,
        observe_all(s, obs).open.contains_key(label) <==> mentions(obs, label),
        mentions(obs, label) ==> observe_all(s, obs).open[label].bytes == clamp(bytes_sum(obs, label)),
        mentions(obs, label) ==> observe_all(s, obs).open[label].packets == clamp(packets_sum(obs, label)),
        !mentions(obs, label) ==> bytes_sum(obs, label) == 0 && packets_sum(obs, label) == 0,
        obs.len() > 0 ==> observe_all(s, obs).open != Map::<Seq<char>, TrafficData>::empty(),
        s.open == Map::<Seq<char>, TrafficData>::empty() && obs.len() == 0 ==> observe_all(s, obs).open
            == Map::<Seq<char>, TrafficData>::empty(),
    decreases obs.len(),
{
    if obs.len() > 0 {
        let rest = obs.drop_last();
        let o = obs.last();
        lemma_open_window_sums(s, rest, label);
        assert(observe_all(s, obs).open.contains_key(o.label));
        if mentions(rest, label) {
            let i = choose|i: int| 0 <= i < rest.len() && (#[trigger] rest[i]).label == label;
            assert(obs[i].label == label);
        }
        if o.label == label {
            assert(obs[obs.len() - 1].label == label);
        }
        if mentions(obs, label) && o.label != label {
            let i = choose|i: int| 0 <= i < obs.len() && (#[trigger] obs[i]).label == label;
            assert(rest[i].label == label);
        }
    }
}

/// Traffic recorded on a fresh aggregator and queried once: the query
/// reports a label exactly if traffic was recorded for it, with the sums of
/// the recorded bytes and packets, each exact while it fits in a `u64`.
pub proof fn lemma_totals_are_sums(s: StatsState, obs: Seq<Observation>, now: u128, label: Seq<char>)
    requires
        s == StatsState::empty(s.retention),
        s.retention > 0,
    ensures
        observe_all(s, obs).rolled(now).totals().contains_key(label) <==> mentions(obs, label),
        mentions(obs, label) ==> observe_all(s, obs).rolled(now).totals()[label] == (
            clamp(bytes_sum(obs, label)),
            clamp(packets_sum(obs, label)),
        ),
        mentions(obs, label) && bytes_sum(obs, label) <= u64::MAX ==> observe_all(s, obs).rolled(
            now,
        ).totals()[label].0 == bytes_sum(obs, label),
        mentions(obs, label) && packets_sum(obs, label) <= u64::MAX ==> observe_all(s, obs).rolled(
            now,
        ).totals()[label].1 == packets_sum(obs, label),
{
    let filled = observe_all(s, obs);
    lemma_open_window_sums(s, obs, label);
    let none = Seq::<ClosedWindow>::empty();
    let pred = keeps(now, s.retention);
    assert(none.filter(pred) =~= none) by {
        reveal(Seq::filter);
    }
    if obs.len() == 0 {
        assert(filled.rolled(now).history == none);
        assert(tally(None, none, label) == None::<Tally>);
    } else {
        let w = ClosedWindow { closed_at: now, buckets: filled.open };
        none.lemma_filter_push(w, pred);
        assert(pred(w));
        let history = filled.rolled(now).history;
        assert(history == none.push(w));
        assert(history.drop_last() =~= none);
        assert(history.last() == w);
        assert(tally(None, none, label) == None::<Tally>);
        assert(tally(None, history, label) == if w.buckets.contains_key(label) {
            Some(absorb(None, w.buckets[label]))
        } else {
            None
        });
    }
}

/// A query right after a reset reports nothing, whatever was recorded before.
pub proof fn lemma_reset_then_query_is_empty(s: StatsState, now: u128)
    ensures
        s.cleared().rolled(now).totals() == Map::<Seq<char>, (u64, u64)>::empty(),
        s.cleared().rolled(now).detailed() == Map::<Seq<char>, TrafficData>::empty(),
        s.cleared().rolled(now) == s.cleared(),
{
    let none = Seq::<ClosedWindow>::empty();
    assert(none.filter(keeps(now, s.retention)) =~= none) by {
        reveal(Seq::filter);
    }
    let q = s.cleared().rolled(now);
    assert(q.history == none);
    assert(q.totals() =~= Map::<Seq<char>, (u64, u64)>::empty());
    assert(q.detailed() =~= Map::<Seq<char>, TrafficData>::empty());
}

/// Merging buckets that each start no later than they end gives totals that
/// start no later than they end.
pub proof fn lemma_tally_span_ordered(acc: Option<Tally>, windows: Seq<ClosedWindow>, label: Seq<char>)
    requires
        acc is Some ==> acc.unwrap().first_seen <= acc.unwrap().last_seen,
        forall|i: int|
            0 <= i < windows.len() && (#[trigger] windows[i]).buckets.contains_key(label)
                ==> windows[i].buckets[label].first_seen <= windows[i].buckets[label].last_seen,
    ensures
        tally(acc, windows, label) is Some ==> tally(acc, windows, label).unwrap().first_seen <= tally(
            acc,
            windows,
            label,
        ).unwrap().last_seen,
    decreases windows.len(),
{
    if windows.len() > 0 {
        let rest = windows.drop_last();
        assert forall|i: int|
            0 <= i < rest.len() && (#[trigger] rest[i]).buckets.contains_key(label)
                implies rest[i].buckets[label].first_seen <= rest[i].buckets[label].last_seen by {
            assert(rest[i] == windows[i]);
        }
        lemma_tally_span_ordered(acc, rest, label);
        assert(windows.last() == windows[windows.len() - 1]);
    }
}

/// A query keeps every bucket's time span in order.
pub proof fn lemma_roll_keeps_order(s: StatsState, now: u128)
    requires
        s.ordered(),
    ensures
        s.rolled(now).ordered(),
{
    let c = s.closed(now);
    assert(c.ordered()) by {
        assert forall|i: int, l: Seq<char>|
            0 <= i < c.history.len() && #[trigger] c.history[i].buckets.contains_key(l)
                implies c.history[i].buckets[l].first_seen <= c.history[i].buckets[l].last_seen by {
            if i < s.history.len() {
                assert(s.history[i].buckets.contains_key(l));
            } else {
                assert(s.open.contains_key(l));
            }
        }
    }
    let p = c.purged(now);
    let pred = keeps(now, s.retention);
    assert forall|i: int, l: Seq<char>|
        0 <= i < p.history.len() && #[trigger] p.history[i].buckets.contains_key(l)
            implies p.history[i].buckets[l].first_seen <= p.history[i].buckets[l].last_seen by {
        let w = p.history[i];
        assert(c.history.filter(pred).contains(w));
        c.history.lemma_filter_contains_rev(pred, w);
        let j = choose|j: int| 0 <= j < c.history.len() && c.history[j] == w;
        assert(c.history[j].buckets.contains_key(l));
    }
}

/// Where every stored bucket starts no later than it ends, so does every
/// bucket that a detailed query reports.
pub proof fn lemma_detailed_spans_ordered(s: StatsState, now: u128, label: Seq<char>)
    requires
        s.ordered(),
        s.rolled(now).detailed().contains_key(label),
    ensures
        s.rolled(now).detailed()[label].first_seen <= s.rolled(now).detailed()[label].last_seen,
{
    lemma_roll_keeps_order(s, now);
    let q = s.rolled(now);
    assert forall|i: int|
        0 <= i < q.history.len() && (#[trigger] q.history[i]).buckets.contains_key(label)
            implies q.history[i].buckets[label].first_seen <= q.history[i].buckets[label].last_seen by {
        assert(q.history[i].buckets.contains_key(label));
    }
    lemma_tally_span_ordered(None, q.history, label);
}

/// Recording traffic keeps the time spans in order as long as the clock has
/// not gone back behind the moment the label's open bucket was first seen.
pub proof fn lemma_observe_keeps_order(s: StatsState, label: Seq<char>, bytes: u64, packets: u64, now: u128)
    requires
        s.ordered(),
        s.open.contains_key(label) ==> s.open[label].first_seen <= now,
    ensures
        s.observe(label, bytes, packets, now).ordered(),
{
    let t = s.observe(label, bytes, packets, now);
    assert forall|l: Seq<char>| #[trigger] t.open.contains_key(l) implies t.open[l].first_seen
        <= t.open[l].last_seen by {
        if l != label {
            assert(s.open.contains_key(l));
        }
    }
    assert forall|i: int, l: Seq<char>|
        0 <= i < t.history.len() && #[trigger] t.history[i].buckets.contains_key(l)
            implies t.history[i].buckets[l].first_seen <= t.history[i].buckets[l].last_seen by {
        assert(s.history[i].buckets.contains_key(l));
    }
}

/// After a query at `now`, no closed window is left whose age has reached
/// the retention period, and the reported totals are those of the windows
/// that are left.
pub proof fn lemma_expired_windows_leave(s: StatsState, now: u128)
    ensures
        forall|j: int|
            0 <= j < s.rolled(now).history.len() ==> age(now, (#[trigger] s.rolled(now).history[j]).closed_at)
                < s.retention,
        forall|w: ClosedWindow|
            age(now, w.closed_at) >= s.retention ==> !(#[trigger] s.rolled(now).history.contains(w)),
{
    let c = s.closed(now);
    let pred = keeps(now, s.retention);
    let kept = c.history.filter(pred);
    assert(s.rolled(now).history == kept);
    assert forall|j: int| 0 <= j < kept.len() implies age(now, (#[trigger] kept[j]).closed_at)
        < s.retention by {
        c.history.lemma_filter_pred(pred, j);
    }
    assert forall|w: ClosedWindow| age(now, w.closed_at) >= s.retention implies !(#[trigger] kept.contains(
        w,
    )) by {
        if kept.contains(w) {
            let j = choose|j: int| 0 <= j < kept.len() && kept[j] == w;
            c.history.lemma_filter_pred(pred, j);
        }
    }
}

/// Where every closed window has expired at `now` and the open window is
/// empty, a query at `now` reports nothing.
pub proof fn lemma_all_expired_reports_nothing(s: StatsState, now: u128)
    requires
        s.open == Map::<Seq<char>, TrafficData>::empty(),
        forall|i: int| 0 <= i < s.history.len() ==> age(now, (#[trigger] s.history[i]).closed_at) >= s.retention,
    ensures
        s.rolled(now).history == Seq::<ClosedWindow>::empty(),
        s.rolled(now).totals() == Map::<Seq<char>, (u64, u64)>::empty(),
{
    let pred = keeps(now, s.retention);
    let kept = s.history.filter(pred);
    if kept.len() > 0 {
        s.history.lemma_filter_pred(pred, 0);
        assert(kept.contains(kept[0]));
        s.history.lemma_filter_contains_rev(pred, kept[0]);
        let j = choose|j: int| 0 <= j < s.history.len() && s.history[j] == kept[0];
        assert(age(now, s.history[j].closed_at) >= s.retention);
    }
    assert(kept =~= Seq::<ClosedWindow>::empty());
    assert(s.rolled(now).totals() =~= Map::<Seq<char>, (u64, u64)>::empty());
}

/// The closed windows stand in the order of their close times.
pub open spec fn ascending(history: Seq<ClosedWindow>) -> bool {
    forall|i: int, j: int|
        0 <= i < j < history.len() ==> (#[trigger] history[i]).closed_at <= (#[trigger] history[j]).closed_at
}

/// Dropping windows from a history keeps the rest in order.
pub proof fn lemma_filter_keeps_ascending(history: Seq<ClosedWindow>, pred: spec_fn(ClosedWindow) -> bool)
    requires
        ascending(history),
    ensures
        ascending(history.filter(pred)),
    decreases history.len(),
{
    reveal(Seq::filter);
    if history.len() > 0 {
        let rest = history.drop_last();
        assert(ascending(rest)) by {
            assert forall|i: int, j: int| 0 <= i < j < rest.len() implies (#[trigger] rest[i]).closed_at <= (
            #[trigger] rest[j]).closed_at by {
                assert(rest[i] == history[i] && rest[j] == history[j]);
            }
        }
        lemma_filter_keeps_ascending(rest, pred);
        let kept = rest.filter(pred);
        let all = history.filter(pred);
        assert forall|i: int, j: int| 0 <= i < j < all.len() implies (#[trigger] all[i]).closed_at <= (
        #[trigger] all[j]).closed_at by {
            if j < kept.len() {
                assert(all[i] == kept[i] && all[j] == kept[j]);
            } else {
                assert(all[j] == history.last());
                assert(all[i] == kept[i]);
                assert(kept.contains(kept[i]));
                rest.lemma_filter_contains_rev(pred, kept[i]);
                let m = choose|m: int| 0 <= m < rest.len() && rest[m] == kept[i];
                assert(history[m] == kept[i]);
                assert(history[m].closed_at <= history[history.len() - 1].closed_at);
            }
        }
    }
}

/// A query keeps the history in the order of close times, as long as the
/// clock has not gone back behind the close of an earlier window.
pub proof fn lemma_roll_keeps_history_ascending(s: StatsState, now: u128)
    requires
        ascending(s.history),
        forall|i: int| 0 <= i < s.history.len() ==> (#[trigger] s.history[i]).closed_at <= now,
    ensures
        ascending(s.rolled(now).history),
{
    let c = s.closed(now);
    assert(ascending(c.history)) by {
        assert forall|i: int, j: int| 0 <= i < j < c.history.len() implies (#[trigger] c.history[i]).closed_at
            <= (#[trigger] c.history[j]).closed_at by {
            if j < s.history.len() {
                assert(c.history[i] == s.history[i] && c.history[j] == s.history[j]);
            } else {
                assert(c.history[i] == s.history[i]);
            }
        }
    }
    lemma_filter_keeps_ascending(c.history, keeps(now, s.retention));
}

/// With nothing in the open window, what is reported for one service is its
/// entry in the merge of the history.
pub proof fn lemma_service_matches_detailed(s: StatsState, label: Seq<char>)
    requires
        s.open == Map::<Seq<char>, TrafficData>::empty(),
    ensures
        s.service(label) == lookup(s.detailed(), label),
{
}

} // verus!
