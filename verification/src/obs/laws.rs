//! What holds of the metrics.

use vstd::prelude::*;

use crate::obs;
use crate::obs::series;
use crate::obs::series::{DurationsModel, Entry};
use crate::obs::{MetricsModel, StatsModel, Trigger};
use crate::text;

verus! {

/// A reconcile that is recorded.
pub struct Reconcile {
    /// What set it off.
    pub trigger: Trigger,
    /// How long it took, in nanoseconds.
    pub elapsed: u64,
    /// When it ended, in seconds.
    pub now: u64,
    /// What it found, or nothing where it failed.
    pub outcome: Option<StatsModel>,
}

/// Whatever changes the metrics.
pub enum Happening {
    /// A reconcile was recorded.
    Reconciled(Reconcile),
    /// The watch of Docker events was set up again.
    WatchRestarted,
}

impl Happening {
    /// Whether this is a reconcile that succeeded.
    pub open spec fn is_success(self) -> bool {
        self is Reconciled && self->Reconciled_0.outcome is Some
    }
}

/// The metrics after all this happened.
pub open spec fn metrics_after(
    version: Seq<char>,
    past: Seq<Happening>,
) -> MetricsModel
    decreases past.len(),
{
    if past.len() == 0 {
        obs::initial(version)
    } else {
        let before = metrics_after(version, past.drop_last());
        match past.last() {
            Happening::Reconciled(r) => obs::recorded(before, r.trigger, r.elapsed, r.now, r.outcome),
            Happening::WatchRestarted => obs::restarted(before),
        }
    }
}

/// The daemon is ready exactly where some reconcile succeeded; so once it is
/// ready it stays so, whatever happens later.
pub proof fn ready_after_the_first_success(
    version: Seq<char>,
    past: Seq<Happening>,
)
    ensures
        metrics_after(version, past).ready == 0 || metrics_after(version, past).ready == 1,
        metrics_after(version, past).ready == 1 <==> exists|i: int|
            0 <= i < past.len() && (#[trigger] past[i]).is_success(),
    decreases past.len(),
{
    if past.len() > 0 {
        let before = past.drop_last();
        ready_after_the_first_success(version, before);
        let n = past.len() - 1;
        assert(past[n] == past.last());
        if exists|i: int| 0 <= i < before.len() && (#[trigger] before[i]).is_success() {
            let i = choose|i: int| 0 <= i < before.len() && (#[trigger] before[i]).is_success();
            assert(past[i].is_success());
        }
        if exists|i: int| 0 <= i < past.len() && (#[trigger] past[i]).is_success() {
            let i = choose|i: int| 0 <= i < past.len() && (#[trigger] past[i]).is_success();
            if i < n {
                assert(before[i].is_success());
            }
        }
    }
}

/// How many reconciles were recorded.
pub open spec fn reconciles_in(past: Seq<Happening>) -> nat
    decreases past.len(),
{
    if past.len() == 0 {
        0
    } else if past.last() is Reconciled {
        reconciles_in(past.drop_last()) + 1
    } else {
        reconciles_in(past.drop_last())
    }
}

/// As many durations are observed as there were reconciles, whether they
/// succeeded or failed, always in the same buckets.
pub proof fn each_reconcile_is_observed_once(version: Seq<char>, past: Seq<Happening>)
    ensures
        metrics_after(version, past).durations.observed.len() == reconciles_in(past),
        metrics_after(version, past).durations.bounds == obs::duration_bounds(),
    decreases past.len(),
{
    if past.len() > 0 {
        each_reconcile_is_observed_once(version, past.drop_last());
    }
}

/// A reconcile that failed is counted, its duration is observed, and nothing
/// else changes.
pub proof fn failure_is_only_counted(m: MetricsModel, trigger: Trigger, elapsed: u64, now: u64)
    ensures
        ({
            let after = obs::recorded(m, trigger, elapsed, now, None);
            &&& after == (MetricsModel {
                reconciles: series::counted_in(
                    m.reconciles,
                    obs::reconcile_labels(trigger, false),
                ),
                durations: DurationsModel {
                    observed: m.durations.observed.insert(elapsed),
                    ..m.durations
                },
                ..m
            })
            &&& after.durations.observed.len() == m.durations.observed.len() + 1
        }),
{
}

/// Each reconcile is counted once, under its trigger and its result; the other
/// counts stay as they are.
pub proof fn each_reconcile_is_counted_once(
    m: MetricsModel,
    trigger: Trigger,
    elapsed: u64,
    now: u64,
    outcome: Option<StatsModel>,
    other: Seq<(Seq<char>, Seq<char>)>,
)
    requires
        other != obs::reconcile_labels(trigger, outcome is Some),
    ensures
        ({
            let labels = obs::reconcile_labels(trigger, outcome is Some);
            let after = obs::recorded(m, trigger, elapsed, now, outcome).reconciles;
            &&& after.dom().contains(labels)
            &&& after[labels] == (if m.reconciles.dom().contains(labels) {
                series::counted(m.reconciles[labels])
            } else {
                1
            })
            &&& after.dom().contains(other) == m.reconciles.dom().contains(other)
            &&& after[other] == m.reconciles[other]
        }),
{
}

/// The availability has a series for exactly the listed gateways.
proof fn lemma_available(gateways: Seq<(Seq<char>, bool)>, labels: Seq<(Seq<char>, Seq<char>)>)
    ensures
        obs::available(gateways).dom().contains(labels) <==> exists|i: int|
            0 <= i < gateways.len() && labels == seq![("gateway"@, (#[trigger] gateways[i]).0)],
    decreases gateways.len(),
{
    if gateways.len() > 0 {
        let before = gateways.drop_last();
        lemma_available(before, labels);
        let n = gateways.len() - 1;
        assert(gateways[n] == gateways.last());
        if exists|i: int|
            0 <= i < before.len() && labels == seq![("gateway"@, (#[trigger] before[i]).0)] {
            let i = choose|i: int|
                0 <= i < before.len() && labels == seq![("gateway"@, (#[trigger] before[i]).0)];
            assert(labels == seq![("gateway"@, gateways[i].0)]);
        }
        if exists|i: int|
            0 <= i < gateways.len() && labels == seq![("gateway"@, (#[trigger] gateways[i]).0)] {
            let i = choose|i: int|
                0 <= i < gateways.len() && labels == seq![("gateway"@, (#[trigger] gateways[i]).0)];
            if i < n {
                assert(labels == seq![("gateway"@, before[i].0)]);
            }
        }
    }
}

/// After a successful reconcile exactly the gateways that it found have a
/// series; nothing is left of one that is gone.
pub proof fn stale_gateways_are_dropped(
    m: MetricsModel,
    trigger: Trigger,
    elapsed: u64,
    now: u64,
    stats: StatsModel,
    labels: Seq<(Seq<char>, Seq<char>)>,
)
    ensures
        obs::recorded(m, trigger, elapsed, now, Some(stats)).gateway_available.dom().contains(labels)
            <==> exists|i: int|
            0 <= i < stats.gateways.len() && labels == seq![
                ("gateway"@, (#[trigger] stats.gateways[i]).0),
            ],
{
    lemma_available(stats.gateways, labels);
}

/// A gateway of a name that occurs once is said to be available exactly where it
/// is.
pub proof fn availability_is_said(gateways: Seq<(Seq<char>, bool)>, i: int)
    requires
        0 <= i < gateways.len(),
        forall|j: int| i < j < gateways.len() ==> (#[trigger] gateways[j]).0 != gateways[i].0,
    ensures
        obs::available(gateways)[seq![("gateway"@, gateways[i].0)]] == (if gateways[i].1 {
            1i64
        } else {
            0i64
        }),
    decreases gateways.len(),
{
    let n = gateways.len() - 1;
    let labels = seq![("gateway"@, gateways[i].0)];
    assert(gateways[n] == gateways.last());
    if i < n {
        let before = gateways.drop_last();
        assert forall|j: int| i < j < before.len() implies (#[trigger] before[j]).0
            != before[i].0 by {
            assert(before[j] == gateways[j]);
        }
        availability_is_said(before, i);
        let other = seq![("gateway"@, gateways[n].0)];
        assert(labels[0].1 != other[0].1);
        assert(labels != other);
    }
}

/// A block is a part of the text that it stands in.
proof fn lemma_block(blocks: Seq<Seq<char>>, i: int)
    requires
        0 <= i < blocks.len(),
    ensures
        text::has_part(blocks.flatten(), blocks[i]),
    decreases blocks.len(),
{
    let rest = blocks.drop_first();
    if i == 0 {
        text::lemma_part(Seq::empty(), blocks[0], rest.flatten());
        assert(Seq::empty() + blocks[0] + rest.flatten() =~= blocks[0] + rest.flatten());
    } else {
        lemma_block(rest, i - 1);
        assert(rest[i - 1] == blocks[i]);
        text::lemma_last_part(blocks[0], rest.flatten());
        text::lemma_part_of_part(blocks.flatten(), rest.flatten(), blocks[i]);
    }
}

/// The text of the metrics shows the value of each gauge, on a line of its own.
pub proof fn gauges_are_shown(entries: Seq<Entry>, s: Seq<char>, i: int)
    requires
        series::shows_all(entries, s),
        0 <= i < entries.len(),
        entries[i] is Gauge,
    ensures
        text::has_part(
            s,
            entries[i]->Gauge_name + " "@ + series::int_text(entries[i]->Gauge_value) + "\n"@,
        ),
{
    let blocks = choose|blocks: Seq<Seq<char>>|
        blocks.len() == entries.len() && (forall|i: int|
            0 <= i < blocks.len() ==> series::shows(entries[i], #[trigger] blocks[i])) && s
            == #[trigger] blocks.flatten() + "# EOF\n"@;
    let name = entries[i]->Gauge_name;
    let head = series::head_text(name, entries[i]->Gauge_help, "gauge"@);
    let line = name + " "@ + series::int_text(entries[i]->Gauge_value) + "\n"@;
    assert(series::shows(entries[i], blocks[i]));
    assert(blocks[i] =~= head + line);
    text::lemma_last_part(head, line);
    lemma_block(blocks, i);
    text::lemma_part_of_part(blocks.flatten(), blocks[i], line);
    text::lemma_earlier_part(blocks.flatten(), "# EOF\n"@, line);
}

/// The text of the metrics says how many reconciles were observed, on a line of
/// its own.
pub proof fn observations_are_shown(m: MetricsModel, s: Seq<char>)
    requires
        series::shows_all(obs::entries_of(m), s),
    ensures
        text::has_part(
            s,
            "degc_reconcile_duration_seconds"@ + "_count "@ + text::decimal_text(
                m.durations.observed.len(),
            ) + "\n"@,
        ),
{
    let entries = obs::entries_of(m);
    let blocks = choose|blocks: Seq<Seq<char>>|
        blocks.len() == entries.len() && (forall|i: int|
            0 <= i < blocks.len() ==> series::shows(entries[i], #[trigger] blocks[i])) && s
            == #[trigger] blocks.flatten() + "# EOF\n"@;
    assert(series::shows(entries[2], blocks[2]));
    let name = entries[2]->Histogram_name;
    let help = entries[2]->Histogram_help;
    let count = entries[2]->Histogram_count;
    let (sum, buckets) = choose|sum: Seq<char>, buckets: Seq<char>|
        !sum.contains('\n') && blocks[2] == #[trigger] series::histogram_text(
            name,
            help,
            count,
            sum,
            buckets,
        );
    let first = series::head_text(name, help, "histogram"@) + name + "_sum "@ + sum + "\n"@;
    let line = name + "_count "@ + text::decimal_text(count) + "\n"@;
    assert(blocks[2] =~= first + line + buckets);
    text::lemma_part(first, line, buckets);
    lemma_block(blocks, 2);
    text::lemma_part_of_part(blocks.flatten(), blocks[2], line);
    text::lemma_earlier_part(blocks.flatten(), "# EOF\n"@, line);
}

/// The text of the metrics says whether the daemon is ready.
pub proof fn readiness_is_shown(m: MetricsModel, s: Seq<char>)
    requires
        series::shows_all(obs::entries_of(m), s),
    ensures
        text::has_part(s, "degc_ready"@ + " "@ + series::int_text(m.ready) + "\n"@),
{
    gauges_are_shown(obs::entries_of(m), s, 7);
}

} // verus!
