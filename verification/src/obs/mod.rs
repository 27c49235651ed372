//! What is observed of the reconciles, and how it is exposed.

use std::sync::atomic::{AtomicI64, AtomicU64};

use vstd::prelude::*;

use prometheus_client::metrics::counter::Counter;
use prometheus_client::metrics::gauge::Gauge;

pub mod guarantees;
pub mod laws;
pub mod series;

use series::{CounterFamily, Durations, DurationsModel, Entry, Exposition, GaugeFamily, LabelSet};

verus! {

/// What set off a reconcile.
#[derive(Debug, Clone, Copy, PartialEq, Eq, Structural)]
pub enum Trigger {
    /// The start of the daemon.
    Startup,
    /// A Docker event.
    Event,
    /// The periodic resync.
    Resync,
}

/// A trigger as a label value.
pub open spec fn trigger_text(t: Trigger) -> Seq<char> {
    match t {
        Trigger::Startup => "startup"@,
        Trigger::Event => "event"@,
        Trigger::Resync => "resync"@,
    }
}

impl Trigger {
    /// The trigger as a label value.
    pub fn as_str(self) -> (r: &'static str)
        ensures
            r@ == trigger_text(self),
    {
        match self {
            Trigger::Startup => "startup",
            Trigger::Event => "event",
            Trigger::Resync => "resync",
        }
    }
}

/// What a successful reconcile found.
#[derive(Debug, PartialEq, Eq)]
pub struct ReconcileStats {
    /// How many containers are routed.
    pub members: usize,
    /// The gateways, and whether the egress of each is available.
    pub gateways: Vec<(String, bool)>,
}

/// The model of a [`ReconcileStats`].
pub struct StatsModel {
    /// See [`ReconcileStats::members`].
    pub members: nat,
    /// See [`ReconcileStats::gateways`].
    pub gateways: Seq<(Seq<char>, bool)>,
}

/// The contents of a list of gateways and whether each is available.
pub open spec fn availabilities(v: Seq<(String, bool)>) -> Seq<(Seq<char>, bool)> {
    v.map_values(|g: (String, bool)| (g.0@, g.1))
}

impl View for ReconcileStats {
    type V = StatsModel;

    open spec fn view(&self) -> StatsModel {
        StatsModel { members: self.members as nat, gateways: availabilities(self.gateways@) }
    }
}

/// A number that fits, or the largest that does.
pub open spec fn clamped(n: nat) -> i64 {
    if n <= i64::MAX {
        n as i64
    } else {
        i64::MAX
    }
}

/// Fits a size into a gauge.
pub fn clamp(v: usize) -> (r: i64)
    ensures
        r == clamped(v as nat),
{
    clamp_u64(v as u64)
}

/// Fits a number into a gauge.
pub fn clamp_u64(v: u64) -> (r: i64)
    ensures
        r == clamped(v as nat),
{
    if v <= i64::MAX as u64 {
        v as i64
    } else {
        i64::MAX
    }
}

// ---------------------------------------------------------------------------
// The metrics

/// The metrics of the reconciles.
pub struct Metrics {
    build: GaugeFamily,
    reconciles: CounterFamily,
    duration: Durations,
    last_success: Gauge<i64, AtomicI64>,
    members: Gauge<i64, AtomicI64>,
    gateways: Gauge<i64, AtomicI64>,
    gateway_available: GaugeFamily,
    ready: Gauge<i64, AtomicI64>,
    watch_restarts: Counter<u64, AtomicU64>,
}

/// The model of [`Metrics`].
pub struct MetricsModel {
    /// The version, as a label of the number one.
    pub build: Map<Seq<(Seq<char>, Seq<char>)>, i64>,
    /// How many reconciles there were, by trigger and result.
    pub reconciles: Map<Seq<(Seq<char>, Seq<char>)>, u64>,
    /// How long the reconciles took.
    pub durations: DurationsModel,
    /// When the last successful reconcile was.
    pub last_success: i64,
    /// How many containers it routed.
    pub members: i64,
    /// How many gateways it found.
    pub gateways: i64,
    /// Whether each of them is available.
    pub gateway_available: Map<Seq<(Seq<char>, Seq<char>)>, i64>,
    /// Whether there was a successful reconcile.
    pub ready: i64,
    /// How often the watch of Docker events was set up again.
    pub watch_restarts: u64,
}

impl View for Metrics {
    type V = MetricsModel;

    closed spec fn view(&self) -> MetricsModel {
        MetricsModel {
            build: series::gauge_series(self.build),
            reconciles: series::counter_series(self.reconciles),
            durations: self.duration@,
            last_success: series::gauge_value(self.last_success),
            members: series::gauge_value(self.members),
            gateways: series::gauge_value(self.gateways),
            gateway_available: series::gauge_series(self.gateway_available),
            ready: series::gauge_value(self.ready),
            watch_restarts: series::counter_value(self.watch_restarts),
        }
    }
}

/// The bounds of the buckets for durations, in nanoseconds: from half a
/// millisecond to five seconds.
pub open spec fn duration_bounds() -> Seq<u64> {
    seq![
        500_000,
        1_000_000,
        2_500_000,
        5_000_000,
        10_000_000,
        25_000_000,
        50_000_000,
        100_000_000,
        250_000_000,
        500_000_000,
        1_000_000_000,
        5_000_000_000,
    ]
}

/// The metrics before the first reconcile.
pub open spec fn initial(version: Seq<char>) -> MetricsModel {
    MetricsModel {
        build: series::no_gauges().insert(seq![("version"@, version)], 1),
        reconciles: series::no_counters(),
        durations: DurationsModel {
            bounds: duration_bounds(),
            observed: series::no_durations(),
        },
        last_success: 0,
        members: 0,
        gateways: 0,
        gateway_available: series::no_gauges(),
        ready: 0,
        watch_restarts: 0,
    }
}

/// The labels of a reconcile.
pub open spec fn reconcile_labels(trigger: Trigger, success: bool) -> Seq<(Seq<char>, Seq<char>)> {
    seq![
        ("trigger"@, trigger_text(trigger)),
        (
            "result"@,
            if success {
                "success"@
            } else {
                "error"@
            },
        ),
    ]
}

/// The availability of each gateway: one, or zero where it is not available.
pub open spec fn available(gateways: Seq<(Seq<char>, bool)>) -> Map<
    Seq<(Seq<char>, Seq<char>)>,
    i64,
>
    decreases gateways.len(),
{
    if gateways.len() == 0 {
        series::no_gauges()
    } else {
        available(gateways.drop_last()).insert(
            seq![("gateway"@, gateways.last().0)],
            if gateways.last().1 {
                1
            } else {
                0
            },
        )
    }
}

/// The metrics after a reconcile at time `now`, in seconds, that took `elapsed`
/// nanoseconds. Each is counted and its duration observed; only a successful one
/// changes the rest, and it leaves nothing of gateways that are no longer there.
pub open spec fn recorded(
    m: MetricsModel,
    trigger: Trigger,
    elapsed: u64,
    now: u64,
    outcome: Option<StatsModel>,
) -> MetricsModel {
    let reconciles = series::counted_in(
        m.reconciles,
        reconcile_labels(trigger, outcome is Some),
    );
    let durations = DurationsModel {
        observed: m.durations.observed.insert(elapsed),
        ..m.durations
    };
    match outcome {
        None => MetricsModel { reconciles, durations, ..m },
        Some(stats) => MetricsModel {
            reconciles,
            durations,
            last_success: clamped(now as nat),
            members: clamped(stats.members),
            gateways: clamped(stats.gateways.len()),
            gateway_available: available(stats.gateways),
            ready: 1,
            ..m
        },
    }
}

/// The metrics after the watch of Docker events was set up again.
pub open spec fn restarted(m: MetricsModel) -> MetricsModel {
    MetricsModel { watch_restarts: series::counted(m.watch_restarts), ..m }
}

/// The model of a reconcile's outcome.
pub open spec fn outcome_model(outcome: Option<&ReconcileStats>) -> Option<StatsModel> {
    match outcome {
        Some(stats) => Some(stats@),
        None => None,
    }
}

/// What is exposed of the metrics.
pub open spec fn entries_of(m: MetricsModel) -> Seq<Entry> {
    seq![
        Entry::Gauges { name: "degc_build_info"@, help: "Build information"@, series: m.build },
        Entry::Counters {
            name: "degc_reconciles"@,
            help: "Reconciles attempted"@,
            series: m.reconciles,
        },
        Entry::Histogram {
            name: "degc_reconcile_duration_seconds"@,
            help: "Reconcile duration"@,
            classic: true,
            count: m.durations.observed.len(),
        },
        Entry::Gauge {
            name: "degc_last_reconcile_success_timestamp_seconds"@,
            help: "Unix time of the last successful reconcile"@,
            value: m.last_success,
        },
        Entry::Gauge {
            name: "degc_members"@,
            help: "Opted-in member containers routed in the last reconcile"@,
            value: m.members,
        },
        Entry::Gauge {
            name: "degc_gateways"@,
            help: "Gateways in the last reconcile (config + discovered)"@,
            value: m.gateways,
        },
        Entry::Gauges {
            name: "degc_gateway_available"@,
            help: "Whether a gateway's egress resolved (1) or is fail-closed / blackholed (0)"@,
            series: m.gateway_available,
        },
        Entry::Gauge {
            name: "degc_ready"@,
            help: "Whether at least one reconcile has succeeded"@,
            value: m.ready,
        },
        Entry::Counter {
            name: "degc_watch_restarts"@,
            help: "Docker event watcher re-establishments"@,
            value: m.watch_restarts,
        },
    ]
}

/// A set of one label.
fn one_label(name: &str, value: &str) -> (r: LabelSet)
    ensures
        series::label_set(r@) == seq![(name@, value@)],
{
    let r = vec![(name.to_owned(), value.to_owned())];
    assert(series::label_set(r@) =~= seq![(name@, value@)]);
    r
}

impl Metrics {
    /// The metrics before the first reconcile.
    pub fn new(version: &str) -> (r: Self)
        ensures
            r@ == initial(version@),
    {
        let bounds: Vec<u64> = vec![
            500_000,
            1_000_000,
            2_500_000,
            5_000_000,
            10_000_000,
            25_000_000,
            50_000_000,
            100_000_000,
            250_000_000,
            500_000_000,
            1_000_000_000,
            5_000_000_000,
        ];
        assert(bounds@ =~= duration_bounds());
        let mut build = series::new_gauge_family();
        series::set_in_family(&mut build, &one_label("version", version), 1);
        Metrics {
            build,
            reconciles: series::new_counter_family(),
            duration: Durations::new(&bounds),
            last_success: series::new_gauge(),
            members: series::new_gauge(),
            gateways: series::new_gauge(),
            gateway_available: series::new_gauge_family(),
            ready: series::new_gauge(),
            watch_restarts: series::new_counter(),
        }
    }

    /// Records a reconcile that took `elapsed` nanoseconds and ended at time
    /// `now`, in seconds: with what it found, or nothing where it failed.
    /// Durations are counted in 64 bits.
    pub fn record(
        &mut self,
        trigger: Trigger,
        elapsed: u64,
        now: u64,
        outcome: Option<&ReconcileStats>,
    )
        requires
            old(self)@.durations.observed.len() < u64::MAX,
        ensures
            final(self)@ == recorded(old(self)@, trigger, elapsed, now, outcome_model(outcome)),
    {
        let result = if outcome.is_some() {
            "success"
        } else {
            "error"
        };
        let labels = vec![
            ("trigger".to_owned(), trigger.as_str().to_owned()),
            ("result".to_owned(), result.to_owned()),
        ];
        assert(series::label_set(labels@) =~= reconcile_labels(trigger, outcome is Some));
        series::inc_in_family(&mut self.reconciles, &labels);
        self.duration.observe(elapsed);
        if let Some(stats) = outcome {
            series::set_gauge(&mut self.members, clamp(stats.members));
            series::set_gauge(&mut self.gateways, clamp(stats.gateways.len()));
            series::clear_family(&mut self.gateway_available);
            let ghost gs = stats@.gateways;
            let ghost before = self@;
            for i in 0..stats.gateways.len()
                invariant
                    gs == stats@.gateways,
                    self@ == (MetricsModel {
                        gateway_available: available(gs.take(i as int)),
                        ..before
                    }),
            {
                let g = &stats.gateways[i];
                assert(gs.take(i + 1).drop_last() == gs.take(i as int));
                assert(gs.take(i + 1).last() == (g.0@, g.1));
                let up = if g.1 {
                    1i64
                } else {
                    0i64
                };
                let of = one_label("gateway", g.0.as_str());
                series::set_in_family(&mut self.gateway_available, &of, up);
            }
            assert(gs.take(gs.len() as int) == gs);
            series::set_gauge(&mut self.last_success, clamp_u64(now));
            series::set_gauge(&mut self.ready, 1);
        }
    }

    /// Counts that the watch of Docker events was set up again.
    pub fn watch_restarted(&mut self)
        ensures
            final(self)@ == restarted(old(self)@),
    {
        series::inc_counter(&mut self.watch_restarts);
    }

    /// Whether there was a successful reconcile.
    pub fn ready(&self) -> (r: bool)
        ensures
            r == (self@.ready == 1),
    {
        series::get_gauge(&self.ready) == 1
    }

    /// The answer to a question for readiness: a status and a text.
    pub fn readiness(&self) -> (r: (u16, &'static str))
        ensures
            self@.ready == 1 ==> r.0 == 200 && r.1@ == "ok\n"@,
            self@.ready != 1 ==> r.0 == 503 && r.1@ == "not ready\n"@,
    {
        if self.ready() {
            (200, "ok\n")
        } else {
            (503, "not ready\n")
        }
    }

    /// Adds all metrics to an exposition.
    fn exposition<'a>(&'a self) -> (r: Exposition<'a>)
        ensures
            r.entries() == entries_of(self@),
    {
        let mut e = Exposition::new();
        series::show_gauges(&mut e, "degc_build_info", "Build information", &self.build);
        series::show_counters(
            &mut e,
            "degc_reconciles",
            "Reconciles attempted",
            &self.reconciles,
        );
        series::show_durations(
            &mut e,
            "degc_reconcile_duration_seconds",
            "Reconcile duration",
            &self.duration,
        );
        series::show_gauge(
            &mut e,
            "degc_last_reconcile_success_timestamp_seconds",
            "Unix time of the last successful reconcile",
            &self.last_success,
        );
        series::show_gauge(
            &mut e,
            "degc_members",
            "Opted-in member containers routed in the last reconcile",
            &self.members,
        );
        series::show_gauge(
            &mut e,
            "degc_gateways",
            "Gateways in the last reconcile (config + discovered)",
            &self.gateways,
        );
        series::show_gauges(
            &mut e,
            "degc_gateway_available",
            "Whether a gateway's egress resolved (1) or is fail-closed / blackholed (0)",
            &self.gateway_available,
        );
        series::show_gauge(
            &mut e,
            "degc_ready",
            "Whether at least one reconcile has succeeded",
            &self.ready,
        );
        series::show_counter(
            &mut e,
            "degc_watch_restarts",
            "Docker event watcher re-establishments",
            &self.watch_restarts,
        );
        assert(e.entries() =~= entries_of(self@));
        e
    }

    /// Writes the metrics in the OpenMetrics text format.
    pub fn render(&self) -> (r: String)
        ensures
            series::shows_all(entries_of(self@), r@),
    {
        match series::expose(&self.exposition()) {
            Some(s) => s,
            None => {
                // Classic buckets can always be written.
                assert(false);
                String::new()
            },
        }
    }
}

} // verus!
