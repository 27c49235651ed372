//! The metrics of the `prometheus_client` crate: gauges, counters, families of
//! them, and their exposition as text.
//!
//! A handle and its clones share one value. No clone is handed out here, and an
//! exposition borrows the handles that it shows, so what is said of a handle
//! holds until it is next changed through `&mut`.

use std::marker::PhantomData;
use std::sync::atomic::{AtomicI64, AtomicU64};
use std::time::Duration;

use vstd::multiset::Multiset;
use vstd::prelude::*;

use prometheus_client::metrics::counter::Counter;
use prometheus_client::metrics::family::Family;
use prometheus_client::metrics::gauge::Gauge;
use prometheus_client::metrics::histogram::Histogram;
use prometheus_client::registry::Registry;

use crate::text;

verus! {

/// A number that goes up and down.
#[verifier::external_type_specification]
#[verifier::external_body]
#[verifier::reject_recursive_types(N)]
#[verifier::reject_recursive_types(A)]
pub struct ExGauge<N, A>(Gauge<N, A>);

/// A number that only goes up.
#[verifier::external_type_specification]
#[verifier::external_body]
#[verifier::reject_recursive_types(N)]
#[verifier::reject_recursive_types(A)]
pub struct ExCounter<N, A>(Counter<N, A>);

/// A distribution.
#[verifier::external_type_specification]
#[verifier::external_body]
pub struct ExHistogram(Histogram);

/// A list of metrics to expose.
#[verifier::external_type_specification]
#[verifier::external_body]
pub struct ExRegistry(Registry);

/// The value of a gauge.
pub uninterp spec fn gauge_value(g: Gauge<i64, AtomicI64>) -> i64;

/// Makes a gauge with `Gauge::default`. It starts at zero.
#[verifier::external_body]
pub(crate) fn new_gauge() -> (r: Gauge<i64, AtomicI64>)
    ensures
        gauge_value(r) == 0,
{
    Gauge::default()
}

/// Sets a gauge with `Gauge::set`, which stores the value.
#[verifier::external_body]
pub(crate) fn set_gauge(g: &mut Gauge<i64, AtomicI64>, value: i64)
    ensures
        gauge_value(*final(g)) == value,
{
    g.set(value);
}

/// Reads a gauge with `Gauge::get`, which loads the value.
#[verifier::external_body]
pub(crate) fn get_gauge(g: &Gauge<i64, AtomicI64>) -> (r: i64)
    ensures
        r == gauge_value(*g),
{
    g.get()
}

/// The value of a counter.
pub uninterp spec fn counter_value(c: Counter<u64, AtomicU64>) -> u64;

/// One more, as an atomic counter counts: it wraps around at the largest number.
pub open spec fn counted(n: u64) -> u64 {
    if n == u64::MAX {
        0
    } else {
        (n + 1) as u64
    }
}

/// Makes a counter with `Counter::default`. It starts at zero.
#[verifier::external_body]
pub(crate) fn new_counter() -> (r: Counter<u64, AtomicU64>)
    ensures
        counter_value(r) == 0,
{
    Counter::default()
}

/// Counts with `Counter::inc`, which adds one to an atomic number.
#[verifier::external_body]
pub(crate) fn inc_counter(c: &mut Counter<u64, AtomicU64>)
    ensures
        counter_value(*final(c)) == counted(counter_value(*old(c))),
{
    c.inc();
}

// ---------------------------------------------------------------------------
// Families

/// Labels: names and values.
pub type LabelSet = Vec<(String, String)>;

/// The contents of labels.
pub open spec fn label_set(v: Seq<(String, String)>) -> Seq<(Seq<char>, Seq<char>)> {
    v.map_values(|p: (String, String)| (p.0@, p.1@))
}

/// A family of gauges, one for each set of labels. The type of a family names a
/// function pointer, which the verifier does not take, so it is held in here.
#[verifier::external_body]
pub struct GaugeFamily {
    family: Family<LabelSet, Gauge<i64, AtomicI64>>,
}

/// The values of a family of gauges.
pub uninterp spec fn gauge_series(f: GaugeFamily) -> Map<Seq<(Seq<char>, Seq<char>)>, i64>;

/// No series.
pub open spec fn no_gauges() -> Map<Seq<(Seq<char>, Seq<char>)>, i64> {
    Map::empty()
}

/// Makes a family of gauges with `Family::default`. It has no series.
#[verifier::external_body]
pub(crate) fn new_gauge_family() -> (r: GaugeFamily)
    ensures
        gauge_series(r) == no_gauges(),
{
    GaugeFamily { family: Family::default() }
}

/// Sets the gauge that `Family::get_or_create` finds or makes for the labels.
/// The other series stay as they are.
#[verifier::external_body]
pub(crate) fn set_in_family(f: &mut GaugeFamily, labels: &LabelSet, value: i64)
    ensures
        gauge_series(*final(f)) == gauge_series(*old(f)).insert(label_set(labels@), value),
{
    f.family.get_or_create(labels).set(value);
}

/// Drops every series with `Family::clear`.
#[verifier::external_body]
pub(crate) fn clear_family(f: &mut GaugeFamily)
    ensures
        gauge_series(*final(f)) == no_gauges(),
{
    f.family.clear();
}

/// A family of counters, one for each set of labels, held in here as
/// [`GaugeFamily`] holds one.
#[verifier::external_body]
pub struct CounterFamily {
    family: Family<LabelSet, Counter<u64, AtomicU64>>,
}

/// The values of a family of counters.
pub uninterp spec fn counter_series(f: CounterFamily) -> Map<Seq<(Seq<char>, Seq<char>)>, u64>;

/// A family's values after one more was counted under the labels. A series that
/// was not there starts at zero.
pub open spec fn counted_in(
    series: Map<Seq<(Seq<char>, Seq<char>)>, u64>,
    labels: Seq<(Seq<char>, Seq<char>)>,
) -> Map<Seq<(Seq<char>, Seq<char>)>, u64> {
    series.insert(
        labels,
        if series.dom().contains(labels) {
            counted(series[labels])
        } else {
            1
        },
    )
}

/// No series.
pub open spec fn no_counters() -> Map<Seq<(Seq<char>, Seq<char>)>, u64> {
    Map::empty()
}

/// Makes a family of counters with `Family::default`. It has no series.
#[verifier::external_body]
pub(crate) fn new_counter_family() -> (r: CounterFamily)
    ensures
        counter_series(r) == no_counters(),
{
    CounterFamily { family: Family::default() }
}

/// Counts with the counter that `Family::get_or_create` finds or makes for the
/// labels. The other series stay as they are.
#[verifier::external_body]
pub(crate) fn inc_in_family(f: &mut CounterFamily, labels: &LabelSet)
    ensures
        counter_series(*final(f)) == counted_in(counter_series(*old(f)), label_set(labels@)),
{
    f.family.get_or_create(labels).inc();
}

// ---------------------------------------------------------------------------
// Distributions

/// The bounds of the buckets that a distribution counts durations in, in
/// nanoseconds, where it was made with `Histogram::new` and these bounds, in
/// seconds. One that was made otherwise has none. Nothing that is observed
/// changes them.
pub uninterp spec fn bounds_of(h: Histogram) -> Option<Seq<u64>>;

/// The durations that were observed in a distribution, in nanoseconds.
pub uninterp spec fn durations_of(h: Histogram) -> Multiset<u64>;

/// No durations.
pub open spec fn no_durations() -> Multiset<u64> {
    Multiset::empty()
}

/// Makes a distribution with `Histogram::new`, from bounds in nanoseconds. It
/// has classic buckets alone, and nothing was observed in it.
#[verifier::external_body]
fn new_histogram(bounds: &Vec<u64>) -> (r: Histogram)
    ensures
        bounds_of(r) == Some(bounds@),
        durations_of(r) == no_durations(),
{
    Histogram::new(bounds.iter().map(|b| Duration::from_nanos(*b).as_secs_f64()))
}

/// Observes a duration, given in nanoseconds, with `Histogram::observe`. In
/// classic buckets it counts one more observation. What was observed is counted
/// in 64 bits; below that limit it does not panic.
#[verifier::external_body]
fn observe(h: &mut Histogram, nanos: u64)
    requires
        bounds_of(*old(h)) is Some,
        durations_of(*old(h)).len() < u64::MAX,
    ensures
        bounds_of(*final(h)) == bounds_of(*old(h)),
        durations_of(*final(h)) == durations_of(*old(h)).insert(nanos),
    no_unwind
{
    h.observe(Duration::from_nanos(nanos).as_secs_f64());
}

/// A distribution of durations, in classic buckets.
pub struct Durations {
    histogram: Histogram,
}

/// The model of [`Durations`].
pub struct DurationsModel {
    /// The bounds of the buckets, in nanoseconds.
    pub bounds: Seq<u64>,
    /// What was observed, in nanoseconds.
    pub observed: Multiset<u64>,
}

impl View for Durations {
    type V = DurationsModel;

    closed spec fn view(&self) -> DurationsModel {
        DurationsModel {
            bounds: bounds_of(self.histogram)->0,
            observed: durations_of(self.histogram),
        }
    }
}

impl Durations {
    #[verifier::type_invariant]
    spec fn in_classic_buckets(self) -> bool {
        bounds_of(self.histogram) is Some
    }

    /// A distribution with buckets of these bounds, in nanoseconds.
    pub(crate) fn new(bounds: &Vec<u64>) -> (r: Self)
        ensures
            r@ == (DurationsModel { bounds: bounds@, observed: no_durations() }),
    {
        Durations { histogram: new_histogram(bounds) }
    }

    /// Observes a duration, in nanoseconds.
    pub(crate) fn observe(&mut self, nanos: u64)
        requires
            old(self)@.observed.len() < u64::MAX,
        ensures
            final(self)@ == (DurationsModel {
                observed: old(self)@.observed.insert(nanos),
                ..old(self)@
            }),
    {
        proof {
            use_type_invariant(&*self);
        }
        observe(&mut self.histogram, nanos);
    }
}

// ---------------------------------------------------------------------------
// Exposition

/// What an exposition shows of one metric.
#[allow(inconsistent_fields)]
pub enum Entry {
    /// A gauge.
    Gauge {
        /// The metric's name.
        name: Seq<char>,
        /// What it is.
        help: Seq<char>,
        /// Its value.
        value: i64,
    },
    /// A counter.
    Counter {
        /// The metric's name.
        name: Seq<char>,
        /// What it is.
        help: Seq<char>,
        /// Its value.
        value: u64,
    },
    /// A family of gauges.
    Gauges {
        /// The metric's name.
        name: Seq<char>,
        /// What it is.
        help: Seq<char>,
        /// Its values.
        series: Map<Seq<(Seq<char>, Seq<char>)>, i64>,
    },
    /// A family of counters.
    Counters {
        /// The metric's name.
        name: Seq<char>,
        /// What it is.
        help: Seq<char>,
        /// Its values.
        series: Map<Seq<(Seq<char>, Seq<char>)>, u64>,
    },
    /// A distribution. Of its numbers, only the count is said.
    Histogram {
        /// The metric's name.
        name: Seq<char>,
        /// What it is.
        help: Seq<char>,
        /// Whether it has classic buckets alone.
        classic: bool,
        /// How much was observed.
        count: nat,
    },
}

/// Metrics on their way to being shown. The handles stay borrowed, so their
/// values do not change meanwhile.
pub struct Exposition<'a> {
    registry: Registry,
    held: PhantomData<&'a ()>,
}

/// What a registry holds.
pub uninterp spec fn registered(r: Registry) -> Seq<Entry>;

impl<'a> Exposition<'a> {
    /// What is to be shown, in order.
    pub closed spec fn entries(&self) -> Seq<Entry> {
        registered(self.registry)
    }
}

/// Makes a registry with `Registry::default`. It holds nothing and adds neither
/// a prefix nor labels.
#[verifier::external_body]
fn new_registry() -> (r: Registry)
    ensures
        registered(r) == Seq::<Entry>::empty(),
{
    Registry::default()
}

/// Adds a gauge with `Registry::register`.
#[verifier::external_body]
pub(crate) fn show_gauge<'a>(
    e: &mut Exposition<'a>,
    name: &str,
    help: &str,
    gauge: &'a Gauge<i64, AtomicI64>,
)
    ensures
        final(e).entries() == old(e).entries().push(
            (Entry::Gauge { name: name@, help: help@, value: gauge_value(*gauge) }),
        ),
{
    e.registry.register(name, help, gauge.clone());
}

/// Adds a counter with `Registry::register`.
#[verifier::external_body]
pub(crate) fn show_counter<'a>(
    e: &mut Exposition<'a>,
    name: &str,
    help: &str,
    counter: &'a Counter<u64, AtomicU64>,
)
    ensures
        final(e).entries() == old(e).entries().push(
            (Entry::Counter { name: name@, help: help@, value: counter_value(*counter) }),
        ),
{
    e.registry.register(name, help, counter.clone());
}

/// Adds a family of gauges with `Registry::register`.
#[verifier::external_body]
pub(crate) fn show_gauges<'a>(
    e: &mut Exposition<'a>,
    name: &str,
    help: &str,
    family: &'a GaugeFamily,
)
    ensures
        final(e).entries() == old(e).entries().push(
            (Entry::Gauges { name: name@, help: help@, series: gauge_series(*family) }),
        ),
{
    e.registry.register(name, help, family.family.clone());
}

/// Adds a family of counters with `Registry::register`.
#[verifier::external_body]
pub(crate) fn show_counters<'a>(
    e: &mut Exposition<'a>,
    name: &str,
    help: &str,
    family: &'a CounterFamily,
)
    ensures
        final(e).entries() == old(e).entries().push(
            (Entry::Counters { name: name@, help: help@, series: counter_series(*family) }),
        ),
{
    e.registry.register(name, help, family.family.clone());
}

/// Adds a distribution with `Registry::register`.
#[verifier::external_body]
fn show_histogram<'a>(
    e: &mut Exposition<'a>,
    name: &str,
    help: &str,
    histogram: &'a Histogram,
)
    ensures
        final(e).entries() == old(e).entries().push(
            (Entry::Histogram {
                name: name@,
                help: help@,
                classic: bounds_of(*histogram) is Some,
                count: durations_of(*histogram).len(),
            }),
        ),
{
    e.registry.register(name, help, histogram.clone());
}

/// Adds durations.
pub(crate) fn show_durations<'a>(
    e: &mut Exposition<'a>,
    name: &str,
    help: &str,
    durations: &'a Durations,
)
    ensures
        final(e).entries() == old(e).entries().push(
            (Entry::Histogram {
                name: name@,
                help: help@,
                classic: true,
                count: durations@.observed.len(),
            }),
        ),
{
    proof {
        use_type_invariant(durations);
    }
    show_histogram(e, name, help, &durations.histogram);
}

/// The lines that introduce a metric.
pub open spec fn head_text(name: Seq<char>, help: Seq<char>, kind: Seq<char>) -> Seq<char> {
    "# HELP "@ + name + " "@ + help + ".\n# TYPE "@ + name + " "@ + kind + "\n"@
}

/// A whole number as text.
pub open spec fn int_text(v: i64) -> Seq<char> {
    if v < 0 {
        "-"@ + text::decimal_text((0 - v) as nat)
    } else {
        text::decimal_text(v as nat)
    }
}

/// A label's value with `\` before what would end it.
pub open spec fn escaped(s: Seq<char>) -> Seq<char>
    decreases s.len(),
{
    if s.len() == 0 {
        Seq::empty()
    } else {
        escaped(s.drop_last()) + (if s.last() == '\\' {
            "\\\\"@
        } else if s.last() == '"' {
            "\\\""@
        } else if s.last() == '\n' {
            "\\n"@
        } else {
            seq![s.last()]
        })
    }
}

/// Labels as text.
pub open spec fn labels_text(labels: Seq<(Seq<char>, Seq<char>)>) -> Seq<char> {
    "{"@ + text::joined(
        labels.map_values(|p: (Seq<char>, Seq<char>)| p.0 + "=\""@ + escaped(p.1) + "\""@),
        ","@,
    ) + "}"@
}

/// The lines of a family of gauges, in this order.
pub open spec fn gauge_lines(
    name: Seq<char>,
    series: Map<Seq<(Seq<char>, Seq<char>)>, i64>,
    order: Seq<Seq<(Seq<char>, Seq<char>)>>,
) -> Seq<char>
    decreases order.len(),
{
    if order.len() == 0 {
        Seq::empty()
    } else {
        gauge_lines(name, series, order.drop_last()) + name + labels_text(order.last()) + " "@
            + int_text(series[order.last()]) + "\n"@
    }
}

/// The lines of a family of counters, in this order.
pub open spec fn counter_lines(
    name: Seq<char>,
    series: Map<Seq<(Seq<char>, Seq<char>)>, u64>,
    order: Seq<Seq<(Seq<char>, Seq<char>)>>,
) -> Seq<char>
    decreases order.len(),
{
    if order.len() == 0 {
        Seq::empty()
    } else {
        counter_lines(name, series, order.drop_last()) + name + "_total"@ + labels_text(
            order.last(),
        ) + " "@ + text::decimal_text(series[order.last()] as nat) + "\n"@
    }
}

/// The lines of a distribution in classic buckets, given its sum as text and the
/// lines of its buckets.
pub open spec fn histogram_text(
    name: Seq<char>,
    help: Seq<char>,
    count: nat,
    sum: Seq<char>,
    buckets: Seq<char>,
) -> Seq<char> {
    head_text(name, help, "histogram"@) + name + "_sum "@ + sum + "\n"@ + name + "_count "@
        + text::decimal_text(count) + "\n"@ + buckets
}

/// Whether a text shows a metric. A family without series is not shown, and the
/// series of a family come in any order.
pub open spec fn shows(e: Entry, block: Seq<char>) -> bool {
    match e {
        Entry::Gauge { name, help, value } => block == head_text(name, help, "gauge"@) + name + " "@
            + int_text(value) + "\n"@,
        Entry::Counter { name, help, value } => block == head_text(name, help, "counter"@) + name
            + "_total "@ + text::decimal_text(value as nat) + "\n"@,
        Entry::Gauges { name, help, series } => if series.dom().is_empty() {
            block == Seq::<char>::empty()
        } else {
            exists|order: Seq<Seq<(Seq<char>, Seq<char>)>>| #[trigger]
                order.no_duplicates() && order.to_set() == series.dom() && block == head_text(
                    name,
                    help,
                    "gauge"@,
                ) + gauge_lines(name, series, order)
        },
        Entry::Counters { name, help, series } => if series.dom().is_empty() {
            block == Seq::<char>::empty()
        } else {
            exists|order: Seq<Seq<(Seq<char>, Seq<char>)>>| #[trigger]
                order.no_duplicates() && order.to_set() == series.dom() && block == head_text(
                    name,
                    help,
                    "counter"@,
                ) + counter_lines(name, series, order)
        },
        Entry::Histogram { name, help, classic, count } => if classic {
            exists|sum: Seq<char>, buckets: Seq<char>|
                !sum.contains('\n') && block == #[trigger] histogram_text(
                    name,
                    help,
                    count,
                    sum,
                    buckets,
                )
        } else {
            head_text(name, help, "histogram"@).is_prefix_of(block)
        },
    }
}

/// Whether a text shows all metrics, in order, and then ends.
pub open spec fn shows_all(entries: Seq<Entry>, s: Seq<char>) -> bool {
    exists|blocks: Seq<Seq<char>>|
        blocks.len() == entries.len() && (forall|i: int|
            0 <= i < blocks.len() ==> shows(entries[i], #[trigger] blocks[i])) && s
            == #[trigger] blocks.flatten() + "# EOF\n"@
}

/// Whether every distribution among the metrics has classic buckets alone.
pub open spec fn all_classic(entries: Seq<Entry>) -> bool {
    forall|i: int|
        0 <= i < entries.len() && (#[trigger] entries[i]) is Histogram
            ==> entries[i]->Histogram_classic
}

/// Writes the metrics with `encode` of the text format. It shows one metric
/// after the other, in the order in which they were added, and ends the text.
/// Writing to a string does not fail, so it is for a distribution alone to make
/// it fail, and one of classic buckets never does. The sum and the buckets of a
/// distribution, whose numbers are floating-point ones, are left unsaid, and so
/// is the order of the series in a family, which is that of a hash map.
#[verifier::external_body]
pub(crate) fn expose(e: &Exposition) -> (r: Option<String>)
    ensures
        all_classic(e.entries()) ==> r is Some,
        match r {
            Some(s) => shows_all(e.entries(), s@),
            None => true,
        },
{
    let mut s = String::new();
    match prometheus_client::encoding::text::encode(&mut s, &e.registry) {
        Ok(()) => Some(s),
        Err(_) => None,
    }
}

impl<'a> Exposition<'a> {
    /// An exposition of nothing.
    pub(crate) fn new() -> (r: Self)
        ensures
            r.entries() == Seq::<Entry>::empty(),
    {
        Exposition { registry: new_registry(), held: PhantomData }
    }
}

} // verus!
