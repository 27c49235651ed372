//! What can be relied on of the metrics, in terms of what happened.

use vstd::prelude::*;

use crate::obs;
use crate::obs::series;
use crate::obs::series::Entry;
use crate::obs::{MetricsModel, StatsModel, Trigger};
use crate::text;

verus! {

/// Each trigger has a text of its own.
pub proof fn triggers_are_told_apart(a: Trigger, b: Trigger)
    ensures
        obs::trigger_text(Trigger::Startup) == "startup"@,
        obs::trigger_text(Trigger::Event) == "event"@,
        obs::trigger_text(Trigger::Resync) == "resync"@,
        obs::trigger_text(a) == obs::trigger_text(b) ==> a == b,
{
    reveal_strlit("startup");
    reveal_strlit("event");
    reveal_strlit("resync");
    assert("startup"@[0] == 's' && "event"@[0] == 'e' && "resync"@[0] == 'r');
}

/// A reconcile is counted under what set it off and how it went.
pub proof fn reconciles_are_told_apart(a: Trigger, b: Trigger, x: bool, y: bool)
    ensures
        obs::reconcile_labels(a, true) == seq![
            ("trigger"@, obs::trigger_text(a)),
            ("result"@, "success"@),
        ],
        obs::reconcile_labels(a, false) == seq![
            ("trigger"@, obs::trigger_text(a)),
            ("result"@, "error"@),
        ],
        obs::reconcile_labels(a, x) == obs::reconcile_labels(b, y) ==> a == b && x == y,
{
    triggers_are_told_apart(a, b);
    reveal_strlit("success");
    reveal_strlit("error");
    assert("success"@[0] == 's' && "error"@[0] == 'e');
    let l = obs::reconcile_labels(a, x);
    let r = obs::reconcile_labels(b, y);
    if l == r {
        assert(l[0].1 == r[0].1);
        assert(l[1].1 == r[1].1);
    }
}

/// A number is shown as it is, up to the largest that there is.
pub proof fn numbers_are_clamped(n: nat)
    ensures
        n <= 0x7fff_ffff_ffff_ffff ==> obs::clamped(n) == n,
        n > 0x7fff_ffff_ffff_ffff ==> obs::clamped(n) == 0x7fff_ffff_ffff_ffff,
{
}

/// Before the first reconcile there is a version, and nothing was counted,
/// observed or found.
pub proof fn at_the_start(version: Seq<char>)
    ensures
        ({
            let m = obs::initial(version);
            &&& m.build.dom() == set![seq![("version"@, version)]]
            &&& m.build[seq![("version"@, version)]] == 1
            &&& m.reconciles.dom().is_empty()
            &&& m.durations.observed.len() == 0
            &&& m.last_success == 0
            &&& m.members == 0
            &&& m.gateways == 0
            &&& m.gateway_available.dom().is_empty()
            &&& m.ready == 0
            &&& m.watch_restarts == 0
        }),
{
    assert(obs::initial(version).build.dom() =~= set![seq![("version"@, version)]]);
}

/// The buckets for durations, in nanoseconds.
pub proof fn buckets()
    ensures
        obs::duration_bounds().len() == 12,
        obs::duration_bounds()[0] == 500_000,
        obs::duration_bounds()[1] == 1_000_000,
        obs::duration_bounds()[2] == 2_500_000,
        obs::duration_bounds()[3] == 5_000_000,
        obs::duration_bounds()[4] == 10_000_000,
        obs::duration_bounds()[5] == 25_000_000,
        obs::duration_bounds()[6] == 50_000_000,
        obs::duration_bounds()[7] == 100_000_000,
        obs::duration_bounds()[8] == 250_000_000,
        obs::duration_bounds()[9] == 500_000_000,
        obs::duration_bounds()[10] == 1_000_000_000,
        obs::duration_bounds()[11] == 5_000_000_000,
        forall|version: Seq<char>| (#[trigger] obs::initial(version)).durations.bounds
            == obs::duration_bounds(),
{
}

/// A successful reconcile makes the daemon ready, and says when it was, how many
/// containers and gateways it found, and which of those are available. What it
/// does not speak of stays.
pub proof fn success_is_recorded(
    m: MetricsModel,
    trigger: Trigger,
    elapsed: u64,
    now: u64,
    stats: StatsModel,
)
    ensures
        ({
            let after = obs::recorded(m, trigger, elapsed, now, Some(stats));
            &&& after.ready == 1
            &&& after.last_success == obs::clamped(now as nat)
            &&& after.members == obs::clamped(stats.members)
            &&& after.gateways == obs::clamped(stats.gateways.len())
            &&& after.gateway_available == obs::available(stats.gateways)
            &&& after.durations.observed == m.durations.observed.insert(elapsed)
            &&& after.durations.bounds == m.durations.bounds
            &&& after.reconciles == series::counted_in(
                m.reconciles,
                seq![("trigger"@, obs::trigger_text(trigger)), ("result"@, "success"@)],
            )
            &&& after.build == m.build
            &&& after.watch_restarts == m.watch_restarts
        }),
{
}

/// A failed reconcile is counted and observed; what was last found stays.
pub proof fn failure_is_recorded(m: MetricsModel, trigger: Trigger, elapsed: u64, now: u64)
    ensures
        ({
            let after = obs::recorded(m, trigger, elapsed, now, None);
            &&& after.ready == m.ready
            &&& after.last_success == m.last_success
            &&& after.members == m.members
            &&& after.gateways == m.gateways
            &&& after.gateway_available == m.gateway_available
            &&& after.durations.observed == m.durations.observed.insert(elapsed)
            &&& after.durations.bounds == m.durations.bounds
            &&& after.reconciles == series::counted_in(
                m.reconciles,
                seq![("trigger"@, obs::trigger_text(trigger)), ("result"@, "error"@)],
            )
            &&& after.build == m.build
            &&& after.watch_restarts == m.watch_restarts
        }),
{
}

/// A count goes up by one, and under its own labels alone; the first is one.
pub proof fn counting(
    counts: Map<Seq<(Seq<char>, Seq<char>)>, u64>,
    labels: Seq<(Seq<char>, Seq<char>)>,
    other: Seq<(Seq<char>, Seq<char>)>,
    n: u64,
)
    ensures
        n < u64::MAX ==> series::counted(n) == n + 1,
        !counts.dom().contains(labels) ==> series::counted_in(counts, labels)[labels] == 1,
        counts.dom().contains(labels) && counts[labels] < u64::MAX ==> series::counted_in(
            counts,
            labels,
        )[labels] == counts[labels] + 1,
        series::counted_in(counts, labels).dom() == counts.dom().insert(labels),
        other != labels && counts.dom().contains(other) ==> series::counted_in(
            counts,
            labels,
        )[other] == counts[other],
{
    assert(series::counted_in(counts, labels).dom() =~= counts.dom().insert(labels));
}

/// One more gateway is available or not under its own name, and the others stay
/// as they are.
pub proof fn one_more_availability(
    gateways: Seq<(Seq<char>, bool)>,
    name: Seq<char>,
    up: bool,
    other: Seq<(Seq<char>, Seq<char>)>,
)
    ensures
        obs::available(Seq::empty()).dom().is_empty(),
        obs::available(gateways.push((name, true)))[seq![("gateway"@, name)]] == 1,
        obs::available(gateways.push((name, false)))[seq![("gateway"@, name)]] == 0,
        obs::available(gateways.push((name, up))).dom() == obs::available(gateways).dom().insert(
            seq![("gateway"@, name)],
        ),
        other != seq![("gateway"@, name)] && obs::available(gateways).dom().contains(other)
            ==> obs::available(gateways.push((name, up)))[other] == obs::available(gateways)[other],
{
    assert(gateways.push((name, true)).drop_last() =~= gateways);
    assert(gateways.push((name, false)).drop_last() =~= gateways);
    assert(gateways.push((name, up)).drop_last() =~= gateways);
    assert(obs::available(gateways.push((name, up))).dom() =~= obs::available(
        gateways,
    ).dom().insert(seq![("gateway"@, name)]));
}

/// A watch that was set up again is counted, and nothing else changes.
pub proof fn restarts_are_counted(m: MetricsModel)
    ensures
        m.watch_restarts < u64::MAX ==> obs::restarted(m).watch_restarts == m.watch_restarts + 1,
        obs::restarted(m) == (MetricsModel {
            watch_restarts: obs::restarted(m).watch_restarts,
            ..m
        }),
{
}

/// What is exposed, in order, and under which name.
pub proof fn what_is_exposed(m: MetricsModel)
    ensures
        ({
            let all = obs::entries_of(m);
            &&& all.len() == 9
            &&& all[0] == (Entry::Gauges {
                name: "degc_build_info"@,
                help: "Build information"@,
                series: m.build,
            })
            &&& all[1] == (Entry::Counters {
                name: "degc_reconciles"@,
                help: "Reconciles attempted"@,
                series: m.reconciles,
            })
            &&& all[2] == (Entry::Histogram {
                name: "degc_reconcile_duration_seconds"@,
                help: "Reconcile duration"@,
                classic: true,
                count: m.durations.observed.len(),
            })
            &&& all[3] == (Entry::Gauge {
                name: "degc_last_reconcile_success_timestamp_seconds"@,
                help: "Unix time of the last successful reconcile"@,
                value: m.last_success,
            })
            &&& all[4] == (Entry::Gauge {
                name: "degc_members"@,
                help: "Opted-in member containers routed in the last reconcile"@,
                value: m.members,
            })
            &&& all[5] == (Entry::Gauge {
                name: "degc_gateways"@,
                help: "Gateways in the last reconcile (config + discovered)"@,
                value: m.gateways,
            })
            &&& all[6] == (Entry::Gauges {
                name: "degc_gateway_available"@,
                help: "Whether a gateway's egress resolved (1) or is fail-closed / blackholed (0)"@,
                series: m.gateway_available,
            })
            &&& all[7] == (Entry::Gauge {
                name: "degc_ready"@,
                help: "Whether at least one reconcile has succeeded"@,
                value: m.ready,
            })
            &&& all[8] == (Entry::Counter {
                name: "degc_watch_restarts"@,
                help: "Docker event watcher re-establishments"@,
                value: m.watch_restarts,
            })
        }),
{
}

/// A whole number is shown in decimal, after a minus sign where it is negative.
pub proof fn whole_numbers(v: i64)
    ensures
        v >= 0 ==> series::int_text(v) == text::decimal_text(v as nat),
        v < 0 ==> series::int_text(v) == "-"@ + text::decimal_text((-v) as nat),
{
}

/// In a label's value a backslash, a quote and a line feed are escaped; every
/// other character stays.
pub proof fn escaping(s: Seq<char>, c: char)
    ensures
        series::escaped(Seq::empty()) == Seq::<char>::empty(),
        series::escaped(s.push('\\')) == series::escaped(s) + "\\\\"@,
        series::escaped(s.push('"')) == series::escaped(s) + "\\\""@,
        series::escaped(s.push('\n')) == series::escaped(s) + "\\n"@,
        c != '\\' && c != '"' && c != '\n' ==> series::escaped(s.push(c)) == series::escaped(s).push(
            c,
        ),
{
    assert(s.push('\\').drop_last() =~= s);
    assert(s.push('"').drop_last() =~= s);
    assert(s.push('\n').drop_last() =~= s);
    assert(s.push(c).drop_last() =~= s);
    if c != '\\' && c != '"' && c != '\n' {
        assert(series::escaped(s.push(c)) =~= series::escaped(s).push(c));
    }
}

/// Labels stand in braces, each with its value in quotes, with commas between.
pub proof fn labels_as_text(a: (Seq<char>, Seq<char>), b: (Seq<char>, Seq<char>))
    ensures
        series::labels_text(seq![a]) == "{"@ + (a.0 + "=\""@ + series::escaped(a.1) + "\""@)
            + "}"@,
        series::labels_text(seq![a, b]) == "{"@ + ((a.0 + "=\""@ + series::escaped(a.1) + "\""@)
            + ","@ + (b.0 + "=\""@ + series::escaped(b.1) + "\""@)) + "}"@,
{
    let f = |p: (Seq<char>, Seq<char>)| p.0 + "=\""@ + series::escaped(p.1) + "\""@;
    assert(seq![a].map_values(f) =~= seq![f(a)]);
    assert(seq![a, b].map_values(f) =~= seq![f(a)].push(f(b)));
    text::joining(seq![f(a)], f(b), ","@);
    text::joining(seq![f(a)], f(a), ","@);
}

/// One more series is one more line: its name, its labels and its value. What is
/// counted says so in its name.
pub proof fn one_more_series(
    name: Seq<char>,
    gauges: Map<Seq<(Seq<char>, Seq<char>)>, i64>,
    counters: Map<Seq<(Seq<char>, Seq<char>)>, u64>,
    order: Seq<Seq<(Seq<char>, Seq<char>)>>,
    labels: Seq<(Seq<char>, Seq<char>)>,
)
    ensures
        series::gauge_lines(name, gauges, Seq::empty()) == Seq::<char>::empty(),
        series::gauge_lines(name, gauges, order.push(labels)) == series::gauge_lines(
            name,
            gauges,
            order,
        ) + name + series::labels_text(labels) + " "@ + series::int_text(gauges[labels]) + "\n"@,
        series::counter_lines(name, counters, Seq::empty()) == Seq::<char>::empty(),
        series::counter_lines(name, counters, order.push(labels)) == series::counter_lines(
            name,
            counters,
            order,
        ) + name + "_total"@ + series::labels_text(labels) + " "@ + text::decimal_text(
            counters[labels] as nat,
        ) + "\n"@,
{
    assert(order.push(labels).drop_last() =~= order);
}

/// A metric is introduced by what it is and by its kind, then its value follows.
pub proof fn metrics_as_text(
    name: Seq<char>,
    help: Seq<char>,
    value: i64,
    count: u64,
    block: Seq<char>,
)
    ensures
        series::shows(Entry::Gauge { name, help, value }, block) <==> block == ("# HELP "@ + name
            + " "@ + help + ".\n# TYPE "@ + name + " "@ + "gauge"@ + "\n"@) + name + " "@
            + series::int_text(value) + "\n"@,
        series::shows(Entry::Counter { name, help, value: count }, block) <==> block == ("# HELP "@
            + name + " "@ + help + ".\n# TYPE "@ + name + " "@ + "counter"@ + "\n"@) + name
            + "_total "@ + text::decimal_text(count as nat) + "\n"@,
{
}

proof fn lemma_gauge_line(
    name: Seq<char>,
    gauges: Map<Seq<(Seq<char>, Seq<char>)>, i64>,
    order: Seq<Seq<(Seq<char>, Seq<char>)>>,
    i: int,
)
    requires
        0 <= i < order.len(),
    ensures
        text::has_part(
            series::gauge_lines(name, gauges, order),
            name + series::labels_text(order[i]) + " "@ + series::int_text(gauges[order[i]])
                + "\n"@,
        ),
    decreases order.len(),
{
    let line = name + series::labels_text(order[i]) + " "@ + series::int_text(gauges[order[i]])
        + "\n"@;
    let before = series::gauge_lines(name, gauges, order.drop_last());
    let l = order.last();
    let last = name + series::labels_text(l) + " "@ + series::int_text(gauges[l]) + "\n"@;
    assert(series::gauge_lines(name, gauges, order) =~= before + last);
    if i < order.len() - 1 {
        assert(order.drop_last()[i] == order[i]);
        lemma_gauge_line(name, gauges, order.drop_last(), i);
        text::lemma_earlier_part(before, last, line);
    } else {
        text::lemma_last_part(before, line);
    }
}

proof fn lemma_counter_line(
    name: Seq<char>,
    counters: Map<Seq<(Seq<char>, Seq<char>)>, u64>,
    order: Seq<Seq<(Seq<char>, Seq<char>)>>,
    i: int,
)
    requires
        0 <= i < order.len(),
    ensures
        text::has_part(
            series::counter_lines(name, counters, order),
            name + "_total"@ + series::labels_text(order[i]) + " "@ + text::decimal_text(
                counters[order[i]] as nat,
            ) + "\n"@,
        ),
    decreases order.len(),
{
    let line = name + "_total"@ + series::labels_text(order[i]) + " "@ + text::decimal_text(
        counters[order[i]] as nat,
    ) + "\n"@;
    let before = series::counter_lines(name, counters, order.drop_last());
    let l = order.last();
    let last = name + "_total"@ + series::labels_text(l) + " "@ + text::decimal_text(
        counters[l] as nat,
    ) + "\n"@;
    assert(series::counter_lines(name, counters, order) =~= before + last);
    if i < order.len() - 1 {
        assert(order.drop_last()[i] == order[i]);
        lemma_counter_line(name, counters, order.drop_last(), i);
        text::lemma_earlier_part(before, last, line);
    } else {
        text::lemma_last_part(before, line);
    }
}

/// Every series of a family is shown, with its value, on a line of its own.
pub proof fn every_series_is_shown(
    name: Seq<char>,
    help: Seq<char>,
    gauges: Map<Seq<(Seq<char>, Seq<char>)>, i64>,
    counters: Map<Seq<(Seq<char>, Seq<char>)>, u64>,
    labels: Seq<(Seq<char>, Seq<char>)>,
    block: Seq<char>,
)
    ensures
        series::shows(Entry::Gauges { name, help, series: gauges }, block) && gauges.dom().contains(
            labels,
        ) ==> text::has_part(
            block,
            name + series::labels_text(labels) + " "@ + series::int_text(gauges[labels]) + "\n"@,
        ),
        series::shows(Entry::Counters { name, help, series: counters }, block)
            && counters.dom().contains(labels) ==> text::has_part(
            block,
            name + "_total"@ + series::labels_text(labels) + " "@ + text::decimal_text(
                counters[labels] as nat,
            ) + "\n"@,
        ),
{
    if series::shows(Entry::Gauges { name, help, series: gauges }, block) && gauges.dom().contains(
        labels,
    ) {
        let order = choose|order: Seq<Seq<(Seq<char>, Seq<char>)>>| #[trigger]
            order.no_duplicates() && order.to_set() == gauges.dom() && block == series::head_text(
                name,
                help,
                "gauge"@,
            ) + series::gauge_lines(name, gauges, order);
        assert(order.to_set().contains(labels));
        let i = choose|i: int| 0 <= i < order.len() && order[i] == labels;
        lemma_gauge_line(name, gauges, order, i);
        let lines = series::gauge_lines(name, gauges, order);
        text::lemma_last_part(series::head_text(name, help, "gauge"@), lines);
        text::lemma_part_of_part(
            block,
            lines,
            name + series::labels_text(labels) + " "@ + series::int_text(gauges[labels]) + "\n"@,
        );
    }
    if series::shows(Entry::Counters { name, help, series: counters }, block)
        && counters.dom().contains(labels) {
        let order = choose|order: Seq<Seq<(Seq<char>, Seq<char>)>>| #[trigger]
            order.no_duplicates() && order.to_set() == counters.dom() && block == series::head_text(
                name,
                help,
                "counter"@,
            ) + series::counter_lines(name, counters, order);
        assert(order.to_set().contains(labels));
        let i = choose|i: int| 0 <= i < order.len() && order[i] == labels;
        lemma_counter_line(name, counters, order, i);
        let lines = series::counter_lines(name, counters, order);
        text::lemma_last_part(series::head_text(name, help, "counter"@), lines);
        text::lemma_part_of_part(
            block,
            lines,
            name + "_total"@ + series::labels_text(labels) + " "@ + text::decimal_text(
                counters[labels] as nat,
            ) + "\n"@,
        );
    }
}

/// The metrics are shown one after the other, and then the text ends.
pub proof fn metrics_in_order(entries: Seq<Entry>, s: Seq<char>)
    ensures
        entries.len() == 0 ==> (series::shows_all(entries, s) <==> s == "# EOF\n"@),
        entries.len() > 0 ==> (series::shows_all(entries, s) <==> exists|
            block: Seq<char>,
            rest: Seq<char>,
        |
            series::shows(entries[0], block) && series::shows_all(entries.skip(1), rest) && s
                == #[trigger] (block + rest)),
{
    let end = "# EOF\n"@;
    if entries.len() == 0 {
        let none = Seq::<Seq<char>>::empty();
        assert(none.flatten() =~= Seq::<char>::empty());
        assert(none.flatten() + end =~= end);
        if series::shows_all(entries, s) {
            let blocks = choose|blocks: Seq<Seq<char>>|
                blocks.len() == entries.len() && (forall|i: int|
                    0 <= i < blocks.len() ==> series::shows(entries[i], #[trigger] blocks[i])) && s
                    == #[trigger] blocks.flatten() + end;
            assert(blocks =~= none);
        }
    } else {
        if series::shows_all(entries, s) {
            let blocks = choose|blocks: Seq<Seq<char>>|
                blocks.len() == entries.len() && (forall|i: int|
                    0 <= i < blocks.len() ==> series::shows(entries[i], #[trigger] blocks[i])) && s
                    == #[trigger] blocks.flatten() + end;
            let more = blocks.drop_first();
            let rest = more.flatten() + end;
            assert forall|i: int| 0 <= i < more.len() implies series::shows(
                entries.skip(1)[i],
                #[trigger] more[i],
            ) by {
                assert(more[i] == blocks[i + 1]);
            }
            assert(series::shows_all(entries.skip(1), rest));
            assert(blocks.flatten() == blocks[0] + more.flatten());
            assert(s =~= blocks[0] + rest);
        }
        if exists|block: Seq<char>, rest: Seq<char>|
            series::shows(entries[0], block) && series::shows_all(entries.skip(1), rest) && s
                == #[trigger] (block + rest) {
            let (block, rest) = choose|block: Seq<char>, rest: Seq<char>|
                series::shows(entries[0], block) && series::shows_all(entries.skip(1), rest) && s
                    == #[trigger] (block + rest);
            let more = choose|more: Seq<Seq<char>>|
                more.len() == entries.skip(1).len() && (forall|i: int|
                    0 <= i < more.len() ==> series::shows(entries.skip(1)[i], #[trigger] more[i]))
                    && rest == #[trigger] more.flatten() + end;
            let blocks = seq![block] + more;
            assert(blocks.drop_first() =~= more);
            assert(blocks.first() == block);
            assert forall|i: int| 0 <= i < blocks.len() implies series::shows(
                entries[i],
                #[trigger] blocks[i],
            ) by {
                if i > 0 {
                    assert(blocks[i] == more[i - 1]);
                    assert(entries.skip(1)[i - 1] == entries[i]);
                }
            }
            assert(s =~= blocks.flatten() + end);
        }
    }
}

/// A distribution in classic buckets is introduced like every metric; its sum
/// comes first, on a line of its own, then how much was observed, then the
/// buckets.
pub proof fn distributions_as_text(
    name: Seq<char>,
    help: Seq<char>,
    count: nat,
    block: Seq<char>,
)
    ensures
        series::shows(Entry::Histogram { name, help, classic: true, count }, block) ==> exists|
            sum: Seq<char>,
            buckets: Seq<char>,
        |
            !sum.contains('\n') && block == #[trigger] (("# HELP "@ + name + " "@ + help
                + ".\n# TYPE "@ + name + " "@ + "histogram"@ + "\n"@) + name + "_sum "@ + sum
                + "\n"@ + name + "_count "@ + text::decimal_text(count) + "\n"@ + buckets),
{
    if series::shows(Entry::Histogram { name, help, classic: true, count }, block) {
        let (sum, buckets) = choose|sum: Seq<char>, buckets: Seq<char>|
            !sum.contains('\n') && block == #[trigger] series::histogram_text(
                name,
                help,
                count,
                sum,
                buckets,
            );
        assert(block == ("# HELP "@ + name + " "@ + help + ".\n# TYPE "@ + name + " "@
            + "histogram"@ + "\n"@) + name + "_sum "@ + sum + "\n"@ + name + "_count "@
            + text::decimal_text(count) + "\n"@ + buckets);
    }
}

} // verus!
