use degc::obs::{clamp, clamp_u64, Metrics, ReconcileStats, Trigger};

/// Three milliseconds, in nanoseconds.
const ELAPSED: u64 = 3_000_000;

fn stats(members: usize, gateways: &[(&str, bool)]) -> ReconcileStats {
    ReconcileStats {
        members,
        gateways: gateways
            .iter()
            .map(|(n, up)| ((*n).to_owned(), *up))
            .collect(),
    }
}

#[test]
fn records_and_renders() {
    let mut m = Metrics::new("1.2.3");
    assert!(!m.ready());
    m.record(
        Trigger::Startup,
        ELAPSED,
        1_700_000_000,
        Some(&ReconcileStats {
            members: 2,
            gateways: vec![("vpn".to_owned(), true)],
        }),
    );
    assert!(m.ready());
    let out = m.render();
    assert!(out.contains("degc_reconciles_total"), "{out}");
    assert!(out.contains("degc_members"), "{out}");
    assert!(out.contains("degc_gateway_available"), "{out}");
    assert!(out.contains("gateway=\"vpn\""), "{out}");
    assert!(out.contains("degc_ready 1"), "{out}");
}

// ---------------------------------------------------------------------------

#[test]
fn triggers_have_names() {
    assert_eq!(Trigger::Startup.as_str(), "startup");
    assert_eq!(Trigger::Event.as_str(), "event");
    assert_eq!(Trigger::Resync.as_str(), "resync");
}

#[test]
fn numbers_are_clamped() {
    assert_eq!(clamp(0), 0);
    assert_eq!(clamp(7), 7);
    assert_eq!(clamp_u64(i64::MAX as u64), i64::MAX);
    assert_eq!(clamp_u64(i64::MAX as u64 + 1), i64::MAX);
    assert_eq!(clamp_u64(u64::MAX), i64::MAX);
}

#[test]
fn whole_text_of_the_metrics() {
    let mut m = Metrics::new("1.2.3");
    m.record(Trigger::Startup, 500_000_000, 99, Some(&stats(3, &[("v\"p\\n\n", false)])));
    m.watch_restarted();
    m.watch_restarted();
    let expected = [
        "# HELP degc_build_info Build information.",
        "# TYPE degc_build_info gauge",
        "degc_build_info{version=\"1.2.3\"} 1",
        "# HELP degc_reconciles Reconciles attempted.",
        "# TYPE degc_reconciles counter",
        "degc_reconciles_total{trigger=\"startup\",result=\"success\"} 1",
        "# HELP degc_reconcile_duration_seconds Reconcile duration.",
        "# TYPE degc_reconcile_duration_seconds histogram",
        "degc_reconcile_duration_seconds_sum 0.5",
        "degc_reconcile_duration_seconds_count 1",
        "degc_reconcile_duration_seconds_bucket{le=\"0.0005\"} 0",
        "degc_reconcile_duration_seconds_bucket{le=\"0.001\"} 0",
        "degc_reconcile_duration_seconds_bucket{le=\"0.0025\"} 0",
        "degc_reconcile_duration_seconds_bucket{le=\"0.005\"} 0",
        "degc_reconcile_duration_seconds_bucket{le=\"0.01\"} 0",
        "degc_reconcile_duration_seconds_bucket{le=\"0.025\"} 0",
        "degc_reconcile_duration_seconds_bucket{le=\"0.05\"} 0",
        "degc_reconcile_duration_seconds_bucket{le=\"0.1\"} 0",
        "degc_reconcile_duration_seconds_bucket{le=\"0.25\"} 0",
        "degc_reconcile_duration_seconds_bucket{le=\"0.5\"} 1",
        "degc_reconcile_duration_seconds_bucket{le=\"1.0\"} 1",
        "degc_reconcile_duration_seconds_bucket{le=\"5.0\"} 1",
        "degc_reconcile_duration_seconds_bucket{le=\"+Inf\"} 1",
        "# HELP degc_last_reconcile_success_timestamp_seconds Unix time of the last successful reconcile.",
        "# TYPE degc_last_reconcile_success_timestamp_seconds gauge",
        "degc_last_reconcile_success_timestamp_seconds 99",
        "# HELP degc_members Opted-in member containers routed in the last reconcile.",
        "# TYPE degc_members gauge",
        "degc_members 3",
        "# HELP degc_gateways Gateways in the last reconcile (config + discovered).",
        "# TYPE degc_gateways gauge",
        "degc_gateways 1",
        "# HELP degc_gateway_available Whether a gateway's egress resolved (1) or is fail-closed / blackholed (0).",
        "# TYPE degc_gateway_available gauge",
        "degc_gateway_available{gateway=\"v\\\"p\\\\n\\n\"} 0",
        "# HELP degc_ready Whether at least one reconcile has succeeded.",
        "# TYPE degc_ready gauge",
        "degc_ready 1",
        "# HELP degc_watch_restarts Docker event watcher re-establishments.",
        "# TYPE degc_watch_restarts counter",
        "degc_watch_restarts_total 2",
        "# EOF",
        "",
    ];
    assert_eq!(m.render(), expected.join("\n"));
}

#[test]
fn before_the_first_reconcile() {
    let m = Metrics::new("x");
    assert_eq!(m.readiness(), (503, "not ready\n"));
    let out = m.render();
    assert!(out.contains("degc_ready 0\n"));
    assert!(
        !out.contains("degc_reconciles"),
        "a family without series is not shown"
    );
    assert!(!out.contains("degc_gateway_available"));
    assert!(out.ends_with("# EOF\n"));
}

#[test]
fn failures_are_counted_and_change_nothing_else() {
    let mut m = Metrics::new("x");
    m.record(Trigger::Resync, ELAPSED, 5, None);
    m.record(Trigger::Resync, ELAPSED, 6, None);
    assert!(!m.ready());
    let out = m.render();
    assert!(out.contains("degc_reconciles_total{trigger=\"resync\",result=\"error\"} 2\n"));
    assert!(out.contains("degc_last_reconcile_success_timestamp_seconds 0\n"));
    m.record(Trigger::Event, ELAPSED, 7, Some(&stats(1, &[("a", true)])));
    m.record(Trigger::Event, ELAPSED, 8, None);
    assert_eq!(m.readiness(), (200, "ok\n"), "it stays ready");
    let out = m.render();
    assert!(out.contains("degc_last_reconcile_success_timestamp_seconds 7\n"));
    assert!(out.contains("degc_members 1\n"));
    assert!(out.contains("degc_gateway_available{gateway=\"a\"} 1\n"));
    assert!(out.contains("degc_reconciles_total{trigger=\"event\",result=\"success\"} 1\n"));
    assert!(out.contains("degc_reconciles_total{trigger=\"event\",result=\"error\"} 1\n"));
    assert!(out.contains("degc_reconciles_total{trigger=\"resync\",result=\"error\"} 2\n"));
}

#[test]
fn series_of_gone_gateways_are_dropped() {
    let mut m = Metrics::new("x");
    m.record(
        Trigger::Startup,
        ELAPSED,
        1,
        Some(&stats(0, &[("a", true), ("b", false)])),
    );
    let out = m.render();
    assert!(out.contains("{gateway=\"a\"} 1\n") && out.contains("{gateway=\"b\"} 0\n"));
    m.record(Trigger::Resync, ELAPSED, 2, Some(&stats(0, &[("b", true)])));
    let out = m.render();
    assert!(!out.contains("gateway=\"a\""), "{out}");
    assert!(out.contains("{gateway=\"b\"} 1\n"));
    assert!(out.contains("degc_gateways 1\n"));
}

#[test]
fn each_reconcile_is_observed() {
    let mut m = Metrics::new("x");
    let count = |m: &Metrics, n: usize| {
        let line = format!("degc_reconcile_duration_seconds_count {n}\n");
        assert!(m.render().contains(&line), "{}", m.render());
    };
    count(&m, 0);
    m.record(Trigger::Startup, 400_000, 1, Some(&stats(1, &[("a", true)])));
    count(&m, 1);
    m.record(Trigger::Event, 2_500_000, 2, None);
    count(&m, 2);
    m.watch_restarted();
    count(&m, 2);
    m.record(Trigger::Resync, 7_000_000_000, 3, None);
    count(&m, 3);
    let out = m.render();
    for (bound, n) in [
        ("0.0005", 1),
        ("0.001", 1),
        ("0.0025", 2),
        ("0.005", 2),
        ("5.0", 2),
        ("+Inf", 3),
    ] {
        let line =
            format!("degc_reconcile_duration_seconds_bucket{{le=\"{bound}\"}} {n}\n");
        assert!(out.contains(&line), "{out}");
    }
    assert!(out.contains("degc_ready 1\n"), "failures leave it ready");
    assert!(out.contains("degc_last_reconcile_success_timestamp_seconds 1\n"));
}
