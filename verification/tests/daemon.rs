use degc::daemon::{next, start, Input, State, Step};
use degc::obs::Trigger;

#[test]
fn starts_with_a_reconcile() {
    assert_eq!(
        start(),
        (State::Starting, Step::Reconcile(Trigger::Startup))
    );
}

#[test]
fn first_reconcile_must_succeed() {
    assert_eq!(
        next(State::Starting, Input::Failed("boom".to_owned())),
        Some((
            State::Stopped,
            Step::Abort("initial reconcile: boom".to_owned())
        ))
    );
    assert_eq!(
        next(State::Starting, Input::Applied),
        Some((State::Waiting, Step::Watch))
    );
    assert_eq!(next(State::Starting, Input::Tick), None);
}

#[test]
fn interval_leads_to_a_resync() {
    assert_eq!(
        next(State::Waiting, Input::Tick),
        Some((State::Reconciling, Step::Reconcile(Trigger::Resync)))
    );
    assert_eq!(
        next(State::Reconciling, Input::Applied),
        Some((State::Waiting, Step::Wait))
    );
}

#[test]
fn burst_of_events_leads_to_one_reconcile() {
    let (mut state, mut step) = next(State::Waiting, Input::Event).unwrap();
    for _ in 0..5 {
        assert_eq!((state, &step), (State::Settling, &Step::Settle));
        (state, step) = next(state, Input::Event).unwrap();
    }
    assert_eq!(
        next(state, Input::Quiet),
        Some((State::Reconciling, Step::Reconcile(Trigger::Event)))
    );
    assert_eq!(
        next(state, Input::WatchEnded),
        Some((State::Reconciling, Step::Reconcile(Trigger::Event)))
    );
}

#[test]
fn later_failures_are_survived() {
    assert_eq!(
        next(State::Reconciling, Input::Failed("x".to_owned())),
        Some((
            State::Waiting,
            Step::Warn("reconcile failed: x".to_owned())
        ))
    );
}

#[test]
fn ended_watch_is_set_up_again() {
    assert_eq!(
        next(State::Waiting, Input::WatchEnded),
        Some((
            State::Waiting,
            Step::Rewatch("docker event watcher stopped; re-establishing".to_owned())
        ))
    );
}

#[test]
fn only_a_shutdown_stops() {
    assert_eq!(
        next(State::Waiting, Input::Shutdown),
        Some((
            State::Stopped,
            Step::Stop(
                "shutting down — leaving the ruleset in place (fail-closed); run `degc down` to remove"
                    .to_owned()
            )
        ))
    );
    assert_eq!(next(State::Settling, Input::Shutdown), None);
    assert_eq!(next(State::Stopped, Input::Tick), None);
}
