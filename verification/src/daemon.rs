//! The daemon: when to reconcile, and when to stop. It is told what happened
//! and says what is to be done next.

use vstd::prelude::*;

use crate::obs::Trigger;

verus! {

/// What the daemon is doing.
#[derive(Debug, Clone, Copy, PartialEq, Eq, Structural)]
pub enum State {
    /// The first reconcile is under way.
    Starting,
    /// It waits for something to happen.
    Waiting,
    /// Docker events come in; it waits until they stop.
    Settling,
    /// A later reconcile is under way.
    Reconciling,
    /// It is over.
    Stopped,
}

/// What happened.
#[derive(Debug, PartialEq, Eq)]
pub enum Input {
    /// The reconcile succeeded.
    Applied,
    /// The reconcile failed, for this reason.
    Failed(String),
    /// The resync interval is over.
    Tick,
    /// A Docker event came in.
    Event,
    /// The watch of Docker events ended.
    WatchEnded,
    /// No Docker event came in for the quiet period.
    Quiet,
    /// The process is asked to end.
    Shutdown,
}

/// The model of an [`Input`].
pub enum InputModel {
    /// See [`Input::Applied`].
    Applied,
    /// See [`Input::Failed`].
    Failed(Seq<char>),
    /// See [`Input::Tick`].
    Tick,
    /// See [`Input::Event`].
    Event,
    /// See [`Input::WatchEnded`].
    WatchEnded,
    /// See [`Input::Quiet`].
    Quiet,
    /// See [`Input::Shutdown`].
    Shutdown,
}

impl View for Input {
    type V = InputModel;

    open spec fn view(&self) -> InputModel {
        match self {
            Input::Applied => InputModel::Applied,
            Input::Failed(reason) => InputModel::Failed(reason@),
            Input::Tick => InputModel::Tick,
            Input::Event => InputModel::Event,
            Input::WatchEnded => InputModel::WatchEnded,
            Input::Quiet => InputModel::Quiet,
            Input::Shutdown => InputModel::Shutdown,
        }
    }
}

/// What is to be done next.
#[derive(Debug, PartialEq, Eq)]
pub enum Step {
    /// Reconcile, for this reason.
    Reconcile(Trigger),
    /// Watch Docker events, then wait for an event, the interval or the end.
    Watch,
    /// Say this warning, watch Docker events again, and wait on.
    Rewatch(String),
    /// Wait for an event, the interval or the end.
    Wait,
    /// Say this warning, and wait on.
    Warn(String),
    /// Wait for an event, at most for the quiet period.
    Settle,
    /// End, and leave the host as it is, saying this.
    Stop(String),
    /// End with this error.
    Abort(String),
}

/// The model of a [`Step`].
pub enum StepModel {
    /// See [`Step::Reconcile`].
    Reconcile(Trigger),
    /// See [`Step::Watch`].
    Watch,
    /// See [`Step::Rewatch`].
    Rewatch(Seq<char>),
    /// See [`Step::Wait`].
    Wait,
    /// See [`Step::Warn`].
    Warn(Seq<char>),
    /// See [`Step::Settle`].
    Settle,
    /// See [`Step::Stop`].
    Stop(Seq<char>),
    /// See [`Step::Abort`].
    Abort(Seq<char>),
}

impl View for Step {
    type V = StepModel;

    open spec fn view(&self) -> StepModel {
        match self {
            Step::Reconcile(t) => StepModel::Reconcile(*t),
            Step::Watch => StepModel::Watch,
            Step::Rewatch(s) => StepModel::Rewatch(s@),
            Step::Wait => StepModel::Wait,
            Step::Warn(s) => StepModel::Warn(s@),
            Step::Settle => StepModel::Settle,
            Step::Stop(s) => StepModel::Stop(s@),
            Step::Abort(s) => StepModel::Abort(s@),
        }
    }
}

/// What the daemon is doing after an input, and what is to be done; nothing
/// where the input has no meaning there. The first reconcile must succeed; a
/// later one that fails is only warned of.
pub open spec fn next_of(state: State, input: InputModel) -> Option<(State, StepModel)> {
    match (state, input) {
        (State::Starting, InputModel::Applied) => Some((State::Waiting, StepModel::Watch)),
        (State::Starting, InputModel::Failed(reason)) => Some(
            (State::Stopped, StepModel::Abort("initial reconcile: "@ + reason)),
        ),
        (State::Waiting, InputModel::Shutdown) => Some(
            (
                State::Stopped,
                StepModel::Stop(
                    "shutting down — leaving the ruleset in place (fail-closed); run `degc down` to remove"@,
                ),
            ),
        ),
        (State::Waiting, InputModel::Tick) => Some(
            (State::Reconciling, StepModel::Reconcile(Trigger::Resync)),
        ),
        (State::Waiting, InputModel::Event) => Some((State::Settling, StepModel::Settle)),
        (State::Waiting, InputModel::WatchEnded) => Some(
            (
                State::Waiting,
                StepModel::Rewatch("docker event watcher stopped; re-establishing"@),
            ),
        ),
        (State::Settling, InputModel::Event) => Some((State::Settling, StepModel::Settle)),
        (State::Settling, InputModel::Quiet) => Some(
            (State::Reconciling, StepModel::Reconcile(Trigger::Event)),
        ),
        (State::Settling, InputModel::WatchEnded) => Some(
            (State::Reconciling, StepModel::Reconcile(Trigger::Event)),
        ),
        (State::Reconciling, InputModel::Applied) => Some((State::Waiting, StepModel::Wait)),
        (State::Reconciling, InputModel::Failed(reason)) => Some(
            (State::Waiting, StepModel::Warn("reconcile failed: "@ + reason)),
        ),
        _ => None,
    }
}

/// How the daemon starts: with a reconcile.
pub fn start() -> (r: (State, Step))
    ensures
        r.0 == State::Starting,
        r.1@ == StepModel::Reconcile(Trigger::Startup),
{
    (State::Starting, Step::Reconcile(Trigger::Startup))
}

/// What the daemon does after an input, and what is to be done; nothing where
/// the input has no meaning there.
pub fn next(state: State, input: Input) -> (r: Option<(State, Step)>)
    ensures
        match (r, next_of(state, input@)) {
            (Some((s, step)), Some((want, wanted))) => s == want && step@ == wanted,
            (None, None) => true,
            _ => false,
        },
{
    match (state, input) {
        (State::Starting, Input::Applied) => Some((State::Waiting, Step::Watch)),
        (State::Starting, Input::Failed(reason)) => Some(
            (
                State::Stopped,
                Step::Abort("initial reconcile: ".to_owned().concat(reason.as_str())),
            ),
        ),
        (State::Waiting, Input::Shutdown) => Some(
            (
                State::Stopped,
                Step::Stop(
                    "shutting down — leaving the ruleset in place (fail-closed); run `degc down` to remove".to_owned(),
                ),
            ),
        ),
        (State::Waiting, Input::Tick) => Some(
            (State::Reconciling, Step::Reconcile(Trigger::Resync)),
        ),
        (State::Waiting, Input::Event) => Some((State::Settling, Step::Settle)),
        (State::Waiting, Input::WatchEnded) => Some(
            (
                State::Waiting,
                Step::Rewatch("docker event watcher stopped; re-establishing".to_owned()),
            ),
        ),
        (State::Settling, Input::Event) => Some((State::Settling, Step::Settle)),
        (State::Settling, Input::Quiet) => Some(
            (State::Reconciling, Step::Reconcile(Trigger::Event)),
        ),
        (State::Settling, Input::WatchEnded) => Some(
            (State::Reconciling, Step::Reconcile(Trigger::Event)),
        ),
        (State::Reconciling, Input::Applied) => Some((State::Waiting, Step::Wait)),
        (State::Reconciling, Input::Failed(reason)) => Some(
            (
                State::Waiting,
                Step::Warn("reconcile failed: ".to_owned().concat(reason.as_str())),
            ),
        ),
        _ => None,
    }
}

// ---------------------------------------------------------------------------
// What holds of every course

/// What the daemon is doing after these inputs. Inputs without a meaning leave
/// it as it is.
pub open spec fn state_after(inputs: Seq<InputModel>) -> State
    decreases inputs.len(),
{
    if inputs.len() == 0 {
        State::Starting
    } else {
        let before = state_after(inputs.drop_last());
        match next_of(before, inputs.last()) {
            Some((s, _)) => s,
            None => before,
        }
    }
}

/// Unless the first reconcile succeeds, the daemon does nothing else: as long as
/// no input says so, it is starting or has stopped.
pub proof fn first_reconcile_must_succeed(inputs: Seq<InputModel>)
    requires
        !inputs.contains(InputModel::Applied),
    ensures
        state_after(inputs) == State::Starting || state_after(inputs) == State::Stopped,
    decreases inputs.len(),
{
    if inputs.len() > 0 {
        let before = inputs.drop_last();
        assert(!before.contains(InputModel::Applied)) by {
            if before.contains(InputModel::Applied) {
                let i = choose|i: int| 0 <= i < before.len() && before[i] == InputModel::Applied;
                assert(inputs[i] == InputModel::Applied);
            }
        }
        first_reconcile_must_succeed(before);
        assert(inputs.last() != InputModel::Applied) by {
            if inputs.last() == InputModel::Applied {
                assert(inputs[inputs.len() - 1] == InputModel::Applied);
            }
        }
    }
}

/// Once started, the daemon stops only when it is asked to: a step to the end
/// is a step on a shutdown, from waiting.
pub proof fn only_shutdown_stops(state: State, input: InputModel)
    requires
        state != State::Starting,
        state != State::Stopped,
        next_of(state, input) is Some,
        (next_of(state, input)->0).0 == State::Stopped,
    ensures
        input == InputModel::Shutdown,
        state == State::Waiting,
{
}

/// A failed reconcile after the first is warned of and changes nothing else: the
/// daemon waits on, as after one that succeeded.
pub proof fn later_failure_is_survived(reason: Seq<char>)
    ensures
        (next_of(State::Reconciling, InputModel::Failed(reason))->0).0 == (next_of(
            State::Reconciling,
            InputModel::Applied,
        )->0).0,
{
}

/// A burst of Docker events leads to one reconcile, once it has settled: however
/// many events follow the first, the daemon is settling, and then it reconciles
/// because of an event.
pub proof fn burst_leads_to_one_reconcile(inputs: Seq<InputModel>, n: nat)
    requires
        state_after(inputs) == State::Waiting,
        n > 0,
    ensures
        state_after(inputs + Seq::new(n, |i: int| InputModel::Event)) == State::Settling,
        next_of(State::Settling, InputModel::Event) == Some((State::Settling, StepModel::Settle)),
        next_of(State::Settling, InputModel::Quiet) == Some(
            (State::Reconciling, StepModel::Reconcile(Trigger::Event)),
        ),
    decreases n,
{
    let all = inputs + Seq::new(n, |i: int| InputModel::Event);
    let fewer = inputs + Seq::new((n - 1) as nat, |i: int| InputModel::Event);
    assert(all.drop_last() =~= fewer);
    if n == 1 {
        assert(fewer =~= inputs);
    } else {
        burst_leads_to_one_reconcile(inputs, (n - 1) as nat);
    }
}

/// The first reconcile decides: where it succeeds, Docker is watched; where it
/// fails, the daemon ends with an error that says why. Nothing else counts before.
pub proof fn starting(input: InputModel)
    ensures
        ({
            let r = next_of(State::Starting, input);
            &&& input is Applied ==> r == Some((State::Waiting, StepModel::Watch))
            &&& input is Failed ==> r == Some(
                (State::Stopped, StepModel::Abort("initial reconcile: "@ + input->Failed_0)),
            )
            &&& !(input is Applied) && !(input is Failed) ==> r is None
        }),
{
}

/// While it waits, the interval leads to a reconcile at once, an event to one
/// after it has settled, and a shutdown to the end, with nothing removed. A watch
/// that ended is taken up again.
pub proof fn waiting(input: InputModel)
    ensures
        ({
            let r = next_of(State::Waiting, input);
            &&& input is Tick ==> r == Some(
                (State::Reconciling, StepModel::Reconcile(Trigger::Resync)),
            )
            &&& input is Event ==> r == Some((State::Settling, StepModel::Settle))
            &&& input is Shutdown ==> r == Some(
                (
                    State::Stopped,
                    StepModel::Stop(
                        "shutting down — leaving the ruleset in place (fail-closed); run `degc down` to remove"@,
                    ),
                ),
            )
            &&& input is WatchEnded ==> r == Some(
                (
                    State::Waiting,
                    StepModel::Rewatch("docker event watcher stopped; re-establishing"@),
                ),
            )
            &&& input is Applied || input is Failed || input is Quiet ==> r is None
        }),
{
}

/// Once an event came in, the daemon reconciles, for that reason: when nothing
/// came in for a while, or when nothing more can. Every further event lets it
/// wait on.
pub proof fn settling(input: InputModel)
    ensures
        ({
            let r = next_of(State::Settling, input);
            &&& input is Event ==> r == Some((State::Settling, StepModel::Settle))
            &&& input is Quiet || input is WatchEnded ==> r == Some(
                (State::Reconciling, StepModel::Reconcile(Trigger::Event)),
            )
            &&& !(input is Event) && !(input is Quiet) && !(input is WatchEnded) ==> r is None
        }),
{
}

/// A later reconcile is waited for; where it fails, that is warned of, and the
/// reason said. Either way the daemon goes on.
pub proof fn reconciling(input: InputModel)
    ensures
        ({
            let r = next_of(State::Reconciling, input);
            &&& input is Applied ==> r == Some((State::Waiting, StepModel::Wait))
            &&& input is Failed ==> r == Some(
                (State::Waiting, StepModel::Warn("reconcile failed: "@ + input->Failed_0)),
            )
            &&& !(input is Applied) && !(input is Failed) ==> r is None
        }),
{
}

/// Once it is over, nothing follows.
pub proof fn stopped(input: InputModel)
    ensures
        next_of(State::Stopped, input) is None,
{
}

/// Whenever a reconcile is to be done, the daemon is reconciling, and only then;
/// so there are never two at a time.
pub proof fn one_reconcile_at_a_time(state: State, input: InputModel)
    requires
        next_of(state, input) is Some,
    ensures
        (next_of(state, input)->0).1 is Reconcile <==> (next_of(state, input)->0).0
            == State::Reconciling,
        state == State::Reconciling || state == State::Starting ==> !((next_of(
            state,
            input,
        )->0).1 is Reconcile),
{
}

} // verus!
