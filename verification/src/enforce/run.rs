//! Applying a state, step by step. A run says what is to be done next and is
//! told how it went. It decides what follows: nothing is programmed before the
//! host has been checked, and the first failure that is not expected ends it.

use vstd::prelude::*;

use crate::api::v1alpha1;
use crate::api::v1alpha1::{ConfigError, ConfigFault, Gateways};
use crate::docker;
use crate::docker::Target;
use crate::enforce::nft::TEARDOWN_SCRIPT;
use crate::enforce::route;
use crate::enforce::route::{check_guard, teardown, Collision, CollisionModel, IpCmd, IpCmdModel};
use crate::enforce::{Desired, DesiredModel};
use crate::plan;
use crate::plan::{find_declarations, merge};
use crate::text;
use crate::text::{join, trim};

verus! {

/// What is to be done next.
#[derive(Debug, PartialEq, Eq)]
pub enum Action {
    /// Log this text.
    Log(String),
    /// Show the rules: `ip -o rule show`.
    ShowRules,
    /// Show the routes of a table: `ip -o route show table`.
    ShowRoutes(u32),
    /// Run the script: `nft -f -`.
    Nft(String),
    /// Run `ip`.
    Ip(IpCmd),
}

/// The model of an [`Action`].
pub enum ActionModel {
    /// See [`Action::Log`].
    Log(Seq<char>),
    /// See [`Action::ShowRules`].
    ShowRules,
    /// See [`Action::ShowRoutes`].
    ShowRoutes(u32),
    /// See [`Action::Nft`].
    Nft(Seq<char>),
    /// See [`Action::Ip`].
    Ip(IpCmdModel),
}

impl View for Action {
    type V = ActionModel;

    open spec fn view(&self) -> ActionModel {
        match self {
            Action::Log(s) => ActionModel::Log(s@),
            Action::ShowRules => ActionModel::ShowRules,
            Action::ShowRoutes(table) => ActionModel::ShowRoutes(*table),
            Action::Nft(script) => ActionModel::Nft(script@),
            Action::Ip(c) => ActionModel::Ip(c@),
        }
    }
}

/// How an action went.
#[derive(Debug, PartialEq, Eq)]
pub enum Event {
    /// The text was logged.
    Logged,
    /// This was shown. Where nothing could be shown it is empty.
    Shown(String),
    /// The program ran, with this on its error output.
    Exited {
        /// Whether it succeeded.
        success: bool,
        /// Its error output.
        stderr: String,
    },
    /// The program could not be run, for this reason.
    NotRun(String),
}

/// The model of an [`Event`].
pub enum EventModel {
    /// See [`Event::Logged`].
    Logged,
    /// See [`Event::Shown`].
    Shown(Seq<char>),
    /// See [`Event::Exited`].
    Exited {
        /// See [`Event::Exited`].
        success: bool,
        /// See [`Event::Exited`].
        stderr: Seq<char>,
    },
    /// See [`Event::NotRun`].
    NotRun(Seq<char>),
}

impl View for Event {
    type V = EventModel;

    open spec fn view(&self) -> EventModel {
        match self {
            Event::Logged => EventModel::Logged,
            Event::Shown(s) => EventModel::Shown(s@),
            Event::Exited { success, stderr } => EventModel::Exited {
                success: *success,
                stderr: stderr@,
            },
            Event::NotRun(reason) => EventModel::NotRun(reason@),
        }
    }
}

/// Why a run failed.
#[derive(Debug, PartialEq, Eq)]
pub enum RunError {
    /// Someone else uses a gateway's mark or table.
    Collision(Collision),
    /// A gateway's mark cannot be read.
    Config(ConfigError),
    /// The script was rejected, with this error output.
    Rejected(String),
    /// The script could not be run, for this reason.
    NftNotRun(String),
    /// A command failed.
    IpFailed {
        /// The command's arguments.
        args: String,
        /// Its error output.
        stderr: String,
    },
    /// A command could not be run.
    IpNotRun {
        /// The command's arguments.
        args: String,
        /// Why.
        reason: String,
    },
}

/// The model of a [`RunError`].
pub enum RunFault {
    /// See [`RunError::Collision`].
    Collision(CollisionModel),
    /// See [`RunError::Config`].
    Config(ConfigFault),
    /// See [`RunError::Rejected`].
    Rejected(Seq<char>),
    /// See [`RunError::NftNotRun`].
    NftNotRun(Seq<char>),
    /// See [`RunError::IpFailed`].
    IpFailed {
        /// See [`RunError::IpFailed`].
        args: Seq<char>,
        /// See [`RunError::IpFailed`].
        stderr: Seq<char>,
    },
    /// See [`RunError::IpNotRun`].
    IpNotRun {
        /// See [`RunError::IpNotRun`].
        args: Seq<char>,
        /// See [`RunError::IpNotRun`].
        reason: Seq<char>,
    },
}

impl View for RunError {
    type V = RunFault;

    open spec fn view(&self) -> RunFault {
        match self {
            RunError::Collision(c) => RunFault::Collision(c@),
            RunError::Config(e) => RunFault::Config(e@),
            RunError::Rejected(stderr) => RunFault::Rejected(stderr@),
            RunError::NftNotRun(reason) => RunFault::NftNotRun(reason@),
            RunError::IpFailed { args, stderr } => RunFault::IpFailed {
                args: args@,
                stderr: stderr@,
            },
            RunError::IpNotRun { args, reason } => RunFault::IpNotRun {
                args: args@,
                reason: reason@,
            },
        }
    }
}

/// A failure's message, where `cause` is the message of a collision or of a
/// configuration error.
pub open spec fn run_text(f: RunFault, cause: Seq<char>) -> Seq<char> {
    match f {
        RunFault::Collision(_) => cause,
        RunFault::Config(_) => cause,
        RunFault::Rejected(stderr) => "nft -f rejected the ruleset: "@ + stderr,
        RunFault::NftNotRun(reason) => reason,
        RunFault::IpFailed { args, stderr } => "`ip "@ + args + "` failed: "@ + stderr,
        RunFault::IpNotRun { args, reason } => "spawning `ip "@ + args
            + "` (is iproute2 installed?): "@ + reason,
    }
}

/// The message of a collision or of a configuration error; nothing for the other
/// failures.
pub open spec fn cause_text(f: RunFault) -> Seq<char> {
    match f {
        RunFault::Collision(c) => route::collision_text(
            c,
            text::debug_text(route::collision_quote(c)),
        ),
        RunFault::Config(f) => v1alpha1::error::fault_text(f),
        _ => Seq::empty(),
    }
}

impl RunError {
    /// Says what failed, given the message of a collision or of a configuration
    /// error.
    pub fn message_with(&self, cause: &str) -> (r: String)
        ensures
            r@ == run_text(self@, cause@),
    {
        match self {
            RunError::Collision(_) => cause.to_owned(),
            RunError::Config(_) => cause.to_owned(),
            RunError::Rejected(stderr) => "nft -f rejected the ruleset: ".to_owned().concat(
                stderr.as_str(),
            ),
            RunError::NftNotRun(reason) => reason.clone(),
            RunError::IpFailed { args, stderr } => "`ip ".to_owned().concat(args.as_str()).concat(
                "` failed: ",
            ).concat(stderr.as_str()),
            RunError::IpNotRun { args, reason } => "spawning `ip ".to_owned().concat(
                args.as_str(),
            ).concat("` (is iproute2 installed?): ").concat(reason.as_str()),
        }
    }

    /// Says what failed.
    pub fn message(&self) -> (r: String)
        ensures
            r@ == run_text(self@, cause_text(self@)),
    {
        let cause = match self {
            RunError::Collision(c) => c.message(),
            RunError::Config(e) => e.message(),
            _ => String::new(),
        };
        self.message_with(cause.as_str())
    }
}

/// How far a run is.
#[derive(Debug, PartialEq, Eq)]
pub enum Stage {
    /// The text is to be logged.
    Log(String),
    /// The rules are to be shown.
    Rules,
    /// The routes of the next table are to be shown.
    Routes {
        /// The rules that were shown.
        rules: String,
        /// How many tables were shown, and are free.
        free: usize,
    },
    /// The script is to be run.
    Nft,
    /// The commands from here on are to be run.
    Ip(usize),
    /// All is done.
    Done,
    /// Something failed.
    Failed,
}

/// The model of a [`Stage`].
pub enum StageModel {
    /// See [`Stage::Log`].
    Log(Seq<char>),
    /// See [`Stage::Rules`].
    Rules,
    /// See [`Stage::Routes`].
    Routes {
        /// See [`Stage::Routes`].
        rules: Seq<char>,
        /// See [`Stage::Routes`].
        free: int,
    },
    /// See [`Stage::Nft`].
    Nft,
    /// See [`Stage::Ip`].
    Ip(int),
    /// See [`Stage::Done`].
    Done,
    /// See [`Stage::Failed`].
    Failed,
}

impl View for Stage {
    type V = StageModel;

    open spec fn view(&self) -> StageModel {
        match self {
            Stage::Log(s) => StageModel::Log(s@),
            Stage::Rules => StageModel::Rules,
            Stage::Routes { rules, free } => StageModel::Routes {
                rules: rules@,
                free: *free as int,
            },
            Stage::Nft => StageModel::Nft,
            Stage::Ip(next) => StageModel::Ip(*next as int),
            Stage::Done => StageModel::Done,
            Stage::Failed => StageModel::Failed,
        }
    }
}

/// A run in progress.
#[derive(Debug, PartialEq, Eq)]
pub struct Run {
    /// The marks and tables that must be free.
    pub guards: Vec<(String, u32)>,
    /// The script.
    pub nft: String,
    /// The commands, or why there are none.
    pub ip: Result<Vec<IpCmd>, ConfigError>,
    /// How far it is.
    pub stage: Stage,
}

/// The model of a [`Run`].
pub struct RunModel {
    /// See [`Run::guards`].
    pub guards: Seq<(Seq<char>, u32)>,
    /// See [`Run::nft`].
    pub nft: Seq<char>,
    /// See [`Run::ip`].
    pub ip: Result<Seq<IpCmdModel>, ConfigFault>,
    /// See [`Run::stage`].
    pub stage: StageModel,
}

/// The model of a list of commands, or of why there are none.
pub open spec fn commands_model(r: Result<Vec<IpCmd>, ConfigError>) -> Result<
    Seq<IpCmdModel>,
    ConfigFault,
> {
    match r {
        Ok(v) => Ok(route::cmds(v@)),
        Err(e) => Err(e@),
    }
}

impl View for Run {
    type V = RunModel;

    open spec fn view(&self) -> RunModel {
        RunModel {
            guards: route::guards_of(self.guards@),
            nft: self.nft@,
            ip: commands_model(self.ip),
            stage: self.stage@,
        }
    }
}

// ---------------------------------------------------------------------------
// Starting

/// A run that only logs the state.
pub open spec fn dry_run(d: DesiredModel) -> RunModel {
    RunModel {
        guards: d.guards,
        nft: d.nft,
        ip: Ok(d.ip),
        stage: StageModel::Log(
            "dry-run — would apply:\n"@ + crate::enforce::desired_text(d),
        ),
    }
}

/// A run that programs the host.
pub open spec fn system_run(d: DesiredModel) -> RunModel {
    RunModel { guards: d.guards, nft: d.nft, ip: Ok(d.ip), stage: StageModel::Rules }
}

/// A run that removes everything.
pub open spec fn down_run(gs: Seq<v1alpha1::GatewayModel>) -> RunModel {
    RunModel {
        guards: Seq::empty(),
        nft: TEARDOWN_SCRIPT@,
        ip: route::teardown_of(gs),
        stage: StageModel::Nft,
    }
}

fn copy_guards(v: &Vec<(String, u32)>) -> (r: Vec<(String, u32)>)
    ensures
        route::guards_of(r@) == route::guards_of(v@),
{
    let ghost all = route::guards_of(v@);
    let mut r: Vec<(String, u32)> = Vec::new();
    for i in 0..v.len()
        invariant
            all == route::guards_of(v@),
            route::guards_of(r@) == all.take(i as int),
    {
        let ghost before = route::guards_of(r@);
        r.push((v[i].0.clone(), v[i].1));
        assert(route::guards_of(r@) == before.push(all[i as int]));
    }
    assert(all.take(all.len() as int) == all);
    r
}

pub(crate) fn copy_commands(v: &Vec<IpCmd>) -> (r: Vec<IpCmd>)
    ensures
        route::cmds(r@) == route::cmds(v@),
{
    let ghost all = route::cmds(v@);
    let mut r: Vec<IpCmd> = Vec::new();
    for i in 0..v.len()
        invariant
            all == route::cmds(v@),
            route::cmds(r@) == all.take(i as int),
    {
        let ghost before = route::cmds(r@);
        r.push(v[i].clone());
        assert(route::cmds(r@) == before.push(all[i as int]));
    }
    assert(all.take(all.len() as int) == all);
    r
}

impl Run {
    /// A run that only logs the state.
    pub fn dry(desired: &Desired) -> (r: Run)
        ensures
            r@ == dry_run(desired@),
    {
        Run {
            guards: copy_guards(&desired.guards),
            nft: desired.nft.clone(),
            ip: Ok(copy_commands(&desired.ip)),
            stage: Stage::Log(
                "dry-run — would apply:\n".to_owned().concat(desired.render().as_str()),
            ),
        }
    }

    /// A run that programs the host.
    pub fn system(desired: &Desired) -> (r: Run)
        ensures
            r@ == system_run(desired@),
    {
        Run {
            guards: copy_guards(&desired.guards),
            nft: desired.nft.clone(),
            ip: Ok(copy_commands(&desired.ip)),
            stage: Stage::Rules,
        }
    }
}

/// A run that removes everything from the host: the table, then the policy
/// routing of the configured gateways.
pub fn down(gateways: &Gateways) -> (r: Run)
    ensures
        r@ == down_run(gateways@),
{
    let r = Run {
        guards: Vec::new(),
        nft: TEARDOWN_SCRIPT.to_owned(),
        ip: teardown(gateways),
        stage: Stage::Nft,
    };
    assert(r@.guards =~= Seq::empty());
    r
}

/// A run that removes everything from the host: the table, then the policy
/// routing of the configured gateways and of those that containers declare.
/// Nothing is known of a gateway whose container is gone.
pub fn down_all(targets: &Vec<Target>, prefix: &str, gateways: &Gateways) -> (r: Run)
    ensures
        r@ == down_run(
            plan::merged(gateways@, plan::declared(prefix@, docker::models(targets@))),
        ),
{
    let (all, _) = merge(gateways.clone(), find_declarations(targets, prefix));
    down(&all)
}

// ---------------------------------------------------------------------------
// Going on

/// What is to be done next: nothing, once the run is over.
pub open spec fn action_of(run: RunModel) -> Option<ActionModel> {
    match run.stage {
        StageModel::Log(s) => Some(ActionModel::Log(s)),
        StageModel::Rules => Some(ActionModel::ShowRules),
        StageModel::Routes { free, .. } => if 0 <= free < run.guards.len() {
            Some(ActionModel::ShowRoutes(run.guards[free].1))
        } else {
            None
        },
        StageModel::Nft => Some(ActionModel::Nft(run.nft)),
        StageModel::Ip(next) => match run.ip {
            Ok(cmds) => if 0 <= next < cmds.len() {
                Some(ActionModel::Ip(cmds[next]))
            } else {
                None
            },
            Err(_) => None,
        },
        StageModel::Done => None,
        StageModel::Failed => None,
    }
}

/// The stage in which the routes of the tables from `free` on are to be shown;
/// past the last table, the script.
pub open spec fn after_tables(run: RunModel, rules: Seq<char>, free: int) -> StageModel {
    if free < run.guards.len() {
        StageModel::Routes { rules, free }
    } else {
        StageModel::Nft
    }
}

/// The stage in which the commands from `next` on are to be run; past the last
/// command, the end.
pub open spec fn after_commands(cmds: Seq<IpCmdModel>, next: int) -> StageModel {
    if next < cmds.len() {
        StageModel::Ip(next)
    } else {
        StageModel::Done
    }
}

/// What follows an event, or why the run ends there. An event that does not
/// answer what was to be done changes nothing.
pub open spec fn next_stage(run: RunModel, event: EventModel) -> Result<StageModel, RunFault> {
    match (run.stage, event) {
        (StageModel::Log(_), EventModel::Logged) => Ok(StageModel::Done),
        (StageModel::Rules, EventModel::Shown(rules)) => Ok(after_tables(run, rules, 0)),
        (StageModel::Routes { rules, free }, EventModel::Shown(routes)) => if 0 <= free
            < run.guards.len() {
            match route::guard_collision(run.guards[free].0, run.guards[free].1, rules, routes) {
                Some(c) => Err(RunFault::Collision(c)),
                None => Ok(after_tables(run, rules, free + 1)),
            }
        } else {
            Ok(run.stage)
        },
        (StageModel::Nft, EventModel::NotRun(reason)) => Err(RunFault::NftNotRun(reason)),
        (StageModel::Nft, EventModel::Exited { success, stderr }) => if !success {
            Err(RunFault::Rejected(text::trim_of(stderr)))
        } else {
            match run.ip {
                Err(f) => Err(RunFault::Config(f)),
                Ok(cmds) => Ok(after_commands(cmds, 0)),
            }
        },
        (StageModel::Ip(next), EventModel::NotRun(reason)) => match run.ip {
            Ok(cmds) if 0 <= next < cmds.len() => Err(
                RunFault::IpNotRun { args: text::joined(cmds[next].args, " "@), reason },
            ),
            _ => Ok(run.stage),
        },
        (StageModel::Ip(next), EventModel::Exited { success, stderr }) => match run.ip {
            Ok(cmds) if 0 <= next < cmds.len() => if !success && !cmds[next].ignore_fail {
                Err(
                    RunFault::IpFailed {
                        args: text::joined(cmds[next].args, " "@),
                        stderr: text::trim_of(stderr),
                    },
                )
            } else {
                Ok(after_commands(cmds, next + 1))
            },
            _ => Ok(run.stage),
        },
        _ => Ok(run.stage),
    }
}

/// The run after an event.
pub open spec fn after(run: RunModel, event: EventModel) -> RunModel {
    RunModel {
        stage: match next_stage(run, event) {
            Ok(stage) => stage,
            Err(_) => StageModel::Failed,
        },
        ..run
    }
}

impl Run {
    /// What is to be done next: nothing, once the run is over.
    pub fn action(&self) -> (r: Option<Action>)
        ensures
            match (r, action_of(self@)) {
                (Some(a), Some(want)) => a@ == want,
                (None, None) => true,
                _ => false,
            },
    {
        match &self.stage {
            Stage::Log(s) => Some(Action::Log(s.clone())),
            Stage::Rules => Some(Action::ShowRules),
            Stage::Routes { free, .. } => if *free < self.guards.len() {
                Some(Action::ShowRoutes(self.guards[*free].1))
            } else {
                None
            },
            Stage::Nft => Some(Action::Nft(self.nft.clone())),
            Stage::Ip(next) => match &self.ip {
                Ok(cmds) => if *next < cmds.len() {
                    Some(Action::Ip(cmds[*next].clone()))
                } else {
                    None
                },
                Err(_) => None,
            },
            Stage::Done => None,
            Stage::Failed => None,
        }
    }
}

/// The stage in which the routes of the tables from `free` on are to be shown.
fn tables_from(guards: &Vec<(String, u32)>, rules: String, free: usize) -> (r: Stage)
    ensures
        r@ == (if free < guards@.len() {
            StageModel::Routes { rules: rules@, free: free as int }
        } else {
            StageModel::Nft
        }),
{
    if free < guards.len() {
        Stage::Routes { rules, free }
    } else {
        Stage::Nft
    }
}

/// The stage in which the commands from `next` on are to be run.
fn commands_from(cmds: &Vec<IpCmd>, next: usize) -> (r: Stage)
    ensures
        r@ == after_commands(route::cmds(cmds@), next as int),
{
    if next < cmds.len() {
        Stage::Ip(next)
    } else {
        Stage::Done
    }
}

impl Run {
    /// What follows an event; `None` where it does not answer what was to be
    /// done.
    fn follow(&self, event: Event) -> (r: Option<Result<Stage, RunError>>)
        ensures
            match (r, next_stage(self@, event@)) {
                (None, Ok(want)) => want == self@.stage,
                (Some(Ok(stage)), Ok(want)) => stage@ == want,
                (Some(Err(e)), Err(fault)) => e@ == fault,
                _ => false,
            },
    {
        match (&self.stage, event) {
            (Stage::Log(_), Event::Logged) => Some(Ok(Stage::Done)),
            (Stage::Rules, Event::Shown(rules)) => Some(Ok(tables_from(&self.guards, rules, 0))),
            (Stage::Routes { rules, free }, Event::Shown(routes)) => {
                let i = *free;
                if i < self.guards.len() {
                    let guard = &self.guards[i];
                    assert(self@.guards[i as int] == (guard.0@, guard.1));
                    match check_guard(guard.0.as_str(), guard.1, rules.as_str(), routes.as_str()) {
                        Err(c) => Some(Err(RunError::Collision(c))),
                        Ok(_) => Some(Ok(tables_from(&self.guards, rules.clone(), i + 1))),
                    }
                } else {
                    None
                }
            },
            (Stage::Nft, Event::NotRun(reason)) => Some(Err(RunError::NftNotRun(reason))),
            (Stage::Nft, Event::Exited { success, stderr }) => if !success {
                Some(Err(RunError::Rejected(trim(stderr.as_str()))))
            } else {
                match &self.ip {
                    Err(e) => Some(Err(RunError::Config(e.clone()))),
                    Ok(cmds) => Some(Ok(commands_from(cmds, 0))),
                }
            },
            (Stage::Ip(next), Event::NotRun(reason)) => match &self.ip {
                Ok(cmds) => if *next < cmds.len() {
                    assert(route::cmds(cmds@)[*next as int] == cmds@[*next as int]@);
                    let args = join(&cmds[*next].args, " ");
                    Some(Err(RunError::IpNotRun { args, reason }))
                } else {
                    None
                },
                Err(_) => None,
            },
            (Stage::Ip(next), Event::Exited { success, stderr }) => match &self.ip {
                Ok(cmds) => if *next < cmds.len() {
                    assert(route::cmds(cmds@)[*next as int] == cmds@[*next as int]@);
                    if !success && !cmds[*next].ignore_fail {
                        let args = join(&cmds[*next].args, " ");
                        Some(Err(RunError::IpFailed { args, stderr: trim(stderr.as_str()) }))
                    } else {
                        Some(Ok(commands_from(cmds, *next + 1)))
                    }
                } else {
                    None
                },
                Err(_) => None,
            },
            _ => None,
        }
    }

    /// Tells the run how its action went. An error ends the run; an event that
    /// does not answer what was to be done changes nothing.
    pub fn step(&mut self, event: Event) -> (r: Result<(), RunError>)
        ensures
            final(self)@ == after(old(self)@, event@),
            match (r, next_stage(old(self)@, event@)) {
                (Ok(_), Ok(_)) => true,
                (Err(e), Err(fault)) => e@ == fault,
                _ => false,
            },
    {
        match self.follow(event) {
            None => Ok(()),
            Some(Ok(stage)) => {
                self.stage = stage;
                Ok(())
            },
            Some(Err(e)) => {
                self.stage = Stage::Failed;
                Err(e)
            },
        }
    }
}

} // verus!
