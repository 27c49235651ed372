//! Turns a plan into the state that the host should have, and says how to apply
//! it. Both backends work from the same [`Desired`], so a dry run shows exactly
//! what would be programmed.

use vstd::prelude::*;

use crate::api::v1alpha1;
use crate::api::v1alpha1::{check_unique_routing, ConfigError, Gateway, GatewayModel};
use crate::plan::{GatewayPlanModel, Plan, PlanModel};
use crate::text;
use crate::text::{hex, join, quoted};

pub mod guarantees;
pub mod laws;
pub mod listing;
pub mod nft;
pub mod route;
pub mod run;
pub mod wording;

pub use run::{down, down_all};

use route::{IpCmd, IpCmdModel};
use run::{Run, RunModel};

verus! {

/// The state that the host should have.
#[derive(Debug, PartialEq, Eq)]
pub struct Desired {
    /// What is wrong with the configuration: containers that ask for a gateway
    /// that is not known.
    pub warnings: Vec<String>,
    /// The nftables script.
    pub nft: String,
    /// The `ip` commands, in order.
    pub ip: Vec<IpCmd>,
    /// The mark and the routing table of each gateway, which must not be in use
    /// by anyone else.
    pub guards: Vec<(String, u32)>,
}

/// The model of a [`Desired`].
pub struct DesiredModel {
    /// See [`Desired::warnings`].
    pub warnings: Seq<Seq<char>>,
    /// See [`Desired::nft`].
    pub nft: Seq<char>,
    /// See [`Desired::ip`].
    pub ip: Seq<IpCmdModel>,
    /// See [`Desired::guards`].
    pub guards: Seq<(Seq<char>, u32)>,
}

impl View for Desired {
    type V = DesiredModel;

    open spec fn view(&self) -> DesiredModel {
        DesiredModel {
            warnings: text::texts(self.warnings@),
            nft: self.nft@,
            ip: route::cmds(self.ip@),
            guards: route::guards_of(self.guards@),
        }
    }
}

/// What is said of a container that asks for a gateway that is not known, given
/// both names as they are quoted.
pub open spec fn unknown_gateway_text(container: Seq<char>, gateway: Seq<char>) -> Seq<char> {
    "container "@ + container + " opted into gateway "@ + gateway
        + " — no such gateway (not routed)"@
}

/// Says that a container asks for a gateway that is not known, given both names
/// as they are quoted.
pub fn unknown_gateway_message(container: &str, gateway: &str) -> (r: String)
    ensures
        r@ == unknown_gateway_text(container@, gateway@),
{
    "container ".to_owned().concat(container).concat(" opted into gateway ").concat(gateway).concat(
        " — no such gateway (not routed)",
    )
}

/// What is said of the containers that ask for gateways that are not known.
pub open spec fn warnings_of(unresolved: Seq<(Seq<char>, Seq<char>)>) -> Seq<Seq<char>> {
    unresolved.map_values(
        |p: (Seq<char>, Seq<char>)|
            unknown_gateway_text(text::debug_text(p.0), text::debug_text(p.1)),
    )
}

/// The mark and the routing table of each gateway.
pub open spec fn guards_for(gps: Seq<GatewayPlanModel>) -> Seq<(Seq<char>, u32)> {
    Seq::new(
        gps.len(),
        |i: int|
            (
                text::hex_text(v1alpha1::mark_of(gps[i].gateway)->0 as nat),
                v1alpha1::table_of(gps[i].gateway),
            ),
    )
}

/// The gateways of a plan.
pub open spec fn planned(gps: Seq<GatewayPlanModel>) -> Seq<GatewayModel> {
    gps.map_values(|gp: GatewayPlanModel| gp.gateway)
}

/// The state for a plan whose gateways can be told apart.
pub open spec fn desired_of(plan: PlanModel) -> DesiredModel {
    DesiredModel {
        warnings: warnings_of(plan.unresolved),
        nft: nft::script_of(nft::sources_of(plan.gateways)->Ok_0),
        ip: route::build_of(plan.gateways)->Ok_0,
        guards: guards_for(plan.gateways),
    }
}

/// Gateways that can be told apart have marks that can be read.
pub proof fn lemma_marks_read(gs: Seq<GatewayModel>)
    requires
        v1alpha1::routing_fault(gs) is None,
    ensures
        forall|i: int| 0 <= i < gs.len() ==> v1alpha1::mark_of(#[trigger] gs[i]) is Some,
    decreases gs.len(),
{
    if gs.len() > 0 {
        lemma_marks_read(gs.drop_last());
        assert forall|i: int| 0 <= i < gs.len() implies v1alpha1::mark_of(
            #[trigger] gs[i],
        ) is Some by {
            if i < gs.len() - 1 {
                assert(gs.drop_last()[i] == gs[i]);
            }
        }
    }
}

/// Where all marks can be read, the script and the commands can be built.
pub proof fn lemma_builds(gps: Seq<GatewayPlanModel>)
    requires
        forall|i: int| 0 <= i < gps.len() ==> v1alpha1::mark_of((#[trigger] gps[i]).gateway) is Some,
    ensures
        nft::sources_of(gps) is Ok,
        route::build_of(gps) is Ok,
    decreases gps.len(),
{
    if gps.len() > 0 {
        let before = gps.drop_last();
        assert forall|i: int| 0 <= i < before.len() implies v1alpha1::mark_of(
            (#[trigger] before[i]).gateway,
        ) is Some by {
            assert(before[i] == gps[i]);
        }
        lemma_builds(before);
    }
}

/// Says which containers ask for gateways that are not known.
fn warnings(unresolved: &Vec<(String, String)>) -> (r: Vec<String>)
    ensures
        text::texts(r@) == warnings_of(crate::plan::text_pairs(unresolved@)),
{
    let ghost all = warnings_of(crate::plan::text_pairs(unresolved@));
    let mut r: Vec<String> = Vec::new();
    for i in 0..unresolved.len()
        invariant
            all == warnings_of(crate::plan::text_pairs(unresolved@)),
            text::texts(r@) == all.take(i as int),
    {
        let container = quoted(unresolved[i].0.as_str());
        let gateway = quoted(unresolved[i].1.as_str());
        let line = unknown_gateway_message(container.as_str(), gateway.as_str());
        assert(crate::plan::text_pairs(unresolved@)[i as int] == (
            unresolved@[i as int].0@,
            unresolved@[i as int].1@,
        ));
        assert(line@ == all[i as int]);
        let ghost before = text::texts(r@);
        r.push(line);
        assert(text::texts(r@) == before.push(line@));
    }
    assert(all.take(all.len() as int) == all);
    r
}

/// Compiles a plan into the state that the host should have. Two gateways of
/// the same mark or table are an error: members of one would leave by the
/// egress of the other.
pub fn compile(plan: &Plan) -> (r: Result<Desired, ConfigError>)
    ensures
        match (r, v1alpha1::routing_fault(planned(plan@.gateways))) {
            (Ok(d), None) => d@ == desired_of(plan@),
            (Err(e), Some(fault)) => e@ == fault,
            _ => false,
        },
{
    let ghost gps = plan@.gateways;
    let mut all: Vec<&Gateway> = Vec::new();
    for i in 0..plan.gateways.len()
        invariant
            gps == plan@.gateways,
            v1alpha1::models_at(all@) == planned(gps).take(i as int),
    {
        let ghost before = v1alpha1::models_at(all@);
        all.push(&plan.gateways[i].gateway);
        assert(v1alpha1::models_at(all@) == before.push(planned(gps)[i as int]));
    }
    assert(planned(gps).take(gps.len() as int) == planned(gps));
    if let Err(e) = check_unique_routing(&all) {
        return Err(e);
    }
    proof {
        lemma_marks_read(planned(gps));
        assert forall|i: int| 0 <= i < gps.len() implies v1alpha1::mark_of(
            (#[trigger] gps[i]).gateway,
        ) is Some by {
            assert(planned(gps)[i] == gps[i].gateway);
        }
        lemma_builds(gps);
    }
    let mut guards: Vec<(String, u32)> = Vec::new();
    for i in 0..plan.gateways.len()
        invariant
            gps == plan@.gateways,
            forall|k: int|
                0 <= k < gps.len() ==> v1alpha1::mark_of((#[trigger] gps[k]).gateway) is Some,
            route::guards_of(guards@) == guards_for(gps).take(i as int),
    {
        let g = &plan.gateways[i].gateway;
        assert(gps[i as int].gateway == g@);
        let mark = match g.mark_value() {
            Ok(m) => m,
            Err(e) => {
                return Err(e);
            },
        };
        let one = (hex(mark), g.table_id());
        assert((one.0@, one.1) == guards_for(gps)[i as int]);
        let ghost before = route::guards_of(guards@);
        guards.push(one);
        assert(route::guards_of(guards@) == before.push((one.0@, one.1)));
    }
    assert(guards_for(gps).take(gps.len() as int) == guards_for(gps));
    let nft = match nft::build_script(plan) {
        Ok(s) => s,
        Err(e) => {
            return Err(e);
        },
    };
    let ip = match route::build(plan) {
        Ok(v) => v,
        Err(e) => {
            return Err(e);
        },
    };
    Ok(Desired { warnings: warnings(&plan.unresolved), nft, ip, guards })
}

// ---------------------------------------------------------------------------
// Showing

/// The lines of the warnings.
pub open spec fn warning_lines(warnings: Seq<Seq<char>>) -> Seq<char>
    decreases warnings.len(),
{
    if warnings.len() == 0 {
        Seq::empty()
    } else {
        warning_lines(warnings.drop_last()) + "# WARNING: "@ + warnings.last() + "\n"@
    }
}

/// The line of a command.
pub open spec fn cmd_line(c: IpCmdModel) -> Seq<char> {
    "ip "@ + text::joined(c.args, " "@) + (if c.ignore_fail {
        "    # ok if absent"@
    } else {
        Seq::empty()
    }) + "\n"@
}

/// The lines of the commands.
pub open spec fn cmd_lines(ip: Seq<IpCmdModel>) -> Seq<char>
    decreases ip.len(),
{
    if ip.len() == 0 {
        Seq::empty()
    } else {
        cmd_lines(ip.drop_last()) + cmd_line(ip.last())
    }
}

/// The state as text.
pub open spec fn desired_text(d: DesiredModel) -> Seq<char> {
    "# degc desired host state\n"@ + warning_lines(d.warnings)
        + "# --- nftables (nft -f -) ---\n"@ + d.nft + "# --- routing (ip) ---\n"@ + cmd_lines(d.ip)
}

/// Writes the lines of warnings.
pub fn write_warnings(warnings: &Vec<String>) -> (r: String)
    ensures
        r@ == warning_lines(text::texts(warnings@)),
{
    let ghost all = text::texts(warnings@);
    let mut r = String::new();
    for i in 0..warnings.len()
        invariant
            all == text::texts(warnings@),
            r@ == warning_lines(all.take(i as int)),
    {
        assert(all.take(i + 1).drop_last() == all.take(i as int));
        r.append("# WARNING: ");
        r.append(warnings[i].as_str());
        r.append("\n");
    }
    assert(all.take(all.len() as int) == all);
    r
}

impl Desired {
    /// Writes the state as text: the warnings, the script and the commands.
    pub fn render(&self) -> (r: String)
        ensures
            r@ == desired_text(self@),
    {
        let head = write_warnings(&self.warnings);
        let mut commands = String::new();
        for i in 0..self.ip.len()
            invariant
                commands@ == cmd_lines(self@.ip.take(i as int)),
        {
            assert(self@.ip.take(i + 1).drop_last() == self@.ip.take(i as int));
            assert(self@.ip[i as int] == self.ip@[i as int]@);
            let note = if self.ip[i].ignore_fail {
                "    # ok if absent".to_owned()
            } else {
                String::new()
            };
            let line = "ip ".to_owned().concat(join(&self.ip[i].args, " ").as_str()).concat(
                note.as_str(),
            ).concat("\n");
            commands.append(line.as_str());
        }
        assert(self@.ip.take(self.ip@.len() as int) == self@.ip);
        let mut r = "# degc desired host state\n".to_owned();
        r.append(head.as_str());
        r.append("# --- nftables (nft -f -) ---\n");
        r.append(self.nft.as_str());
        r.append("# --- routing (ip) ---\n");
        r.append(commands.as_str());
        r
    }
}

// ---------------------------------------------------------------------------
// Backends

/// A way to apply a state: to the host, or, in a dry run, only to the log.
pub trait Enforcer {
    /// The run that applies a state.
    spec fn run_of(&self, desired: DesiredModel) -> RunModel;

    /// What the backend is called in logs.
    spec fn label_of(&self) -> Seq<char>;

    /// Starts the run that applies a state. The state's warnings are no part of
    /// it: [`crate::reconcile::log_before`] says which are logged first.
    fn apply(&self, desired: &Desired) -> (r: Run)
        ensures
            r@ == self.run_of(desired@),
    ;

    /// What the backend is called in logs.
    fn label(&self) -> (r: &'static str)
        ensures
            r@ == self.label_of(),
    ;
}

/// Logs the state and programs nothing.
pub struct DryRunEnforcer;

impl Enforcer for DryRunEnforcer {
    open spec fn run_of(&self, desired: DesiredModel) -> RunModel {
        run::dry_run(desired)
    }

    open spec fn label_of(&self) -> Seq<char> {
        "dry-run"@
    }

    fn apply(&self, desired: &Desired) -> (r: Run) {
        Run::dry(desired)
    }

    fn label(&self) -> (r: &'static str) {
        "dry-run"
    }
}

/// Programs the host with `nft` and `ip`.
pub struct SystemEnforcer;

impl Enforcer for SystemEnforcer {
    open spec fn run_of(&self, desired: DesiredModel) -> RunModel {
        run::system_run(desired)
    }

    open spec fn label_of(&self) -> Seq<char> {
        "system (nft + ip)"@
    }

    fn apply(&self, desired: &Desired) -> (r: Run) {
        Run::system(desired)
    }

    fn label(&self) -> (r: &'static str) {
        "system (nft + ip)"
    }
}

/// The backend of a run mode.
pub enum Backend {
    /// See [`DryRunEnforcer`].
    DryRun(DryRunEnforcer),
    /// See [`SystemEnforcer`].
    System(SystemEnforcer),
}

impl Enforcer for Backend {
    open spec fn run_of(&self, desired: DesiredModel) -> RunModel {
        match self {
            Backend::DryRun(e) => e.run_of(desired),
            Backend::System(e) => e.run_of(desired),
        }
    }

    open spec fn label_of(&self) -> Seq<char> {
        match self {
            Backend::DryRun(e) => e.label_of(),
            Backend::System(e) => e.label_of(),
        }
    }

    fn apply(&self, desired: &Desired) -> (r: Run) {
        match self {
            Backend::DryRun(e) => e.apply(desired),
            Backend::System(e) => e.apply(desired),
        }
    }

    fn label(&self) -> (r: &'static str) {
        match self {
            Backend::DryRun(e) => e.label(),
            Backend::System(e) => e.label(),
        }
    }
}

/// Selects the backend for the run mode.
pub fn select(dry_run: bool) -> (r: Backend)
    ensures
        r is DryRun <==> dry_run,
        r is System <==> !dry_run,
{
    if dry_run {
        Backend::DryRun(DryRunEnforcer)
    } else {
        Backend::System(SystemEnforcer)
    }
}

} // verus!
