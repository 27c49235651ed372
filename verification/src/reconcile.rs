//! One reconcile: from the containers to the state that the host should have,
//! and what is said of it afterwards.

use vstd::prelude::*;

use crate::api::v1alpha1;
use crate::api::v1alpha1::{ConfigError, Gateways};
use crate::docker;
use crate::docker::Target;
use crate::enforce;
use crate::enforce::route;
use crate::enforce::route::{IpCmd, IpCmdModel};
use crate::enforce::run::copy_commands;
use crate::enforce::{Backend, Desired, DesiredModel};
use crate::net;
use crate::obs::{ReconcileStats, StatsModel};
use crate::ordered;
use crate::ordered::TextMap;
use crate::plan;
use crate::plan::{Egress, EgressModel, GatewayPlan, GatewayPlanModel, Plan, PlanModel};
use crate::text;
use crate::text::{decimal, hex, join, quoted, same};

verus! {

/// Plans for the containers and compiles the state that the host should have.
pub fn prepare(targets: &Vec<Target>, prefix: &str, gateways: &Gateways) -> (r: Result<
    (Plan, Desired),
    ConfigError,
>)
    ensures
        ({
            let wanted = plan::plan_of(docker::models(targets@), prefix@, gateways@);
            match (r, v1alpha1::routing_fault(enforce::planned(wanted.gateways))) {
                (Ok((p, d)), None) => p@ == wanted && d@ == enforce::desired_of(wanted),
                (Err(e), Some(fault)) => e@ == fault,
                _ => false,
            }
        }),
{
    let p = plan::compile(targets, prefix, gateways);
    match enforce::compile(&p) {
        Ok(d) => Ok((p, d)),
        Err(e) => Err(e),
    }
}

// ---------------------------------------------------------------------------
// The summary

/// An egress in the summary.
pub open spec fn brief_egress(egress: EgressModel) -> Seq<char> {
    match egress {
        EgressModel::Interface(name) => "dev "@ + name,
        EgressModel::NextHop(ip) => "via "@ + net::ip_text(ip),
        EgressModel::Unavailable(_) => "DOWN"@,
    }
}

/// The names of a gateway's members, in order, with `sep` between them.
pub open spec fn names_text(names: Set<Seq<char>>, sep: Seq<char>) -> Seq<char> {
    text::joined(ordered::ascending(names, ordered::by_text()), sep)
}

/// A gateway in the summary, given its egress there.
pub open spec fn gateway_part(gp: GatewayPlanModel, egress: Seq<char>) -> Seq<char> {
    gp.gateway.name + "="@ + egress + " members="@ + text::decimal_text(gp.members.len()) + "["@
        + names_text(gp.member_names, ","@) + "]"@
}

/// How many there are of something that should not be; nothing where there is
/// none.
pub open spec fn count_part(what: Seq<char>, n: nat) -> Seq<Seq<char>> {
    if n == 0 {
        Seq::empty()
    } else {
        seq![what + text::decimal_text(n)]
    }
}

/// The summary, given what is said of each gateway.
pub open spec fn summary_with(
    parts: Seq<Seq<char>>,
    unresolved: nat,
    conflicts: nat,
    errors: nat,
) -> Seq<char> {
    let all = parts + count_part("unresolved="@, unresolved) + count_part("conflicts="@, conflicts)
        + count_part("gatewayErrors="@, errors);
    if all.len() == 0 {
        "no gateways"@
    } else {
        text::joined(all, "  "@)
    }
}

/// What is said of each gateway.
pub open spec fn gateway_parts(gps: Seq<GatewayPlanModel>) -> Seq<Seq<char>> {
    gps.map_values(|gp: GatewayPlanModel| gateway_part(gp, brief_egress(gp.egress)))
}

/// The summary of a plan.
pub open spec fn summary_of(p: PlanModel) -> Seq<char> {
    summary_with(
        gateway_parts(p.gateways),
        p.unresolved.len(),
        p.conflicts.len(),
        p.discovery_errors.len(),
    )
}

/// Writes the names of a gateway's members.
fn write_names(names: &TextMap<()>, sep: &str) -> (r: String)
    ensures
        r@ == names_text(names@.dom(), sep@),
{
    let ghost keys = ordered::sorted_keys(names@);
    let mut list: Vec<String> = Vec::new();
    let n = names.len();
    for i in 0..n
        invariant
            keys == ordered::sorted_keys(names@),
            n == keys.len(),
            text::texts(list@) == keys.take(i as int),
    {
        let ghost before = text::texts(list@);
        list.push(names.key_at(i).to_owned());
        assert(text::texts(list@) == before.push(keys[i as int]));
    }
    assert(keys.take(n as int) == keys);
    join(&list, sep)
}

/// Says what a gateway does, given its egress as text.
pub fn gateway_summary(gp: &GatewayPlan, egress: &str) -> (r: String)
    ensures
        r@ == gateway_part(gp@, egress@),
{
    gp.gateway.name.clone().concat("=").concat(egress).concat(" members=").concat(
        decimal(gp.members.len() as u64).as_str(),
    ).concat("[").concat(write_names(&gp.member_names, ",").as_str()).concat("]")
}

fn push_count(parts: &mut Vec<String>, what: &str, n: usize)
    ensures
        text::texts(final(parts)@) == text::texts(old(parts)@) + count_part(what@, n as nat),
{
    let ghost before = text::texts(parts@);
    if n > 0 {
        let part = what.to_owned().concat(decimal(n as u64).as_str());
        parts.push(part);
        assert(text::texts(parts@) =~= before + seq![part@]);
    } else {
        assert(text::texts(parts@) =~= before + Seq::empty());
    }
}

/// Sums up, given what is said of each gateway.
pub fn sum_up(parts: Vec<String>, unresolved: usize, conflicts: usize, errors: usize) -> (r: String)
    ensures
        r@ == summary_with(
            text::texts(parts@),
            unresolved as nat,
            conflicts as nat,
            errors as nat,
        ),
{
    let mut all = parts;
    push_count(&mut all, "unresolved=", unresolved);
    push_count(&mut all, "conflicts=", conflicts);
    push_count(&mut all, "gatewayErrors=", errors);
    assert(text::texts(all@).len() == all@.len());
    if all.len() == 0 {
        "no gateways".to_owned()
    } else {
        join(&all, "  ")
    }
}

/// Writes an egress in the summary.
fn write_brief(egress: &Egress) -> (r: String)
    ensures
        r@ == brief_egress(egress@),
{
    match egress {
        Egress::Interface(name) => "dev ".to_owned().concat(name.as_str()),
        Egress::NextHop(ip) => "via ".to_owned().concat(ip.to_text().as_str()),
        Egress::Unavailable(_) => "DOWN".to_owned(),
    }
}

/// Sums a plan up in one line: for each gateway its egress and its members, then
/// how many of what is wrong there are.
pub fn plan_summary(p: &Plan) -> (r: String)
    ensures
        r@ == summary_of(p@),
{
    let ghost all = gateway_parts(p@.gateways);
    let mut parts: Vec<String> = Vec::new();
    for i in 0..p.gateways.len()
        invariant
            all == gateway_parts(p@.gateways),
            text::texts(parts@) == all.take(i as int),
    {
        let gp = &p.gateways[i];
        assert(p@.gateways[i as int] == gp@);
        let egress = write_brief(&gp.egress);
        let part = gateway_summary(gp, egress.as_str());
        assert(part@ == all[i as int]);
        let ghost before = text::texts(parts@);
        parts.push(part);
        assert(text::texts(parts@) == before.push(part@));
    }
    assert(all.take(all.len() as int) == all);
    sum_up(parts, p.unresolved.len(), p.conflicts.len(), p.discovery_errors.len())
}

// ---------------------------------------------------------------------------
// The warnings

/// What is said of a container whose gateway is not known, given both names as
/// they are quoted.
pub open spec fn unresolved_text(container: Seq<char>, gateway: Seq<char>) -> Seq<char> {
    "container "@ + container + " wants gateway "@ + gateway + " — no such gateway"@
}

/// What is said of a container that several gateways claim, given all names as
/// they are quoted.
pub open spec fn conflict_text(container: Seq<char>, gateways: Seq<Seq<char>>) -> Seq<char> {
    "container "@ + container + " matches multiple gateway selectors ["@ + text::joined(
        gateways,
        ", "@,
    ) + "] — not routed"@
}

/// Says that a container's gateway is not known, given both names as they are
/// quoted.
pub fn unresolved_message(container: &str, gateway: &str) -> (r: String)
    ensures
        r@ == unresolved_text(container@, gateway@),
{
    "container ".to_owned().concat(container).concat(" wants gateway ").concat(gateway).concat(
        " — no such gateway",
    )
}

/// Says that several gateways claim a container, given all names as they are
/// quoted.
pub fn conflict_message(container: &str, gateways: &Vec<String>) -> (r: String)
    ensures
        r@ == conflict_text(container@, text::texts(gateways@)),
{
    "container ".to_owned().concat(container).concat(
        " matches multiple gateway selectors [",
    ).concat(join(gateways, ", ").as_str()).concat("] — not routed")
}

/// The texts as they are quoted.
pub open spec fn all_quoted(v: Seq<Seq<char>>) -> Seq<Seq<char>> {
    v.map_values(|s: Seq<char>| text::debug_text(s))
}

/// What is said of the containers whose gateway is not known, with `note` at
/// the end.
pub open spec fn unresolved_texts(
    unresolved: Seq<(Seq<char>, Seq<char>)>,
    note: Seq<char>,
) -> Seq<Seq<char>> {
    unresolved.map_values(
        |p: (Seq<char>, Seq<char>)|
            unresolved_text(text::debug_text(p.0), text::debug_text(p.1)) + note,
    )
}

/// What is said of the containers that several gateways claim, with `note` at
/// the end.
pub open spec fn conflict_texts(
    conflicts: Seq<(Seq<char>, Seq<Seq<char>>)>,
    note: Seq<char>,
) -> Seq<Seq<char>> {
    conflicts.map_values(
        |p: (Seq<char>, Seq<Seq<char>>)|
            conflict_text(text::debug_text(p.0), all_quoted(p.1)) + note,
    )
}

/// Everything that is wrong with a plan: containers whose gateway is not known,
/// those that several gateways claim, and gateways that were dropped.
pub open spec fn complaints(
    p: PlanModel,
    unresolved_note: Seq<char>,
    conflict_note: Seq<char>,
) -> Seq<Seq<char>> {
    unresolved_texts(p.unresolved, unresolved_note) + conflict_texts(p.conflicts, conflict_note)
        + p.discovery_errors
}

fn quote_all(v: &Vec<String>) -> (r: Vec<String>)
    ensures
        text::texts(r@) == all_quoted(text::texts(v@)),
{
    let ghost all = all_quoted(text::texts(v@));
    let mut r: Vec<String> = Vec::new();
    for i in 0..v.len()
        invariant
            all == all_quoted(text::texts(v@)),
            text::texts(r@) == all.take(i as int),
    {
        let one = quoted(v[i].as_str());
        assert(one@ == all[i as int]);
        let ghost before = text::texts(r@);
        r.push(one);
        assert(text::texts(r@) == before.push(one@));
    }
    assert(all.take(all.len() as int) == all);
    r
}

/// Says everything that is wrong with a plan.
fn complain(p: &Plan, unresolved_note: &str, conflict_note: &str) -> (r: Vec<String>)
    ensures
        text::texts(r@) == complaints(p@, unresolved_note@, conflict_note@),
{
    let ghost us = unresolved_texts(p@.unresolved, unresolved_note@);
    let ghost cs = conflict_texts(p@.conflicts, conflict_note@);
    let mut r: Vec<String> = Vec::new();
    for i in 0..p.unresolved.len()
        invariant
            us == unresolved_texts(p@.unresolved, unresolved_note@),
            text::texts(r@) == us.take(i as int),
    {
        let container = quoted(p.unresolved[i].0.as_str());
        let gateway = quoted(p.unresolved[i].1.as_str());
        let line = unresolved_message(container.as_str(), gateway.as_str()).concat(unresolved_note);
        assert(p@.unresolved[i as int] == (
            p.unresolved@[i as int].0@,
            p.unresolved@[i as int].1@,
        ));
        assert(line@ == us[i as int]);
        let ghost before = text::texts(r@);
        r.push(line);
        assert(text::texts(r@) == before.push(line@));
    }
    assert(us.take(us.len() as int) == us);
    for i in 0..p.conflicts.len()
        invariant
            cs == conflict_texts(p@.conflicts, conflict_note@),
            text::texts(r@) == us + cs.take(i as int),
    {
        let container = quoted(p.conflicts[i].0.as_str());
        let gateways = quote_all(&p.conflicts[i].1);
        let line = conflict_message(container.as_str(), &gateways).concat(conflict_note);
        assert(p@.conflicts[i as int] == (
            p.conflicts@[i as int].0@,
            text::texts(p.conflicts@[i as int].1@),
        ));
        assert(line@ == cs[i as int]);
        let ghost before = text::texts(r@);
        r.push(line);
        assert(text::texts(r@) == before.push(line@));
    }
    assert(cs.take(cs.len() as int) == cs);
    for i in 0..p.discovery_errors.len()
        invariant
            text::texts(r@) == us + cs + p@.discovery_errors.take(i as int),
    {
        let ghost before = text::texts(r@);
        r.push(p.discovery_errors[i].clone());
        assert(text::texts(r@) == before.push(p@.discovery_errors[i as int]));
    }
    assert(p@.discovery_errors.take(p.discovery_errors@.len() as int) == p@.discovery_errors);
    r
}

// ---------------------------------------------------------------------------
// The report

/// How many containers are routed.
pub open spec fn routed_total(gps: Seq<GatewayPlanModel>) -> nat
    decreases gps.len(),
{
    if gps.len() == 0 {
        0
    } else {
        routed_total(gps.drop_last()) + gps.last().member_names.len()
    }
}

/// A number that fits, or the largest that does.
pub open spec fn saturated(n: nat) -> nat {
    if n <= usize::MAX {
        n
    } else {
        usize::MAX as nat
    }
}

/// What a plan says for the metrics.
pub open spec fn stats_of(p: PlanModel) -> StatsModel {
    StatsModel {
        members: saturated(routed_total(p.gateways)),
        gateways: p.gateways.map_values(
            |gp: GatewayPlanModel| (gp.gateway.name, !(gp.egress is Unavailable)),
        ),
    }
}

/// Gathers what a plan says for the metrics.
pub fn stats(p: &Plan) -> (r: ReconcileStats)
    ensures
        r@ == stats_of(p@),
{
    let ghost gps = p@.gateways;
    let mut members: usize = 0;
    let mut gateways: Vec<(String, bool)> = Vec::new();
    for i in 0..p.gateways.len()
        invariant
            gps == p@.gateways,
            members == saturated(routed_total(gps.take(i as int))),
            crate::obs::availabilities(gateways@) == stats_of(p@).gateways.take(i as int),
    {
        let gp = &p.gateways[i];
        assert(gps.take(i + 1).drop_last() == gps.take(i as int));
        assert(gps.take(i + 1).last() == gp@);
        let more = gp.member_names.len();
        members = if more <= usize::MAX - members {
            members + more
        } else {
            usize::MAX
        };
        let up = match &gp.egress {
            Egress::Unavailable(_) => false,
            _ => true,
        };
        let ghost before = crate::obs::availabilities(gateways@);
        gateways.push((gp.gateway.name.clone(), up));
        assert(crate::obs::availabilities(gateways@) == before.push(
            stats_of(p@).gateways[i as int],
        ));
    }
    assert(gps.take(gps.len() as int) == gps);
    let r = ReconcileStats { members, gateways };
    assert(r@.gateways =~= stats_of(p@).gateways);
    r
}

/// What a reconcile applies, as far as it is compared with what was applied
/// before.
#[derive(Debug, PartialEq, Eq)]
pub struct Fingerprint {
    /// The plan in one line.
    pub summary: String,
    /// The nftables script.
    pub nft: String,
    /// The `ip` commands, in order.
    pub ip: Vec<IpCmd>,
}

/// The model of a [`Fingerprint`].
pub struct FingerprintModel {
    /// See [`Fingerprint::summary`].
    pub summary: Seq<char>,
    /// See [`Fingerprint::nft`].
    pub nft: Seq<char>,
    /// See [`Fingerprint::ip`].
    pub ip: Seq<IpCmdModel>,
}

impl View for Fingerprint {
    type V = FingerprintModel;

    open spec fn view(&self) -> FingerprintModel {
        FingerprintModel { summary: self.summary@, nft: self.nft@, ip: route::cmds(self.ip@) }
    }
}

/// The fingerprint of a plan and the state that is applied for it.
pub open spec fn fingerprint_of(p: PlanModel, d: DesiredModel) -> FingerprintModel {
    FingerprintModel { summary: summary_of(p), nft: d.nft, ip: d.ip }
}

/// The model of the fingerprint before, if there was one.
pub open spec fn last_of(last: Option<Fingerprint>) -> Option<FingerprintModel> {
    match last {
        Some(f) => Some(f@),
        None => None,
    }
}

/// Whether two lists of texts hold the same.
fn same_texts(a: &Vec<String>, b: &Vec<String>) -> (r: bool)
    ensures
        r == (text::texts(a@) == text::texts(b@)),
{
    let ghost x = text::texts(a@);
    let ghost y = text::texts(b@);
    if a.len() != b.len() {
        assert(x.len() != y.len());
        return false;
    }
    for i in 0..a.len()
        invariant
            a.len() == b.len(),
            x == text::texts(a@),
            y == text::texts(b@),
            forall|k: int| 0 <= k < i ==> x[k] == y[k],
    {
        if !same(a[i].as_str(), b[i].as_str()) {
            assert(x[i as int] != y[i as int]);
            return false;
        }
        assert(x[i as int] == y[i as int]);
    }
    assert(x =~= y);
    true
}

/// Whether two lists of commands hold the same.
fn same_commands(a: &Vec<IpCmd>, b: &Vec<IpCmd>) -> (r: bool)
    ensures
        r == (route::cmds(a@) == route::cmds(b@)),
{
    let ghost x = route::cmds(a@);
    let ghost y = route::cmds(b@);
    if a.len() != b.len() {
        assert(x.len() != y.len());
        return false;
    }
    for i in 0..a.len()
        invariant
            a.len() == b.len(),
            x == route::cmds(a@),
            y == route::cmds(b@),
            forall|k: int| 0 <= k < i ==> x[k] == y[k],
    {
        assert(x[i as int] == a@[i as int]@);
        assert(y[i as int] == b@[i as int]@);
        if a[i].ignore_fail != b[i].ignore_fail || !same_texts(&a[i].args, &b[i].args) {
            assert(x[i as int] != y[i as int]);
            return false;
        }
        assert(x[i as int] == y[i as int]);
    }
    assert(x =~= y);
    true
}

impl Fingerprint {
    /// Whether both are of the same.
    pub fn same_as(&self, other: &Fingerprint) -> (r: bool)
        ensures
            r == (self@ == other@),
    {
        same(self.summary.as_str(), other.summary.as_str()) && same(
            self.nft.as_str(),
            other.nft.as_str(),
        ) && same_commands(&self.ip, &other.ip)
    }
}

/// What is said of a reconcile that was applied.
#[derive(Debug, PartialEq, Eq)]
pub struct Report {
    /// Whether what was applied differs from what was applied before.
    pub changed: bool,
    /// The plan in one line.
    pub summary: String,
    /// What is wrong; said only where something changed.
    pub complaints: Vec<String>,
    /// What the metrics are told.
    pub stats: ReconcileStats,
    /// What the next reconcile is compared with.
    pub fingerprint: Fingerprint,
}

/// What is complained of in a plan: everything that is wrong with it where
/// something changed, else nothing.
pub open spec fn complaints_on(p: PlanModel, changed: bool) -> Seq<Seq<char>> {
    if changed {
        complaints(p, " (not routed)"@, Seq::empty())
    } else {
        Seq::empty()
    }
}

/// Reports on a plan and the state that is applied for it. `last` is the
/// fingerprint of what was applied before.
pub fn report(p: &Plan, desired: &Desired, last: &Option<Fingerprint>) -> (r: Report)
    ensures
        r.summary@ == summary_of(p@),
        r.fingerprint@ == fingerprint_of(p@, desired@),
        r.changed <==> last_of(*last) != Some(fingerprint_of(p@, desired@)),
        text::texts(r.complaints@) == complaints_on(p@, r.changed),
        r.stats@ == stats_of(p@),
{
    let summary = plan_summary(p);
    let fingerprint = Fingerprint {
        summary: summary.clone(),
        nft: desired.nft.clone(),
        ip: copy_commands(&desired.ip),
    };
    assert(fingerprint@ == fingerprint_of(p@, desired@));
    let changed = match last {
        Some(before) => !before.same_as(&fingerprint),
        None => true,
    };
    proof {
        reveal_strlit("");
        assert(""@ =~= Seq::<char>::empty());
    }
    let said = if changed {
        complain(p, " (not routed)", "")
    } else {
        let none: Vec<String> = Vec::new();
        assert(text::texts(none@) =~= Seq::empty());
        none
    };
    Report { changed, summary, complaints: said, stats: stats(p), fingerprint }
}

/// A reconcile is reported as a change exactly where the script, the commands or
/// the summary differ from those before; so one that applies what was applied
/// before is not, and one that applies anything else is.
pub proof fn changes_are_those_of_what_is_applied(before: PlanModel, after: PlanModel)
    ensures
        fingerprint_of(before, enforce::desired_of(before)) == fingerprint_of(
            after,
            enforce::desired_of(after),
        ) <==> {
            &&& enforce::desired_of(before).nft == enforce::desired_of(after).nft
            &&& enforce::desired_of(before).ip == enforce::desired_of(after).ip
            &&& summary_of(before) == summary_of(after)
        },
{
}

/// A reconcile after which other IPv4 addresses are routed is a change, though
/// the summary may be the same: where the gateways before it are the same, and a
/// gateway has a member address in one plan that it has not in the other, the
/// fingerprints differ.
pub proof fn a_new_address_is_a_change(
    before: PlanModel,
    after: PlanModel,
    k: int,
    ip: net::IpAddr,
)
    requires
        v1alpha1::routing_fault(enforce::planned(before.gateways)) is None,
        v1alpha1::routing_fault(enforce::planned(after.gateways)) is None,
        0 <= k < before.gateways.len(),
        k < after.gateways.len(),
        before.gateways.take(k) == after.gateways.take(k),
        before.gateways[k].gateway == after.gateways[k].gateway,
        before.gateways[k].members.finite(),
        after.gateways[k].members.finite(),
        ip is V4,
        before.gateways[k].members.contains(ip) != after.gateways[k].members.contains(ip),
    ensures
        fingerprint_of(before, enforce::desired_of(before)) != fingerprint_of(
            after,
            enforce::desired_of(after),
        ),
{
    enforce::listing::routed_addresses_show(before, after, k, ip);
}

// ---------------------------------------------------------------------------
// The log

/// How much a line of the log matters.
#[derive(Debug, Clone, Copy, PartialEq, Eq, Structural)]
pub enum Level {
    /// Of use only to who looks for a fault.
    Debug,
    /// Something happened.
    Info,
    /// Something is wrong.
    Warn,
}

/// A line of the log.
#[derive(Debug, PartialEq, Eq)]
pub struct Line {
    /// How much it matters.
    pub level: Level,
    /// What it says.
    pub text: String,
}

/// The model of a [`Line`].
pub struct LineModel {
    /// See [`Line::level`].
    pub level: Level,
    /// See [`Line::text`].
    pub text: Seq<char>,
}

impl View for Line {
    type V = LineModel;

    open spec fn view(&self) -> LineModel {
        LineModel { level: self.level, text: self.text@ }
    }
}

/// The contents of lines.
pub open spec fn line_models(v: Seq<Line>) -> Seq<LineModel> {
    v.map_values(|l: Line| l@)
}

/// The lines of warnings.
pub open spec fn warned(warnings: Seq<Seq<char>>) -> Seq<LineModel> {
    warnings.map_values(|w: Seq<char>| LineModel { level: Level::Warn, text: w })
}

/// The lines that are logged before a state is applied: on the host, and where
/// something changed, its warnings.
pub open spec fn lines_before(system: bool, d: DesiredModel, changed: bool) -> Seq<LineModel> {
    if system && changed {
        warned(d.warnings)
    } else {
        Seq::empty()
    }
}

/// The lines that are logged once a state was applied: where something changed,
/// the summary and what is wrong, else only that nothing did.
pub open spec fn lines_after(
    summary: Seq<char>,
    complaints: Seq<Seq<char>>,
    changed: bool,
) -> Seq<LineModel> {
    if changed {
        seq![LineModel { level: Level::Info, text: summary }] + warned(complaints)
    } else {
        seq![LineModel { level: Level::Debug, text: "reconciled, no change: "@ + summary }]
    }
}

fn push_warnings(lines: &mut Vec<Line>, warnings: &Vec<String>)
    ensures
        line_models(final(lines)@) == line_models(old(lines)@) + warned(text::texts(warnings@)),
{
    let ghost first = line_models(lines@);
    let ghost all = warned(text::texts(warnings@));
    assert(first + all.take(0) =~= first);
    for i in 0..warnings.len()
        invariant
            all == warned(text::texts(warnings@)),
            line_models(lines@) == first + all.take(i as int),
    {
        let ghost before = line_models(lines@);
        let line = Line { level: Level::Warn, text: warnings[i].clone() };
        assert(line@ == all[i as int]);
        lines.push(line);
        assert(line_models(lines@) =~= before.push(line@));
        assert(all.take(i + 1) =~= all.take(i as int).push(all[i as int]));
    }
    assert(all.take(all.len() as int) =~= all);
}

/// What is to be logged before a state is applied.
pub fn log_before(backend: &Backend, desired: &Desired, report: &Report) -> (r: Vec<Line>)
    ensures
        line_models(r@) == lines_before(backend is System, desired@, report.changed),
{
    let mut lines: Vec<Line> = Vec::new();
    assert(line_models(lines@) =~= Seq::empty());
    if report.changed {
        if let Backend::System(_) = backend {
            push_warnings(&mut lines, &desired.warnings);
            assert(line_models(lines@) =~= warned(desired@.warnings));
        }
    }
    lines
}

/// What is to be logged once a state was applied.
pub fn log_after(report: &Report) -> (r: Vec<Line>)
    ensures
        line_models(r@) == lines_after(
            report.summary@,
            text::texts(report.complaints@),
            report.changed,
        ),
{
    let mut lines: Vec<Line> = Vec::new();
    if report.changed {
        let line = Line { level: Level::Info, text: report.summary.clone() };
        lines.push(line);
        assert(line_models(lines@) =~= seq![line@]);
        push_warnings(&mut lines, &report.complaints);
    } else {
        let line = Line {
            level: Level::Debug,
            text: "reconciled, no change: ".to_owned().concat(report.summary.as_str()),
        };
        lines.push(line);
        assert(line_models(lines@) =~= seq![line@]);
    }
    lines
}

/// A reconcile that changes nothing is quiet: all that is logged, before and
/// after, is a line that is of use only to who looks for a fault. One that
/// changes something says so.
pub proof fn only_changes_are_heard(
    system: bool,
    d: DesiredModel,
    summary: Seq<char>,
    complaints: Seq<Seq<char>>,
    changed: bool,
)
    ensures
        ({
            let all = lines_before(system, d, changed) + lines_after(summary, complaints, changed);
            &&& changed <==> exists|i: int|
                0 <= i < all.len() && (#[trigger] all[i]).level != Level::Debug
            &&& changed <==> all.contains(LineModel { level: Level::Info, text: summary })
        }),
{
    let first = lines_before(system, d, changed);
    let all = first + lines_after(summary, complaints, changed);
    if changed {
        let at = first.len() as int;
        assert(all[at] == LineModel { level: Level::Info, text: summary });
        assert(all[at].level != Level::Debug);
    } else {
        assert(all.len() == 1);
        assert(all[0].level == Level::Debug);
    }
}

// ---------------------------------------------------------------------------
// The status

/// A text with spaces after it, up to a width.
pub open spec fn padded(s: Seq<char>, width: nat) -> Seq<char> {
    if s.len() < width {
        s + Seq::new((width - s.len()) as nat, |i: int| ' ')
    } else {
        s
    }
}

/// Writes a text with spaces after it, up to a width.
fn pad(s: &str, width: usize) -> (r: String)
    ensures
        r@ == padded(s@, width as nat),
{
    let mut r = s.to_owned();
    let n = s.unicode_len();
    let mut i = n;
    while i < width
        invariant
            n == s@.len(),
            n <= i,
            n < width ==> i <= width,
            n >= width ==> i == n,
            r@ == s@ + Seq::new((i - n) as nat, |k: int| ' '),
        decreases width - i,
    {
        r.push(' ');
        i = i + 1;
    }
    assert(r@ =~= padded(s@, width as nat));
    r
}

/// An egress in the status.
pub open spec fn full_egress(egress: EgressModel) -> Seq<char> {
    match egress {
        EgressModel::Interface(name) => "interface "@ + name,
        EgressModel::NextHop(ip) => "via "@ + net::ip_text(ip),
        EgressModel::Unavailable(why) => "UNAVAILABLE ("@ + why + ")"@,
    }
}

/// A mark in the status.
pub open spec fn mark_text(mark: Option<u32>) -> Seq<char> {
    match mark {
        Some(m) => text::hex_text(m as nat),
        None => "?"@,
    }
}

/// A gateway in the status, given its egress there.
pub open spec fn gateway_status(gp: GatewayPlanModel, egress: Seq<char>) -> Seq<char> {
    "# gateway "@ + padded(gp.gateway.name, 12) + " egress="@ + egress + "  mark="@ + mark_text(
        v1alpha1::mark_of(gp.gateway),
    ) + " table="@ + text::decimal_text(v1alpha1::table_of(gp.gateway) as nat) + "  members="@
        + text::decimal_text(gp.members.len()) + "\n"@ + (if gp.member_names.len() == 0 {
        Seq::empty()
    } else {
        "#   members: "@ + names_text(gp.member_names, ", "@) + "\n"@
    })
}

/// The gateways in the status.
pub open spec fn gateway_statuses(gps: Seq<GatewayPlanModel>) -> Seq<char>
    decreases gps.len(),
{
    if gps.len() == 0 {
        Seq::empty()
    } else {
        gateway_statuses(gps.drop_last()) + gateway_status(
            gps.last(),
            full_egress(gps.last().egress),
        )
    }
}

/// The status of a plan: its gateways, what is wrong, and, where it can be
/// compiled, the state that the host should have.
pub open spec fn status_of(p: PlanModel) -> Seq<char> {
    gateway_statuses(p.gateways) + enforce::warning_lines(
        complaints(p, Seq::empty(), " (set degc.via)"@),
    ) + (if v1alpha1::routing_fault(enforce::planned(p.gateways)) is None {
        enforce::desired_text(enforce::desired_of(p))
    } else {
        Seq::empty()
    })
}

/// Writes an egress in the status.
fn write_full(egress: &Egress) -> (r: String)
    ensures
        r@ == full_egress(egress@),
{
    match egress {
        Egress::Interface(name) => "interface ".to_owned().concat(name.as_str()),
        Egress::NextHop(ip) => "via ".to_owned().concat(ip.to_text().as_str()),
        Egress::Unavailable(why) => "UNAVAILABLE (".to_owned().concat(why.as_str()).concat(")"),
    }
}

/// Writes a gateway in the status, given its egress there.
pub fn write_status(gp: &GatewayPlan, egress: &str) -> (r: String)
    ensures
        r@ == gateway_status(gp@, egress@),
{
    let mark = match gp.gateway.mark_value() {
        Ok(m) => hex(m),
        Err(_) => "?".to_owned(),
    };
    let mut r = "# gateway ".to_owned();
    r.append(pad(gp.gateway.name.as_str(), 12).as_str());
    r.append(" egress=");
    r.append(egress);
    r.append("  mark=");
    r.append(mark.as_str());
    r.append(" table=");
    r.append(decimal(gp.gateway.table_id() as u64).as_str());
    r.append("  members=");
    r.append(decimal(gp.members.len() as u64).as_str());
    r.append("\n");
    let more = if gp.member_names.len() == 0 {
        String::new()
    } else {
        "#   members: ".to_owned().concat(write_names(&gp.member_names, ", ").as_str()).concat("\n")
    };
    r.append(more.as_str());
    r
}

/// Writes the status of a plan. Where the state cannot be compiled, why is
/// handed back.
pub fn status(p: &Plan) -> (r: (String, Option<ConfigError>))
    ensures
        r.0@ == status_of(p@),
        match (r.1, v1alpha1::routing_fault(enforce::planned(p@.gateways))) {
            (None, None) => true,
            (Some(e), Some(fault)) => e@ == fault,
            _ => false,
        },
{
    let ghost gps = p@.gateways;
    let mut out = String::new();
    for i in 0..p.gateways.len()
        invariant
            gps == p@.gateways,
            out@ == gateway_statuses(gps.take(i as int)),
    {
        let gp = &p.gateways[i];
        assert(gps.take(i + 1).drop_last() == gps.take(i as int));
        assert(gps.take(i + 1).last() == gp@);
        let egress = write_full(&gp.egress);
        out.append(write_status(gp, egress.as_str()).as_str());
    }
    assert(gps.take(gps.len() as int) == gps);
    proof {
        reveal_strlit("");
        assert(""@ =~= Seq::<char>::empty());
    }
    let said = complain(p, "", " (set degc.via)");
    out.append(enforce::write_warnings(&said).as_str());
    match enforce::compile(p) {
        Ok(d) => {
            out.append(d.render().as_str());
            (out, None)
        },
        Err(e) => {
            assert(out@ =~= status_of(p@));
            (out, Some(e))
        },
    }
}

// ---------------------------------------------------------------------------
// What can be relied on

/// The summary says of each gateway, in order, its name, its way out, and how
/// many addresses of which containers are routed through it.
pub proof fn gateways_are_summed_up(p: PlanModel, i: int)
    requires
        0 <= i < p.gateways.len(),
    ensures
        ({
            let gp = p.gateways[i];
            let way = match gp.egress {
                EgressModel::Interface(name) => "dev "@ + name,
                EgressModel::NextHop(ip) => "via "@ + net::ip_text(ip),
                EgressModel::Unavailable(_) => "DOWN"@,
            };
            &&& gateway_parts(p.gateways).len() == p.gateways.len()
            &&& gateway_parts(p.gateways)[i] == gp.gateway.name + "="@ + way + " members="@
                + text::decimal_text(gp.members.len()) + "["@ + text::joined(
                ordered::ascending(gp.member_names, ordered::by_text()),
                ","@,
            ) + "]"@
        }),
{
}

/// The summary counts what is wrong after the gateways, each where there is any;
/// and it says so where there is neither a gateway nor anything wrong.
pub proof fn faults_are_summed_up(parts: Seq<Seq<char>>, u: nat, c: nat, e: nat)
    ensures
        parts.len() == 0 && u == 0 && c == 0 && e == 0 ==> summary_with(parts, u, c, e)
            == "no gateways"@,
        parts.len() > 0 && u == 0 && c == 0 && e == 0 ==> summary_with(parts, u, c, e)
            == text::joined(parts, "  "@),
        u > 0 && c == 0 && e == 0 ==> summary_with(parts, u, c, e) == text::joined(
            parts.push("unresolved="@ + text::decimal_text(u)),
            "  "@,
        ),
        u > 0 && c > 0 && e == 0 ==> summary_with(parts, u, c, e) == text::joined(
            parts.push("unresolved="@ + text::decimal_text(u)).push(
                "conflicts="@ + text::decimal_text(c),
            ),
            "  "@,
        ),
        u > 0 && c > 0 && e > 0 ==> summary_with(parts, u, c, e) == text::joined(
            parts.push("unresolved="@ + text::decimal_text(u)).push(
                "conflicts="@ + text::decimal_text(c),
            ).push("gatewayErrors="@ + text::decimal_text(e)),
            "  "@,
        ),
        u == 0 && c > 0 && e == 0 ==> summary_with(parts, u, c, e) == text::joined(
            parts.push("conflicts="@ + text::decimal_text(c)),
            "  "@,
        ),
        u == 0 && c > 0 && e > 0 ==> summary_with(parts, u, c, e) == text::joined(
            parts.push("conflicts="@ + text::decimal_text(c)).push(
                "gatewayErrors="@ + text::decimal_text(e),
            ),
            "  "@,
        ),
        u == 0 && c == 0 && e > 0 ==> summary_with(parts, u, c, e) == text::joined(
            parts.push("gatewayErrors="@ + text::decimal_text(e)),
            "  "@,
        ),
        u > 0 && c == 0 && e > 0 ==> summary_with(parts, u, c, e) == text::joined(
            parts.push("unresolved="@ + text::decimal_text(u)).push(
                "gatewayErrors="@ + text::decimal_text(e),
            ),
            "  "@,
        ),
{
    let all = parts + count_part("unresolved="@, u) + count_part("conflicts="@, c) + count_part(
        "gatewayErrors="@,
        e,
    );
    let with_u = if u > 0 {
        parts.push("unresolved="@ + text::decimal_text(u))
    } else {
        parts
    };
    let with_c = if c > 0 {
        with_u.push("conflicts="@ + text::decimal_text(c))
    } else {
        with_u
    };
    let with_e = if e > 0 {
        with_c.push("gatewayErrors="@ + text::decimal_text(e))
    } else {
        with_c
    };
    assert(all =~= with_e);
}

/// The summary of a plan is that of its gateways and of what is wrong with it.
pub proof fn summary_counts(p: PlanModel)
    ensures
        summary_of(p) == summary_with(
            gateway_parts(p.gateways),
            p.unresolved.len(),
            p.conflicts.len(),
            p.discovery_errors.len(),
        ),
{
}

/// Everything that is wrong is complained of, once: each container whose gateway
/// is not known, then each that several gateways claim, then each gateway that
/// was dropped, in their orders.
pub proof fn everything_wrong_is_said(p: PlanModel, a: Seq<char>, b: Seq<char>, i: int)
    ensures
        ({
            let all = complaints(p, a, b);
            let n = p.unresolved.len() as int;
            let m = p.conflicts.len() as int;
            &&& all.len() == n + m + p.discovery_errors.len()
            &&& 0 <= i < n ==> all[i] == "container "@ + text::debug_text(p.unresolved[i].0)
                + " wants gateway "@ + text::debug_text(p.unresolved[i].1)
                + " — no such gateway"@ + a
            &&& 0 <= i < m ==> all[n + i] == "container "@ + text::debug_text(p.conflicts[i].0)
                + " matches multiple gateway selectors ["@ + text::joined(
                p.conflicts[i].1.map_values(|s: Seq<char>| text::debug_text(s)),
                ", "@,
            ) + "] — not routed"@ + b
            &&& 0 <= i < p.discovery_errors.len() ==> all[n + m + i] == p.discovery_errors[i]
        }),
{
    if 0 <= i < p.conflicts.len() {
        assert(all_quoted(p.conflicts[i].1) =~= p.conflicts[i].1.map_values(
            |s: Seq<char>| text::debug_text(s),
        ));
    }
}

/// What is wrong is said where something changed, and not again otherwise.
pub proof fn complaints_come_once(p: PlanModel)
    ensures
        complaints_on(p, true) == complaints(p, " (not routed)"@, Seq::empty()),
        complaints_on(p, false) == Seq::<Seq<char>>::empty(),
{
}

/// One more gateway: its containers are counted, as far as a number goes, and it
/// is available unless its egress is not.
pub proof fn one_more_gateway_counts(gps: Seq<GatewayPlanModel>, gp: GatewayPlanModel)
    ensures
        routed_total(Seq::empty()) == 0,
        routed_total(gps.push(gp)) == routed_total(gps) + gp.member_names.len(),
{
    assert(gps.push(gp).drop_last() =~= gps);
}

/// What the metrics are told of a plan.
pub proof fn what_metrics_are_told(p: PlanModel, i: int)
    ensures
        stats_of(p).gateways.len() == p.gateways.len(),
        routed_total(p.gateways) <= usize::MAX ==> stats_of(p).members == routed_total(p.gateways),
        routed_total(p.gateways) > usize::MAX ==> stats_of(p).members == usize::MAX,
        0 <= i < p.gateways.len() ==> stats_of(p).gateways[i].0 == p.gateways[i].gateway.name,
        0 <= i < p.gateways.len() ==> (stats_of(p).gateways[i].1 <==> p.gateways[i].egress
            is Interface || p.gateways[i].egress is NextHop),
{
}

/// What is logged before a state is applied: its warnings, on the host, where
/// something changed; and after: one line, and where something changed what is
/// wrong.
pub proof fn what_is_logged(
    d: DesiredModel,
    summary: Seq<char>,
    said: Seq<Seq<char>>,
    system: bool,
    changed: bool,
    i: int,
)
    ensures
        !system || !changed ==> lines_before(system, d, changed).len() == 0,
        system && changed ==> lines_before(system, d, changed).len() == d.warnings.len(),
        system && changed && 0 <= i < d.warnings.len() ==> lines_before(system, d, changed)[i] == (
        LineModel { level: Level::Warn, text: d.warnings[i] }),
        !changed ==> lines_after(summary, said, changed) == seq![
            LineModel { level: Level::Debug, text: "reconciled, no change: "@ + summary },
        ],
        changed ==> lines_after(summary, said, changed).len() == said.len() + 1
            && lines_after(summary, said, changed)[0] == (LineModel {
            level: Level::Info,
            text: summary,
        }),
        changed && 0 <= i < said.len() ==> lines_after(summary, said, changed)[i + 1] == (
        LineModel { level: Level::Warn, text: said[i] }),
{
}

/// A text is filled up with spaces to a width, and never cut.
pub proof fn filling_up(s: Seq<char>, width: nat, i: int)
    ensures
        s.len() >= width ==> padded(s, width) == s,
        s.len() < width ==> padded(s, width).len() == width,
        0 <= i < s.len() ==> padded(s, width)[i] == s[i],
        s.len() <= i < width ==> padded(s, width)[i] == ' ',
{
}

/// The status says of one more gateway its name, its way out, its mark and its
/// table, how many addresses are routed through it, and of which containers.
pub proof fn one_more_gateway_in_the_status(gps: Seq<GatewayPlanModel>, gp: GatewayPlanModel)
    ensures
        gateway_statuses(Seq::empty()) == Seq::<char>::empty(),
        ({
            let way = match gp.egress {
                EgressModel::Interface(name) => "interface "@ + name,
                EgressModel::NextHop(ip) => "via "@ + net::ip_text(ip),
                EgressModel::Unavailable(why) => "UNAVAILABLE ("@ + why + ")"@,
            };
            let mark = match v1alpha1::mark_of(gp.gateway) {
                Some(m) => text::hex_text(m as nat),
                None => "?"@,
            };
            let line = "# gateway "@ + padded(gp.gateway.name, 12) + " egress="@ + way
                + "  mark="@ + mark + " table="@ + text::decimal_text(
                v1alpha1::table_of(gp.gateway) as nat,
            ) + "  members="@ + text::decimal_text(gp.members.len()) + "\n"@;
            let names = ordered::ascending(gp.member_names, ordered::by_text());
            &&& gp.member_names.len() == 0 ==> gateway_statuses(gps.push(gp)) == gateway_statuses(
                gps,
            ) + line
            &&& gp.member_names.len() > 0 ==> gateway_statuses(gps.push(gp)) == gateway_statuses(
                gps,
            ) + (line + ("#   members: "@ + text::joined(names, ", "@) + "\n"@))
        }),
{
    assert(gps.push(gp).drop_last() =~= gps);
    if gp.member_names.len() == 0 {
        let line = gateway_status(gp, full_egress(gp.egress));
        assert(line + Seq::empty() =~= line);
        assert(gateway_statuses(gps.push(gp)) =~= gateway_statuses(gps) + line);
    }
}

/// The status: the gateways, what is wrong, and the state, unless two gateways
/// cannot be told apart.
pub proof fn parts_of_the_status(p: PlanModel)
    ensures
        ({
            let head = gateway_statuses(p.gateways) + enforce::warning_lines(
                complaints(p, Seq::empty(), " (set degc.via)"@),
            );
            let fault = v1alpha1::routing_fault(enforce::planned(p.gateways));
            &&& fault is None ==> status_of(p) == head + enforce::desired_text(
                enforce::desired_of(p),
            )
            &&& fault is Some ==> status_of(p) == head
        }),
{
    let head = gateway_statuses(p.gateways) + enforce::warning_lines(
        complaints(p, Seq::empty(), " (set degc.via)"@),
    );
    assert(head + Seq::empty() =~= head);
}

} // verus!
