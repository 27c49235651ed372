//! The plan: for each gateway its egress as it is now, and the addresses of
//! the containers that are routed through it. It is made anew from each
//! snapshot of the containers, so an address is always the current one.

use vstd::prelude::*;

use crate::api::v1alpha1;
use crate::api::v1alpha1::{
    discovered_gateway, gateway_name, label, opt_in, selector_matches, ConfigError, ConfigFault,
    name_taken, Gateway, GatewayModel, Gateways, Labels,
};
use crate::docker;
use crate::docker::{Target, TargetModel, SERVICE_LABEL};
use crate::net;
use crate::net::IpAddr;
use crate::ordered;
use crate::ordered::{IpSet, TextMap};
use crate::seqs;
use crate::text;
use crate::text::{copy_texts, quoted, same, same_optional};

pub mod guarantees;
pub mod laws;

verus! {

/// An egress as it is at the time of a plan.
#[derive(Debug, PartialEq, Eq)]
pub enum Egress {
    /// Out of a host interface.
    Interface(String),
    /// To a next hop: a static one, or a gateway container's current address.
    NextHop(IpAddr),
    /// It could not be resolved, for the reason given. Marked traffic is then
    /// dropped, never sent elsewhere.
    Unavailable(String),
}

/// The model of an [`Egress`].
pub enum EgressModel {
    /// See [`Egress::Interface`].
    Interface(Seq<char>),
    /// See [`Egress::NextHop`].
    NextHop(IpAddr),
    /// See [`Egress::Unavailable`].
    Unavailable(Seq<char>),
}

impl View for Egress {
    type V = EgressModel;

    open spec fn view(&self) -> EgressModel {
        match self {
            Egress::Interface(name) => EgressModel::Interface(name@),
            Egress::NextHop(ip) => EgressModel::NextHop(*ip),
            Egress::Unavailable(reason) => EgressModel::Unavailable(reason@),
        }
    }
}

impl Clone for Egress {
    fn clone(&self) -> (r: Self)
        ensures
            r@ == self@,
    {
        match self {
            Egress::Interface(name) => Egress::Interface(name.clone()),
            Egress::NextHop(ip) => Egress::NextHop(*ip),
            Egress::Unavailable(reason) => Egress::Unavailable(reason.clone()),
        }
    }
}

/// A gateway, its egress, and what is routed through it.
#[derive(Debug, PartialEq, Eq)]
pub struct GatewayPlan {
    /// The gateway.
    pub gateway: Gateway,
    /// Its egress now.
    pub egress: Egress,
    /// The addresses of its members.
    pub members: IpSet,
    /// The names of the containers that are its members.
    pub member_names: TextMap<()>,
}

/// The model of a [`GatewayPlan`].
pub struct GatewayPlanModel {
    /// See [`GatewayPlan::gateway`].
    pub gateway: GatewayModel,
    /// See [`GatewayPlan::egress`].
    pub egress: EgressModel,
    /// See [`GatewayPlan::members`].
    pub members: Set<IpAddr>,
    /// See [`GatewayPlan::member_names`].
    pub member_names: Set<Seq<char>>,
}

impl View for GatewayPlan {
    type V = GatewayPlanModel;

    open spec fn view(&self) -> GatewayPlanModel {
        GatewayPlanModel {
            gateway: self.gateway@,
            egress: self.egress@,
            members: self.members@,
            member_names: self.member_names@.dom(),
        }
    }
}

/// The whole plan.
#[derive(Debug, PartialEq, Eq)]
pub struct Plan {
    /// The gateways, configured ones first.
    pub gateways: Vec<GatewayPlan>,
    /// Containers that opted in and the gateway that they asked for, which is
    /// not known.
    pub unresolved: Vec<(String, String)>,
    /// Containers that the selectors of several gateways match and that name
    /// none of them, and those gateways. They are not routed.
    pub conflicts: Vec<(String, Vec<String>)>,
    /// Why containers that declare themselves gateways were dropped.
    pub discovery_errors: Vec<String>,
}

/// The model of a [`Plan`].
pub struct PlanModel {
    /// See [`Plan::gateways`].
    pub gateways: Seq<GatewayPlanModel>,
    /// See [`Plan::unresolved`].
    pub unresolved: Seq<(Seq<char>, Seq<char>)>,
    /// See [`Plan::conflicts`].
    pub conflicts: Seq<(Seq<char>, Seq<Seq<char>>)>,
    /// See [`Plan::discovery_errors`].
    pub discovery_errors: Seq<Seq<char>>,
}

/// The models of a list of planned gateways.
pub open spec fn gateway_plans(v: Seq<GatewayPlan>) -> Seq<GatewayPlanModel> {
    v.map_values(|g: GatewayPlan| g@)
}

/// The contents of a list of pairs of texts.
pub open spec fn text_pairs(v: Seq<(String, String)>) -> Seq<(Seq<char>, Seq<char>)> {
    v.map_values(|p: (String, String)| (p.0@, p.1@))
}

/// The contents of a list of texts, each with more texts.
pub open spec fn text_lists(v: Seq<(String, Vec<String>)>) -> Seq<(Seq<char>, Seq<Seq<char>>)> {
    v.map_values(|p: (String, Vec<String>)| (p.0@, text::texts(p.1@)))
}

impl View for Plan {
    type V = PlanModel;

    open spec fn view(&self) -> PlanModel {
        PlanModel {
            gateways: gateway_plans(self.gateways@),
            unresolved: text_pairs(self.unresolved@),
            conflicts: text_lists(self.conflicts@),
            discovery_errors: text::texts(self.discovery_errors@),
        }
    }
}

// ---------------------------------------------------------------------------
// The gateways there are

/// A container that declares itself a gateway.
#[derive(Debug, PartialEq, Eq)]
pub struct Declaration {
    /// The container's name.
    pub container: String,
    /// The gateway's name.
    pub name: String,
    /// The gateway, or what is wrong with it.
    pub outcome: Result<Gateway, ConfigError>,
}

/// The model of a [`Declaration`].
pub struct DeclarationModel {
    /// See [`Declaration::container`].
    pub container: Seq<char>,
    /// See [`Declaration::name`].
    pub name: Seq<char>,
    /// See [`Declaration::outcome`].
    pub outcome: Result<GatewayModel, ConfigFault>,
}

/// The model of a declaration's outcome.
pub open spec fn outcome_model(r: Result<Gateway, ConfigError>) -> Result<GatewayModel, ConfigFault> {
    match r {
        Ok(g) => Ok(g@),
        Err(e) => Err(e@),
    }
}

impl View for Declaration {
    type V = DeclarationModel;

    open spec fn view(&self) -> DeclarationModel {
        DeclarationModel {
            container: self.container@,
            name: self.name@,
            outcome: outcome_model(self.outcome),
        }
    }
}

/// The models of a list of declarations.
pub open spec fn declarations(v: Seq<Declaration>) -> Seq<DeclarationModel> {
    v.map_values(|d: Declaration| d@)
}

/// How a container is called where it is an egress: by its Compose service, if
/// it has one, and by its name otherwise.
pub open spec fn egress_name(t: TargetModel) -> Seq<char> {
    match v1alpha1::label_of(t.labels, SERVICE_LABEL@) {
        Some(service) => service,
        None => t.name,
    }
}

/// What the containers declare, in their order.
pub open spec fn declared(prefix: Seq<char>, targets: Seq<TargetModel>) -> Seq<DeclarationModel>
    decreases targets.len(),
{
    if targets.len() == 0 {
        Seq::empty()
    } else {
        let t = targets.last();
        let before = declared(prefix, targets.drop_last());
        match v1alpha1::gateway_name_of(prefix, t.labels) {
            None => before,
            Some(name) => before.push(
                DeclarationModel {
                    container: t.name,
                    name,
                    outcome: v1alpha1::discovered_of(prefix, name, egress_name(t), t.labels),
                },
            ),
        }
    }
}

/// Reads what the containers declare.
pub fn find_declarations(targets: &Vec<Target>, prefix: &str) -> (r: Vec<Declaration>)
    ensures
        declarations(r@) == declared(prefix@, docker::models(targets@)),
{
    let ghost ts = docker::models(targets@);
    let mut r: Vec<Declaration> = Vec::new();
    for i in 0..targets.len()
        invariant
            ts == docker::models(targets@),
            declarations(r@) == declared(prefix@, ts.take(i as int)),
    {
        let t = &targets[i];
        assert(ts.take(i + 1).drop_last() == ts.take(i as int));
        assert(ts.take(i + 1).last() == t@);
        if let Some(name) = gateway_name(prefix, &t.labels) {
            let egress_container = match label(&t.labels, SERVICE_LABEL) {
                Some(service) => service,
                None => t.name.clone(),
            };
            let outcome = discovered_gateway(prefix, name.clone(), egress_container, &t.labels);
            let d = Declaration { container: t.name.clone(), name, outcome };
            let ghost before = declarations(r@);
            let ghost dm = d@;
            r.push(d);
            assert(declarations(r@) == before.push(dm));
        }
    }
    assert(ts.take(ts.len() as int) == ts);
    r
}

/// The gateways there are: the configured ones, then each that is declared
/// under a name that is not taken.
pub open spec fn merged(
    config: Seq<GatewayModel>,
    decls: Seq<DeclarationModel>,
) -> Seq<GatewayModel>
    decreases decls.len(),
{
    if decls.len() == 0 {
        config
    } else {
        let before = merged(config, decls.drop_last());
        let d = decls.last();
        if v1alpha1::has_name(before, d.name) {
            before
        } else {
            match d.outcome {
                Ok(g) => before.push(g),
                Err(_) => before,
            }
        }
    }
}

/// The declarations that were dropped: those under a name that is not taken
/// whose gateway is malformed.
pub open spec fn dropped(
    config: Seq<GatewayModel>,
    decls: Seq<DeclarationModel>,
) -> Seq<(Seq<char>, ConfigFault)>
    decreases decls.len(),
{
    if decls.len() == 0 {
        Seq::empty()
    } else {
        let before = dropped(config, decls.drop_last());
        let d = decls.last();
        if v1alpha1::has_name(merged(config, decls.drop_last()), d.name) {
            before
        } else {
            match d.outcome {
                Ok(_) => before,
                Err(f) => before.push((d.container, f)),
            }
        }
    }
}

/// The contents of a list of dropped declarations.
pub open spec fn faults(v: Seq<(String, ConfigError)>) -> Seq<(Seq<char>, ConfigFault)> {
    v.map_values(|p: (String, ConfigError)| (p.0@, p.1@))
}

/// Adds the declared gateways to the configured ones. A configured gateway, and
/// one declared earlier, wins over one of the same name; one that is malformed
/// is dropped, and why is handed back.
pub fn merge(config: Gateways, decls: Vec<Declaration>) -> (r: (Gateways, Vec<(String, ConfigError)>))
    ensures
        r.0@ == merged(config@, declarations(decls@)),
        faults(r.1@) == dropped(config@, declarations(decls@)),
{
    let ghost ds = declarations(decls@);
    let ghost cs = config@;
    let mut gateways = config;
    let mut errors: Vec<(String, ConfigError)> = Vec::new();
    for d in it: decls
        invariant
            ds == declarations(it.seq()),
            gateways@ == merged(cs, ds.take(it.index() as int)),
            faults(errors@) == dropped(cs, ds.take(it.index() as int)),
    {
        let ghost i = it.index() as int;
        assert(ds.take(i + 1).drop_last() == ds.take(i));
        assert(ds.take(i + 1).last() == d@);
        if !gateways.has(d.name.as_str()) {
            match d.outcome {
                Ok(g) => {
                    let ghost before = gateways@;
                    gateways.0.push(g);
                    assert(gateways@ == before.push(g@));
                },
                Err(e) => {
                    let ghost before = faults(errors@);
                    errors.push((d.container, e));
                    assert(faults(errors@) == before.push((d.container@, e@)));
                },
            }
        }
    }
    assert(ds.take(ds.len() as int) == ds);
    (gateways, errors)
}

// ---------------------------------------------------------------------------
// What a container is

/// What a container is to the gateways.
#[derive(Debug, PartialEq, Eq)]
pub enum Role {
    /// It declares itself a gateway.
    Gateway,
    /// It is routed through the gateway of this name.
    Member(String),
    /// It opted in, but the gateway that it asks for is not known.
    Unresolved(String),
    /// The selectors of several gateways match it, and it names none of them.
    Conflict(Vec<String>),
    /// It is left alone.
    Unmanaged,
}

/// The model of a [`Role`].
pub enum RoleModel {
    /// See [`Role::Gateway`].
    Gateway,
    /// See [`Role::Member`].
    Member(Seq<char>),
    /// See [`Role::Unresolved`].
    Unresolved(Seq<char>),
    /// See [`Role::Conflict`].
    Conflict(Seq<Seq<char>>),
    /// See [`Role::Unmanaged`].
    Unmanaged,
}

impl View for Role {
    type V = RoleModel;

    open spec fn view(&self) -> RoleModel {
        match self {
            Role::Gateway => RoleModel::Gateway,
            Role::Member(name) => RoleModel::Member(name@),
            Role::Unresolved(wanted) => RoleModel::Unresolved(wanted@),
            Role::Conflict(names) => RoleModel::Conflict(text::texts(names@)),
            Role::Unmanaged => RoleModel::Unmanaged,
        }
    }
}

/// Whether one of a gateway's selectors matches a container.
pub open spec fn claims(g: GatewayModel, labels: Map<Seq<char>, Seq<char>>) -> bool {
    exists|i: int| 0 <= i < g.members.len() && v1alpha1::selects(#[trigger] g.members[i], labels)
}

/// The names of the gateways whose selectors match a container.
pub open spec fn claimants(
    gs: Seq<GatewayModel>,
    labels: Map<Seq<char>, Seq<char>>,
) -> Seq<Seq<char>>
    decreases gs.len(),
{
    if gs.len() == 0 {
        Seq::empty()
    } else if claims(gs.last(), labels) {
        claimants(gs.drop_last(), labels).push(gs.last().name)
    } else {
        claimants(gs.drop_last(), labels)
    }
}

/// Which of the gateways that claim a container it names, if any, with
/// `<prefix>.via`.
pub open spec fn chosen(
    prefix: Seq<char>,
    names: Seq<Seq<char>>,
    labels: Map<Seq<char>, Seq<char>>,
) -> Option<Seq<char>> {
    match v1alpha1::label_of(labels, prefix + ".via"@) {
        Some(name) => if names.contains(name) {
            Some(name)
        } else {
            None
        },
        None => None,
    }
}

/// What a container with these labels is. A gateway is nothing else; an
/// explicit opt-in wins over selectors; and where several gateways claim a
/// container, the one that it names gets it, or else none.
pub open spec fn role_of(
    prefix: Seq<char>,
    gs: Seq<GatewayModel>,
    labels: Map<Seq<char>, Seq<char>>,
) -> RoleModel {
    if v1alpha1::gateway_name_of(prefix, labels) is Some {
        RoleModel::Gateway
    } else {
        match v1alpha1::opt_in_of(prefix, labels) {
            Some(wanted) => match v1alpha1::resolved(gs, wanted) {
                Some(i) => RoleModel::Member(gs[i].name),
                None => RoleModel::Unresolved(
                    match wanted {
                        Some(name) => name,
                        None => "<default>"@,
                    },
                ),
            },
            None => {
                let names = claimants(gs, labels);
                if names.len() == 0 {
                    RoleModel::Unmanaged
                } else if names.len() == 1 {
                    RoleModel::Member(names[0])
                } else {
                    match chosen(prefix, names, labels) {
                        Some(name) => RoleModel::Member(name),
                        None => RoleModel::Conflict(names),
                    }
                }
            },
        }
    }
}

/// Whether one of a gateway's selectors matches a container.
fn gateway_claims(g: &Gateway, labels: &Labels) -> (r: bool)
    ensures
        r == claims(g@, ordered::text_map(labels@)),
{
    let ghost l = ordered::text_map(labels@);
    for i in 0..g.members.len()
        invariant
            l == ordered::text_map(labels@),
            forall|k: int| 0 <= k < i ==> !v1alpha1::selects(#[trigger] g@.members[k], l),
    {
        assert(g@.members[i as int] == ordered::text_map(g.members@[i as int]@));
        if selector_matches(&g.members[i], labels) {
            return true;
        }
    }
    false
}

/// Whether a text is in a list.
fn listed(names: &Vec<String>, name: &str) -> (r: bool)
    ensures
        r == text::texts(names@).contains(name@),
{
    let ghost all = text::texts(names@);
    for i in 0..names.len()
        invariant
            all == text::texts(names@),
            forall|k: int| 0 <= k < i ==> #[trigger] all[k] != name@,
    {
        assert(all[i as int] == names@[i as int]@);
        if same(names[i].as_str(), name) {
            return true;
        }
    }
    false
}

/// What a container with these labels is.
pub fn role(prefix: &str, gateways: &Gateways, labels: &Labels) -> (r: Role)
    ensures
        r@ == role_of(prefix@, gateways@, ordered::text_map(labels@)),
{
    if gateway_name(prefix, labels).is_some() {
        return Role::Gateway;
    }
    if let Some(wanted) = opt_in(prefix, labels) {
        let resolved = match &wanted {
            Some(name) => gateways.resolve(Some(name.as_str())),
            None => gateways.resolve(None),
        };
        return match resolved {
            Some(g) => Role::Member(g.name.clone()),
            None => match wanted {
                Some(name) => Role::Unresolved(name),
                None => Role::Unresolved("<default>".to_owned()),
            },
        };
    }
    let ghost l = ordered::text_map(labels@);
    let mut names: Vec<String> = Vec::new();
    for i in 0..gateways.0.len()
        invariant
            l == ordered::text_map(labels@),
            text::texts(names@) == claimants(gateways@.take(i as int), l),
    {
        let g = &gateways.0[i];
        assert(gateways@.take(i + 1).drop_last() == gateways@.take(i as int));
        assert(gateways@.take(i + 1).last() == g@);
        if gateway_claims(g, labels) {
            let ghost before = text::texts(names@);
            names.push(g.name.clone());
            assert(text::texts(names@) == before.push(g.name@));
        }
    }
    assert(gateways@.take(gateways@.len() as int) == gateways@);
    if names.len() == 0 {
        Role::Unmanaged
    } else if names.len() == 1 {
        assert(text::texts(names@)[0] == names@[0]@);
        Role::Member(names[0].clone())
    } else {
        match label(labels, prefix.to_owned().concat(".via").as_str()) {
            Some(name) => if listed(&names, name.as_str()) {
                Role::Member(name)
            } else {
                Role::Conflict(names)
            },
            None => Role::Conflict(names),
        }
    }
}

// ---------------------------------------------------------------------------
// Where a gateway's traffic leaves

/// Whether a container is called `sel`: by its name or its Compose service.
pub open spec fn is_called(sel: Seq<char>) -> spec_fn(TargetModel) -> bool {
    |t: TargetModel|
        t.name == sel || v1alpha1::label_of(t.labels, SERVICE_LABEL@) == Some(sel)
}

/// Whether an address is an IPv4 address.
pub open spec fn is_v4() -> spec_fn(IpAddr) -> bool {
    |ip: IpAddr| ip is V4
}

/// The first IPv4 address of the first container that is called `sel`.
pub open spec fn container_ip(sel: Seq<char>, targets: Seq<TargetModel>) -> Option<IpAddr> {
    match seqs::first_where(targets, is_called(sel)) {
        None => None,
        Some(i) => match seqs::first_where(docker::addresses_of(targets[i]), is_v4()) {
            None => None,
            Some(k) => Some(docker::addresses_of(targets[i])[k]),
        },
    }
}

/// The first IPv4 address of a container.
fn first_ipv4(t: &Target) -> (r: Option<IpAddr>)
    ensures
        r == match seqs::first_where(docker::addresses_of(t@), is_v4()) {
            None => None,
            Some(k) => Some(docker::addresses_of(t@)[k]),
        },
{
    let all = t.addresses();
    let ghost a = docker::addresses_of(t@);
    for i in 0..all.len()
        invariant
            all@ == a,
            a == docker::addresses_of(t@),
            forall|k: int| 0 <= k < i ==> !is_v4()(#[trigger] a[k]),
    {
        if all[i].is_ipv4() {
            assert(is_v4()(a[i as int]));
            proof {
                seqs::lemma_first_is(a, is_v4(), i as int);
            }
            return Some(all[i]);
        }
    }
    proof {
        seqs::lemma_first_none(a, is_v4());
    }
    None
}

/// Finds the current address of the gateway container that `sel` names. Only
/// IPv4 is routed, so a container without an IPv4 address has none.
pub fn gateway_container_ip(sel: &str, targets: &Vec<Target>) -> (r: Option<IpAddr>)
    ensures
        r == container_ip(sel@, docker::models(targets@)),
{
    let ghost ts = docker::models(targets@);
    for i in 0..targets.len()
        invariant
            ts == docker::models(targets@),
            forall|k: int| 0 <= k < i ==> !is_called(sel@)(#[trigger] ts[k]),
    {
        let t = &targets[i];
        assert(ts[i as int] == t@);
        let service = label(&t.labels, SERVICE_LABEL);
        if same(t.name.as_str(), sel) || same_optional(&service, sel) {
            assert(is_called(sel@)(ts[i as int]));
            proof {
                seqs::lemma_first_is(ts, is_called(sel@), i as int);
            }
            return first_ipv4(t);
        }
    }
    proof {
        seqs::lemma_first_none(ts, is_called(sel@));
    }
    None
}

/// The text that is quoted where a gateway's egress is unavailable.
pub open spec fn egress_quote(g: GatewayModel) -> Seq<char> {
    match (g.egress.next_hop, g.egress.container) {
        (Some(next_hop), _) => next_hop,
        (None, Some(container)) => container,
        (None, None) => Seq::empty(),
    }
}

/// A gateway's egress, where `next_hop` is the address that its next hop
/// stands for and `quote` what is quoted.
pub open spec fn egress_with(
    g: GatewayModel,
    targets: Seq<TargetModel>,
    next_hop: Option<IpAddr>,
    quote: Seq<char>,
) -> EgressModel {
    match (g.egress.interface, g.egress.next_hop, g.egress.container) {
        (Some(name), _, _) => EgressModel::Interface(name),
        (None, Some(_), _) => match next_hop {
            Some(ip) => EgressModel::NextHop(ip),
            None => EgressModel::Unavailable("nextHop "@ + quote + " is not an IP"@),
        },
        (None, None, Some(sel)) => match container_ip(sel, targets) {
            Some(ip) => EgressModel::NextHop(ip),
            None => EgressModel::Unavailable("gateway container "@ + quote + " not running"@),
        },
        (None, None, None) => EgressModel::Unavailable("no egress configured"@),
    }
}

/// The address that a gateway's next hop stands for.
pub open spec fn next_hop_of(g: GatewayModel) -> Option<IpAddr> {
    match g.egress.next_hop {
        Some(s) => net::ip_named(s),
        None => None,
    }
}

/// A gateway's egress.
pub open spec fn egress_of(g: GatewayModel, targets: Seq<TargetModel>) -> EgressModel {
    egress_with(g, targets, next_hop_of(g), text::debug_text(egress_quote(g)))
}

/// Resolves a gateway's egress against the containers, given the address that
/// its next hop stands for and what to quote where there is none.
pub fn resolve_egress_with(
    g: &Gateway,
    targets: &Vec<Target>,
    next_hop: Option<IpAddr>,
    quote: &str,
) -> (r: Egress)
    ensures
        r@ == egress_with(g@, docker::models(targets@), next_hop, quote@),
{
    if let Some(name) = &g.egress.interface {
        return Egress::Interface(name.clone());
    }
    if g.egress.next_hop.is_some() {
        return match next_hop {
            Some(ip) => Egress::NextHop(ip),
            None => Egress::Unavailable("nextHop ".to_owned().concat(quote).concat(" is not an IP")),
        };
    }
    if let Some(sel) = &g.egress.container {
        return match gateway_container_ip(sel.as_str(), targets) {
            Some(ip) => Egress::NextHop(ip),
            None => Egress::Unavailable(
                "gateway container ".to_owned().concat(quote).concat(" not running"),
            ),
        };
    }
    Egress::Unavailable("no egress configured".to_owned())
}

/// Resolves a gateway's egress against the containers. A gateway container
/// that does not run leaves the egress unavailable.
pub fn resolve_egress(g: &Gateway, targets: &Vec<Target>) -> (r: Egress)
    ensures
        r@ == egress_of(g@, docker::models(targets@)),
{
    let next_hop = match &g.egress.next_hop {
        Some(s) => IpAddr::parse(s.as_str()),
        None => None,
    };
    let quote = match (&g.egress.next_hop, &g.egress.container) {
        (Some(s), _) => quoted(s.as_str()),
        (None, Some(s)) => quoted(s.as_str()),
        (None, None) => quoted(""),
    };
    proof {
        reveal_strlit("");
        assert(""@ =~= Seq::<char>::empty());
    }
    resolve_egress_with(g, targets, next_hop, quote.as_str())
}

// ---------------------------------------------------------------------------
// The plan

/// What each container is.
pub open spec fn roles_of(
    prefix: Seq<char>,
    gs: Seq<GatewayModel>,
    targets: Seq<TargetModel>,
) -> Seq<RoleModel> {
    Seq::new(targets.len(), |i: int| role_of(prefix, gs, targets[i].labels))
}

/// The addresses of the containers that are members of the gateway `name`.
pub open spec fn routed_ips(
    targets: Seq<TargetModel>,
    roles: Seq<RoleModel>,
    name: Seq<char>,
) -> Set<IpAddr> {
    Set::new(
        |ip: IpAddr|
            exists|i: int|
                0 <= i < targets.len() && #[trigger] roles[i] == RoleModel::Member(name)
                    && docker::addresses_of(targets[i]).contains(ip),
    )
}

/// The names of the containers that are members of the gateway `name`.
pub open spec fn routed_names(
    targets: Seq<TargetModel>,
    roles: Seq<RoleModel>,
    name: Seq<char>,
) -> Set<Seq<char>> {
    Set::new(
        |container: Seq<char>|
            exists|i: int|
                0 <= i < targets.len() && #[trigger] roles[i] == RoleModel::Member(name)
                    && targets[i].name == container,
    )
}

/// The containers whose gateway is not known, with the gateway that they ask
/// for.
pub open spec fn unresolved_of(
    targets: Seq<TargetModel>,
    roles: Seq<RoleModel>,
) -> Seq<(Seq<char>, Seq<char>)>
    decreases targets.len(),
{
    if targets.len() == 0 {
        Seq::empty()
    } else {
        let before = unresolved_of(targets.drop_last(), roles.drop_last());
        match roles.last() {
            RoleModel::Unresolved(wanted) => before.push((targets.last().name, wanted)),
            _ => before,
        }
    }
}

/// The containers that are a conflict, with the gateways that claim them.
pub open spec fn conflicts_of(
    targets: Seq<TargetModel>,
    roles: Seq<RoleModel>,
) -> Seq<(Seq<char>, Seq<Seq<char>>)>
    decreases targets.len(),
{
    if targets.len() == 0 {
        Seq::empty()
    } else {
        let before = conflicts_of(targets.drop_last(), roles.drop_last());
        match roles.last() {
            RoleModel::Conflict(names) => before.push((targets.last().name, names)),
            _ => before,
        }
    }
}

/// The plan for the `i`th gateway. Members are those of a name, so a gateway
/// with the name of an earlier one has none.
pub open spec fn gateway_plan_of(
    targets: Seq<TargetModel>,
    roles: Seq<RoleModel>,
    gs: Seq<GatewayModel>,
    egresses: Seq<EgressModel>,
    i: int,
) -> GatewayPlanModel {
    let taken = v1alpha1::has_name(gs.take(i), gs[i].name);
    GatewayPlanModel {
        gateway: gs[i],
        egress: egresses[i],
        members: if taken {
            Set::empty()
        } else {
            routed_ips(targets, roles, gs[i].name)
        },
        member_names: if taken {
            Set::empty()
        } else {
            routed_names(targets, roles, gs[i].name)
        },
    }
}

/// The plan for all gateways, given their egresses and why declared ones were
/// dropped.
pub open spec fn plan_with(
    targets: Seq<TargetModel>,
    prefix: Seq<char>,
    gs: Seq<GatewayModel>,
    egresses: Seq<EgressModel>,
    discovery_errors: Seq<Seq<char>>,
) -> PlanModel {
    let roles = roles_of(prefix, gs, targets);
    PlanModel {
        gateways: Seq::new(
            gs.len(),
            |i: int| gateway_plan_of(targets, roles, gs, egresses, i),
        ),
        unresolved: unresolved_of(targets, roles),
        conflicts: conflicts_of(targets, roles),
        discovery_errors,
    }
}

/// Why a declared gateway was dropped.
pub open spec fn discovery_text(quote: Seq<char>, message: Seq<char>) -> Seq<char> {
    "gateway container "@ + quote + ": "@ + message
}

/// Why declared gateways were dropped.
pub open spec fn discovery_texts(dropped: Seq<(Seq<char>, ConfigFault)>) -> Seq<Seq<char>> {
    dropped.map_values(
        |d: (Seq<char>, ConfigFault)|
            discovery_text(text::debug_text(d.0), v1alpha1::error::fault_text(d.1)),
    )
}

/// The plan for the containers and the configured gateways.
pub open spec fn plan_of(
    targets: Seq<TargetModel>,
    prefix: Seq<char>,
    config: Seq<GatewayModel>,
) -> PlanModel {
    let decls = declared(prefix, targets);
    let gs = merged(config, decls);
    plan_with(
        targets,
        prefix,
        gs,
        Seq::new(gs.len(), |i: int| egress_of(gs[i], targets)),
        discovery_texts(dropped(config, decls)),
    )
}

/// The models of a list of roles.
pub open spec fn role_models(v: Seq<Role>) -> Seq<RoleModel> {
    v.map_values(|r: Role| r@)
}

/// The models of a list of egresses.
pub open spec fn egress_models(v: Seq<Egress>) -> Seq<EgressModel> {
    v.map_values(|e: Egress| e@)
}

/// One more container adds its addresses and its name, if it is a member.
pub proof fn lemma_routed_step(
    targets: Seq<TargetModel>,
    roles: Seq<RoleModel>,
    n: int,
    name: Seq<char>,
)
    requires
        0 <= n < targets.len(),
        targets.len() == roles.len(),
    ensures
        routed_ips(targets.take(n + 1), roles.take(n + 1), name) == (if roles[n]
            == RoleModel::Member(name) {
            routed_ips(targets.take(n), roles.take(n), name).union(
                docker::addresses_of(targets[n]).to_set(),
            )
        } else {
            routed_ips(targets.take(n), roles.take(n), name)
        }),
        routed_names(targets.take(n + 1), roles.take(n + 1), name) == (if roles[n]
            == RoleModel::Member(name) {
            routed_names(targets.take(n), roles.take(n), name).insert(targets[n].name)
        } else {
            routed_names(targets.take(n), roles.take(n), name)
        }),
{
    let t = targets.take(n);
    let r = roles.take(n);
    let t1 = targets.take(n + 1);
    let r1 = roles.take(n + 1);
    let member = RoleModel::Member(name);
    assert forall|i: int| 0 <= i < n implies #[trigger] r1[i] == r[i] && t1[i] == t[i] by {}
    assert(r1[n] == roles[n] && t1[n] == targets[n]);
    let ips = routed_ips(t1, r1, name);
    let old_ips = routed_ips(t, r, name);
    let new_ips = docker::addresses_of(targets[n]).to_set();
    assert forall|ip: IpAddr| #[trigger] ips.contains(ip) <==> old_ips.contains(ip) || (roles[n]
        == member && new_ips.contains(ip)) by {
        if ips.contains(ip) {
            let i = choose|i: int|
                0 <= i < t1.len() && #[trigger] r1[i] == member && docker::addresses_of(
                    t1[i],
                ).contains(ip);
            if i < n {
                assert(r[i] == member);
            }
        }
        if old_ips.contains(ip) {
            let i = choose|i: int|
                0 <= i < t.len() && #[trigger] r[i] == member && docker::addresses_of(
                    t[i],
                ).contains(ip);
            assert(r1[i] == member);
        }
    }
    let names = routed_names(t1, r1, name);
    let old_names = routed_names(t, r, name);
    assert forall|c: Seq<char>| #[trigger] names.contains(c) <==> old_names.contains(c) || (roles[n]
        == member && c == targets[n].name) by {
        if names.contains(c) {
            let i = choose|i: int|
                0 <= i < t1.len() && #[trigger] r1[i] == member && t1[i].name == c;
            if i < n {
                assert(r[i] == member);
            }
        }
        if old_names.contains(c) {
            let i = choose|i: int| 0 <= i < t.len() && #[trigger] r[i] == member && t[i].name == c;
            assert(r1[i] == member);
        }
    }
    if roles[n] == member {
        assert(ips =~= old_ips.union(new_ips));
        assert(names =~= old_names.insert(targets[n].name));
    } else {
        assert(ips =~= old_ips);
        assert(names =~= old_names);
    }
}

/// Whether a role is that of a member of the gateway `name`.
fn is_member_of(r: &Role, name: &str) -> (b: bool)
    ensures
        b == (r@ == RoleModel::Member(name@)),
{
    match r {
        Role::Member(of) => same(of.as_str(), name),
        _ => false,
    }
}

/// Adds a container's addresses and its name to a gateway's members.
fn add_member(members: &mut IpSet, names: &mut TextMap<()>, t: &Target)
    ensures
        final(members)@ == old(members)@.union(docker::addresses_of(t@).to_set()),
        final(names)@.dom() == old(names)@.dom().insert(t@.name),
{
    let ghost before = members@;
    let all = t.addresses();
    for i in 0..all.len()
        invariant
            members@ == before.union(all@.take(i as int).to_set()),
    {
        assert(all@.take(i + 1).to_set() =~= all@.take(i as int).to_set().insert(all@[i as int])) by {
            assert(all@.take(i + 1) == all@.take(i as int).push(all@[i as int]));
            ordered::lemma_pushed(all@.take(i as int), all@[i as int]);
        }
        members.insert(all[i]);
        assert(members@ =~= before.union(all@.take(i + 1).to_set()));
    }
    assert(all@.take(all@.len() as int) == all@);
    assert(members@ =~= before.union(all@.to_set())) by {
        if all@.len() == 0 {
            assert(all@.to_set() =~= Set::empty());
        }
    }
    names.insert(t.name.clone(), ());
}

/// Collects the addresses and the names of the members of the gateway `name`.
fn collect_members(targets: &Vec<Target>, roles: &Vec<Role>, name: &str) -> (r: (
    IpSet,
    TextMap<()>,
))
    requires
        targets@.len() == roles@.len(),
    ensures
        r.0@ == routed_ips(docker::models(targets@), role_models(roles@), name@),
        r.1@.dom() == routed_names(docker::models(targets@), role_models(roles@), name@),
{
    let ghost ts = docker::models(targets@);
    let ghost rs = role_models(roles@);
    let mut members = IpSet::new();
    let mut names: TextMap<()> = TextMap::new();
    assert(members@ =~= routed_ips(ts.take(0), rs.take(0), name@));
    assert(names@.dom() =~= routed_names(ts.take(0), rs.take(0), name@));
    for i in 0..targets.len()
        invariant
            targets@.len() == roles@.len(),
            ts == docker::models(targets@),
            rs == role_models(roles@),
            members@ == routed_ips(ts.take(i as int), rs.take(i as int), name@),
            names@.dom() == routed_names(ts.take(i as int), rs.take(i as int), name@),
    {
        proof {
            lemma_routed_step(ts, rs, i as int, name@);
        }
        assert(ts[i as int] == targets@[i as int]@);
        assert(rs[i as int] == roles@[i as int]@);
        if is_member_of(&roles[i], name) {
            add_member(&mut members, &mut names, &targets[i]);
        }
    }
    assert(ts.take(ts.len() as int) == ts);
    assert(rs.take(rs.len() as int) == rs);
    (members, names)
}

/// Finds what each container is.
fn find_roles(targets: &Vec<Target>, prefix: &str, gateways: &Gateways) -> (r: Vec<Role>)
    ensures
        role_models(r@) == roles_of(prefix@, gateways@, docker::models(targets@)),
{
    let ghost ts = docker::models(targets@);
    let ghost all = roles_of(prefix@, gateways@, ts);
    let mut r: Vec<Role> = Vec::new();
    for i in 0..targets.len()
        invariant
            ts == docker::models(targets@),
            all == roles_of(prefix@, gateways@, ts),
            role_models(r@) == all.take(i as int),
    {
        let ghost before = role_models(r@);
        assert(ts[i as int] == targets@[i as int]@);
        let one = role(prefix, gateways, &targets[i].labels);
        assert(one@ == all[i as int]);
        r.push(one);
        assert(role_models(r@) == before.push(one@));
    }
    assert(all.take(all.len() as int) == all);
    r
}

/// Lists the containers whose gateway is not known.
fn list_unresolved(targets: &Vec<Target>, roles: &Vec<Role>) -> (r: Vec<(String, String)>)
    requires
        targets@.len() == roles@.len(),
    ensures
        text_pairs(r@) == unresolved_of(docker::models(targets@), role_models(roles@)),
{
    let ghost ts = docker::models(targets@);
    let ghost rs = role_models(roles@);
    let mut r: Vec<(String, String)> = Vec::new();
    for i in 0..targets.len()
        invariant
            targets@.len() == roles@.len(),
            ts == docker::models(targets@),
            rs == role_models(roles@),
            text_pairs(r@) == unresolved_of(ts.take(i as int), rs.take(i as int)),
    {
        assert(ts.take(i + 1).drop_last() == ts.take(i as int));
        assert(rs.take(i + 1).drop_last() == rs.take(i as int));
        assert(rs.take(i + 1).last() == roles@[i as int]@);
        if let Role::Unresolved(wanted) = &roles[i] {
            let ghost before = text_pairs(r@);
            r.push((targets[i].name.clone(), wanted.clone()));
            assert(text_pairs(r@) == before.push((targets@[i as int].name@, wanted@)));
        }
    }
    assert(ts.take(ts.len() as int) == ts);
    assert(rs.take(rs.len() as int) == rs);
    r
}

/// Lists the containers that several gateways claim.
fn list_conflicts(targets: &Vec<Target>, roles: &Vec<Role>) -> (r: Vec<(String, Vec<String>)>)
    requires
        targets@.len() == roles@.len(),
    ensures
        text_lists(r@) == conflicts_of(docker::models(targets@), role_models(roles@)),
{
    let ghost ts = docker::models(targets@);
    let ghost rs = role_models(roles@);
    let mut r: Vec<(String, Vec<String>)> = Vec::new();
    for i in 0..targets.len()
        invariant
            targets@.len() == roles@.len(),
            ts == docker::models(targets@),
            rs == role_models(roles@),
            text_lists(r@) == conflicts_of(ts.take(i as int), rs.take(i as int)),
    {
        assert(ts.take(i + 1).drop_last() == ts.take(i as int));
        assert(rs.take(i + 1).drop_last() == rs.take(i as int));
        assert(rs.take(i + 1).last() == roles@[i as int]@);
        if let Role::Conflict(names) = &roles[i] {
            let ghost before = text_lists(r@);
            r.push((targets[i].name.clone(), copy_texts(names)));
            assert(text_lists(r@) == before.push(
                (targets@[i as int].name@, text::texts(names@)),
            ));
        }
    }
    assert(ts.take(ts.len() as int) == ts);
    assert(rs.take(rs.len() as int) == rs);
    r
}

/// Plans for the gateways there are, given their egresses and why declared ones
/// were dropped: finds what each container is, and gives each gateway its
/// members.
pub fn assemble(
    targets: &Vec<Target>,
    prefix: &str,
    gateways: Gateways,
    egresses: Vec<Egress>,
    discovery_errors: Vec<String>,
) -> (plan: Plan)
    requires
        egresses@.len() == gateways@.len(),
    ensures
        plan@ == plan_with(
            docker::models(targets@),
            prefix@,
            gateways@,
            egress_models(egresses@),
            text::texts(discovery_errors@),
        ),
{
    let ghost ts = docker::models(targets@);
    let ghost gs = gateways@;
    let ghost es = egress_models(egresses@);
    let ghost want = plan_with(ts, prefix@, gs, es, text::texts(discovery_errors@));
    let roles = find_roles(targets, prefix, &gateways);
    let ghost rs = role_models(roles@);
    let unresolved = list_unresolved(targets, &roles);
    let conflicts = list_conflicts(targets, &roles);
    let mut plans: Vec<GatewayPlan> = Vec::new();
    for i in 0..gateways.0.len()
        invariant
            ts == docker::models(targets@),
            gs == gateways@,
            es == egress_models(egresses@),
            rs == role_models(roles@),
            targets@.len() == roles@.len(),
            egresses@.len() == gs.len(),
            gateway_plans(plans@) == Seq::new(
                i as nat,
                |k: int| gateway_plan_of(ts, rs, gs, es, k),
            ),
    {
        let name = gateways.0[i].name.as_str();
        assert(gs[i as int] == gateways.0@[i as int]@);
        let (members, member_names) = if name_taken(&gateways.0, i, name) {
            let none: TextMap<()> = TextMap::new();
            assert(none@.dom() =~= Set::<Seq<char>>::empty());
            (IpSet::new(), none)
        } else {
            collect_members(targets, &roles, name)
        };
        let one = GatewayPlan {
            gateway: gateways.0[i].clone(),
            egress: egresses[i].clone(),
            members,
            member_names,
        };
        assert(one@ == gateway_plan_of(ts, rs, gs, es, i as int));
        let ghost before = gateway_plans(plans@);
        plans.push(one);
        assert(gateway_plans(plans@) == before.push(one@));
    }
    let plan = Plan { gateways: plans, unresolved, conflicts, discovery_errors };
    assert(plan@.gateways == want.gateways);
    plan
}

/// Says why declared gateways were dropped.
fn discovery_messages(dropped: &Vec<(String, ConfigError)>) -> (r: Vec<String>)
    ensures
        text::texts(r@) == discovery_texts(faults(dropped@)),
{
    let ghost all = discovery_texts(faults(dropped@));
    let mut r: Vec<String> = Vec::new();
    for i in 0..dropped.len()
        invariant
            all == discovery_texts(faults(dropped@)),
            text::texts(r@) == all.take(i as int),
    {
        let quote = quoted(dropped[i].0.as_str());
        let message = dropped[i].1.message();
        let line = discovery_message(quote.as_str(), message.as_str());
        assert(faults(dropped@)[i as int] == (dropped@[i as int].0@, dropped@[i as int].1@));
        assert(line@ == all[i as int]);
        let ghost before = text::texts(r@);
        r.push(line);
        assert(text::texts(r@) == before.push(line@));
    }
    assert(all.take(all.len() as int) == all);
    r
}

/// Says why a declared gateway was dropped, given its container's name as it is
/// quoted and what is wrong with it.
pub fn discovery_message(quote: &str, message: &str) -> (r: String)
    ensures
        r@ == discovery_text(quote@, message@),
{
    "gateway container ".to_owned().concat(quote).concat(": ").concat(message)
}

/// Plans for the containers and the configured gateways. Containers may declare
/// further gateways; a configured one wins over a declared one of its name.
pub fn compile(targets: &Vec<Target>, prefix: &str, gateways: &Gateways) -> (plan: Plan)
    ensures
        plan@ == plan_of(docker::models(targets@), prefix@, gateways@),
{
    let ghost ts = docker::models(targets@);
    let decls = find_declarations(targets, prefix);
    let (all, dropped) = merge(gateways.clone(), decls);
    let discovery_errors = discovery_messages(&dropped);
    let ghost es = Seq::new(all@.len(), |i: int| egress_of(all@[i], ts));
    let mut egresses: Vec<Egress> = Vec::new();
    for i in 0..all.0.len()
        invariant
            ts == docker::models(targets@),
            es == Seq::new(all@.len(), |i: int| egress_of(all@[i], ts)),
            egress_models(egresses@) == es.take(i as int),
    {
        assert(all@[i as int] == all.0@[i as int]@);
        let one = resolve_egress(&all.0[i], targets);
        assert(one@ == es[i as int]);
        let ghost before = egress_models(egresses@);
        egresses.push(one);
        assert(egress_models(egresses@) == before.push(one@));
    }
    assert(es.take(es.len() as int) == es);
    assert(egress_models(egresses@).len() == egresses@.len());
    assemble(targets, prefix, all, egresses, discovery_errors)
}

} // verus!
