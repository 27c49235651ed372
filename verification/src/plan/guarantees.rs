//! What can be relied on of a plan, in terms of the containers' labels and the
//! gateways that were written down.

use vstd::prelude::*;

use crate::api::v1alpha1;
use crate::api::v1alpha1::{ConfigFault, GatewayModel};
use crate::docker;
use crate::docker::TargetModel;
use crate::net;
use crate::net::IpAddr;
use crate::plan;
use crate::plan::{DeclarationModel, EgressModel, RoleModel};
use crate::seqs;
use crate::text;

verus! {

// ---------------------------------------------------------------------------
// What a container is

/// Whether a container says that it is a gateway.
pub open spec fn says_gateway(prefix: Seq<char>, labels: Map<Seq<char>, Seq<char>>) -> bool {
    labels.dom().contains(prefix + ".gateway"@) && text::trim_of(
        labels[prefix + ".gateway"@],
    ).len() > 0
}

/// Whether a container says that it is to be routed.
pub open spec fn says_enable(prefix: Seq<char>, labels: Map<Seq<char>, Seq<char>>) -> bool {
    labels.dom().contains(prefix + ".enable"@) && labels[prefix + ".enable"@] == "true"@
}

/// Whether a gateway lists a selector, with at least one label, all of whose
/// labels the container carries with the same values.
pub open spec fn picks(g: GatewayModel, labels: Map<Seq<char>, Seq<char>>) -> bool {
    exists|k: int|
        0 <= k < g.members.len() && (#[trigger] g.members[k]).dom() != Set::<Seq<char>>::empty()
            && (forall|key: Seq<char>| #[trigger]
            g.members[k].dom().contains(key) ==> labels.dom().contains(key) && labels[key]
                == g.members[k][key])
}

/// A container that says that it is a gateway is a gateway, and only such a
/// container is.
pub proof fn gateways_are_those_that_say_so(
    prefix: Seq<char>,
    gs: Seq<GatewayModel>,
    labels: Map<Seq<char>, Seq<char>>,
)
    ensures
        plan::role_of(prefix, gs, labels) == RoleModel::Gateway <==> says_gateway(prefix, labels),
{
}

/// A container that is to be routed and names a gateway that there is goes
/// through that gateway; where there is none of that name, it is unresolved,
/// under the name that it gave.
pub proof fn named_gateway_is_used(
    prefix: Seq<char>,
    gs: Seq<GatewayModel>,
    labels: Map<Seq<char>, Seq<char>>,
)
    requires
        !says_gateway(prefix, labels),
        says_enable(prefix, labels),
        labels.dom().contains(prefix + ".via"@),
    ensures
        ({
            let wanted = labels[prefix + ".via"@];
            let role = plan::role_of(prefix, gs, labels);
            &&& (exists|i: int| 0 <= i < gs.len() && (#[trigger] gs[i]).name == wanted) ==> role
                == RoleModel::Member(wanted)
            &&& (forall|i: int| 0 <= i < gs.len() ==> (#[trigger] gs[i]).name != wanted) ==> role
                == RoleModel::Unresolved(wanted)
        }),
{
    let wanted = labels[prefix + ".via"@];
    v1alpha1::laws::name_resolves(gs, wanted);
    if exists|i: int| 0 <= i < gs.len() && (#[trigger] gs[i]).name == wanted {
        assert(v1alpha1::has_name(gs, wanted));
    }
}

/// A container that is to be routed and names no gateway goes through the first
/// one that is the default; where none is, through the only one there is; and
/// otherwise it is unresolved.
pub proof fn default_gateway_is_used(
    prefix: Seq<char>,
    gs: Seq<GatewayModel>,
    labels: Map<Seq<char>, Seq<char>>,
    i: int,
)
    requires
        !says_gateway(prefix, labels),
        says_enable(prefix, labels),
        !labels.dom().contains(prefix + ".via"@),
    ensures
        ({
            let role = plan::role_of(prefix, gs, labels);
            &&& 0 <= i < gs.len() && gs[i].default && (forall|j: int|
                0 <= j < i ==> !(#[trigger] gs[j]).default) ==> role == RoleModel::Member(
                gs[i].name,
            )
            &&& gs.len() == 1 ==> role == RoleModel::Member(gs[0].name)
            &&& gs.len() != 1 && (forall|j: int| 0 <= j < gs.len() ==> !(#[trigger] gs[j]).default)
                ==> role == RoleModel::Unresolved("<default>"@)
        }),
{
    v1alpha1::guarantees::no_name_leads_to_the_default(gs, i);
}

/// A container is unresolved only where it is to be routed and there is no
/// gateway for it: none of the name that it gives, or, where it gives none,
/// neither a default nor an only one.
pub proof fn unresolved_for_want_of_a_gateway(
    prefix: Seq<char>,
    gs: Seq<GatewayModel>,
    labels: Map<Seq<char>, Seq<char>>,
)
    requires
        plan::role_of(prefix, gs, labels) is Unresolved,
    ensures
        !says_gateway(prefix, labels),
        says_enable(prefix, labels),
        labels.dom().contains(prefix + ".via"@) ==> forall|i: int|
            0 <= i < gs.len() ==> (#[trigger] gs[i]).name != labels[prefix + ".via"@],
        !labels.dom().contains(prefix + ".via"@) ==> gs.len() != 1 && forall|i: int|
            0 <= i < gs.len() ==> !(#[trigger] gs[i]).default,
{
    if labels.dom().contains(prefix + ".via"@) {
        v1alpha1::laws::name_resolves(gs, labels[prefix + ".via"@]);
    } else {
        v1alpha1::laws::default_resolves(gs);
    }
}

proof fn lemma_picks(g: GatewayModel, labels: Map<Seq<char>, Seq<char>>)
    ensures
        plan::claims(g, labels) == picks(g, labels),
{
    if plan::claims(g, labels) {
        let k = choose|k: int|
            0 <= k < g.members.len() && v1alpha1::selects(#[trigger] g.members[k], labels);
        let s = g.members[k];
        if s.dom() == Set::<Seq<char>>::empty() {
            assert(s =~= Map::empty());
        }
    }
    if picks(g, labels) {
        let k = choose|k: int|
            0 <= k < g.members.len() && (#[trigger] g.members[k]).dom() != Set::<
                Seq<char>,
            >::empty() && (forall|key: Seq<char>| #[trigger]
                g.members[k].dom().contains(key) ==> labels.dom().contains(key) && labels[key]
                    == g.members[k][key]);
        assert(v1alpha1::selects(g.members[k], labels));
    }
}

/// Which gateways claim a container: each that picks it, in their order.
pub proof fn claims_in_order(
    gs: Seq<GatewayModel>,
    g: GatewayModel,
    labels: Map<Seq<char>, Seq<char>>,
)
    ensures
        plan::claimants(Seq::empty(), labels) == Seq::<Seq<char>>::empty(),
        picks(g, labels) ==> plan::claimants(gs.push(g), labels) == plan::claimants(
            gs,
            labels,
        ).push(g.name),
        !picks(g, labels) ==> plan::claimants(gs.push(g), labels) == plan::claimants(gs, labels),
{
    lemma_picks(g, labels);
    assert(gs.push(g).drop_last() =~= gs);
}

proof fn lemma_no_claimant(gs: Seq<GatewayModel>, labels: Map<Seq<char>, Seq<char>>)
    requires
        forall|j: int| 0 <= j < gs.len() ==> !picks(#[trigger] gs[j], labels),
    ensures
        plan::claimants(gs, labels).len() == 0,
    decreases gs.len(),
{
    if gs.len() > 0 {
        let before = gs.drop_last();
        assert forall|j: int| 0 <= j < before.len() implies !picks(#[trigger] before[j], labels) by {
            assert(before[j] == gs[j]);
        }
        lemma_no_claimant(before, labels);
        lemma_picks(gs.last(), labels);
        assert(gs[gs.len() - 1] == gs.last());
    }
}

proof fn lemma_one_claimant(gs: Seq<GatewayModel>, labels: Map<Seq<char>, Seq<char>>, i: int)
    requires
        0 <= i < gs.len(),
        picks(gs[i], labels),
        forall|j: int| 0 <= j < gs.len() && j != i ==> !picks(#[trigger] gs[j], labels),
    ensures
        plan::claimants(gs, labels) == seq![gs[i].name],
    decreases gs.len(),
{
    let before = gs.drop_last();
    let n = gs.len() - 1;
    assert(gs[n] == gs.last());
    lemma_picks(gs.last(), labels);
    assert forall|j: int| 0 <= j < before.len() && j != i implies !picks(
        #[trigger] before[j],
        labels,
    ) by {
        assert(before[j] == gs[j]);
    }
    if i < n {
        assert(before[i] == gs[i]);
        lemma_one_claimant(before, labels, i);
    } else {
        lemma_no_claimant(before, labels);
        assert(plan::claimants(gs, labels) =~= seq![gs[i].name]);
    }
}

proof fn lemma_some_claimant(gs: Seq<GatewayModel>, labels: Map<Seq<char>, Seq<char>>, i: int)
    requires
        0 <= i < gs.len(),
        picks(gs[i], labels),
    ensures
        plan::claimants(gs, labels).len() >= 1,
    decreases gs.len(),
{
    lemma_picks(gs.last(), labels);
    if i < gs.len() - 1 {
        assert(gs.drop_last()[i] == gs[i]);
        lemma_some_claimant(gs.drop_last(), labels, i);
    }
}

proof fn lemma_two_claimants(
    gs: Seq<GatewayModel>,
    labels: Map<Seq<char>, Seq<char>>,
    i: int,
    j: int,
)
    requires
        0 <= i < j < gs.len(),
        picks(gs[i], labels),
        picks(gs[j], labels),
    ensures
        plan::claimants(gs, labels).len() >= 2,
    decreases gs.len(),
{
    let before = gs.drop_last();
    lemma_picks(gs.last(), labels);
    assert(before[i] == gs[i]);
    if j < gs.len() - 1 {
        assert(before[j] == gs[j]);
        lemma_two_claimants(before, labels, i, j);
    } else {
        lemma_some_claimant(before, labels, i);
    }
}

/// A container that does not say that it is to be routed goes through the one
/// gateway that picks it; where none does, it is left alone.
pub proof fn selected_by_one_or_none(
    prefix: Seq<char>,
    gs: Seq<GatewayModel>,
    labels: Map<Seq<char>, Seq<char>>,
    i: int,
)
    requires
        !says_gateway(prefix, labels),
        !says_enable(prefix, labels),
    ensures
        0 <= i < gs.len() && picks(gs[i], labels) && (forall|j: int|
            0 <= j < gs.len() && j != i ==> !picks(#[trigger] gs[j], labels)) ==> plan::role_of(
            prefix,
            gs,
            labels,
        ) == RoleModel::Member(gs[i].name),
        (forall|j: int| 0 <= j < gs.len() ==> !picks(#[trigger] gs[j], labels)) ==> plan::role_of(
            prefix,
            gs,
            labels,
        ) == RoleModel::Unmanaged,
{
    if 0 <= i < gs.len() && picks(gs[i], labels) && (forall|j: int|
        0 <= j < gs.len() && j != i ==> !picks(#[trigger] gs[j], labels)) {
        lemma_one_claimant(gs, labels, i);
    }
    if forall|j: int| 0 <= j < gs.len() ==> !picks(#[trigger] gs[j], labels) {
        lemma_no_claimant(gs, labels);
    }
}

/// A container that two gateways pick goes through the one that its `via` label
/// names, if that one picks it; otherwise it is a conflict, of exactly the
/// gateways that pick it.
pub proof fn selected_by_several(
    prefix: Seq<char>,
    gs: Seq<GatewayModel>,
    labels: Map<Seq<char>, Seq<char>>,
    i: int,
    j: int,
    name: Seq<char>,
)
    requires
        !says_gateway(prefix, labels),
        !says_enable(prefix, labels),
        0 <= i < j < gs.len(),
        picks(gs[i], labels),
        picks(gs[j], labels),
    ensures
        ({
            let key = prefix + ".via"@;
            let role = plan::role_of(prefix, gs, labels);
            let picked = exists|k: int|
                0 <= k < gs.len() && (#[trigger] gs[k]).name == name && picks(gs[k], labels);
            &&& labels.dom().contains(key) && labels[key] == name && picked ==> role
                == RoleModel::Member(name)
            &&& labels.dom().contains(key) && labels[key] == name && !picked ==> role is Conflict
            &&& !labels.dom().contains(key) ==> role is Conflict
            &&& role is Conflict ==> (role->Conflict_0.contains(name) <==> picked)
        }),
{
    lemma_two_claimants(gs, labels, i, j);
    plan::laws::claimants_match(gs, labels, name);
    if exists|k: int|
        0 <= k < gs.len() && (#[trigger] gs[k]).name == name && picks(gs[k], labels) {
        let k = choose|k: int|
            0 <= k < gs.len() && (#[trigger] gs[k]).name == name && picks(gs[k], labels);
        lemma_picks(gs[k], labels);
        assert(gs[k].name == name && plan::claims(gs[k], labels));
    }
    if exists|k: int|
        0 <= k < gs.len() && (#[trigger] gs[k]).name == name && plan::claims(gs[k], labels) {
        let k = choose|k: int|
            0 <= k < gs.len() && (#[trigger] gs[k]).name == name && plan::claims(gs[k], labels);
        lemma_picks(gs[k], labels);
        assert(gs[k].name == name && picks(gs[k], labels));
    }
}

// ---------------------------------------------------------------------------
// The gateways there are

/// Whether some gateway has this name.
pub open spec fn known(gs: Seq<GatewayModel>, name: Seq<char>) -> bool {
    exists|i: int| 0 <= i < gs.len() && (#[trigger] gs[i]).name == name
}

/// One more declaration adds its gateway at the end, where it is well-formed and
/// its name is not taken; otherwise it adds nothing.
pub proof fn one_more_declaration(
    config: Seq<GatewayModel>,
    decls: Seq<DeclarationModel>,
    d: DeclarationModel,
)
    ensures
        plan::merged(config, Seq::empty()) == config,
        ({
            let before = plan::merged(config, decls);
            let after = plan::merged(config, decls.push(d));
            &&& !known(before, d.name) && d.outcome is Ok ==> after == before.push(
                d.outcome->Ok_0,
            )
            &&& known(before, d.name) ==> after == before
            &&& d.outcome is Err ==> after == before
        }),
        ({
            let before = plan::dropped(config, decls);
            let after = plan::dropped(config, decls.push(d));
            &&& !known(plan::merged(config, decls), d.name) && d.outcome is Err ==> after
                == before.push((d.container, d.outcome->Err_0))
            &&& known(plan::merged(config, decls), d.name) ==> after == before
            &&& d.outcome is Ok ==> after == before
        }),
        plan::dropped(config, Seq::empty()) == Seq::<(Seq<char>, ConfigFault)>::empty(),
{
    assert(decls.push(d).drop_last() =~= decls);
    let gs = plan::merged(config, decls);
    assert(known(gs, d.name) == v1alpha1::has_name(gs, d.name));
}

/// Every well-formed declaration counts: its name is among the gateways, and the
/// gateway itself is, unless a configured or an earlier declared one has the
/// name.
pub proof fn every_declaration_counts(
    config: Seq<GatewayModel>,
    decls: Seq<DeclarationModel>,
    k: int,
)
    requires
        0 <= k < decls.len(),
        decls[k].outcome is Ok,
        (decls[k].outcome->Ok_0).name == decls[k].name,
    ensures
        known(plan::merged(config, decls), decls[k].name),
        !known(config, decls[k].name) && (forall|j: int|
            0 <= j < k && (#[trigger] decls[j]).outcome is Ok ==> (decls[j].outcome->Ok_0).name
                != decls[k].name) ==> plan::merged(config, decls).contains(decls[k].outcome->Ok_0),
    decreases decls.len(),
{
    let fewer = decls.drop_last();
    let before = plan::merged(config, fewer);
    let all = plan::merged(config, decls);
    let g = decls[k].outcome->Ok_0;
    let n = decls.len() - 1;
    assert(decls[n] == decls.last());
    if k < n {
        assert(fewer[k] == decls[k]);
        every_declaration_counts(config, fewer, k);
        let i = choose|i: int| 0 <= i < before.len() && (#[trigger] before[i]).name == g.name;
        assert(all[i] == before[i]);
        if !known(config, g.name) && (forall|j: int|
            0 <= j < k && (#[trigger] decls[j]).outcome is Ok ==> (decls[j].outcome->Ok_0).name
                != g.name) {
            assert forall|j: int| 0 <= j < k && (#[trigger] fewer[j]).outcome is Ok implies (
            fewer[j].outcome->Ok_0).name != g.name by {
                assert(fewer[j] == decls[j]);
            }
            let m = choose|m: int| 0 <= m < before.len() && before[m] == g;
            assert(all[m] == g);
        }
    } else {
        if v1alpha1::has_name(before, g.name) {
            let i = choose|i: int| 0 <= i < before.len() && (#[trigger] before[i]).name == g.name;
            assert(all[i].name == g.name);
            if !known(config, g.name) && (forall|j: int|
                0 <= j < k && (#[trigger] decls[j]).outcome is Ok ==> (
                decls[j].outcome->Ok_0).name != g.name) {
                lemma_whence(config, fewer, i);
                if i < config.len() {
                    assert(config[i].name == g.name);
                } else {
                    let j = choose|j: int|
                        0 <= j < fewer.len() && (#[trigger] fewer[j]).outcome is Ok
                            && fewer[j].outcome->Ok_0 == before[i];
                    assert(fewer[j] == decls[j]);
                }
            }
        } else {
            assert(all[all.len() - 1] == g);
            assert(all[all.len() - 1].name == g.name);
        }
    }
}

proof fn lemma_whence(config: Seq<GatewayModel>, decls: Seq<DeclarationModel>, i: int)
    requires
        0 <= i < plan::merged(config, decls).len(),
    ensures
        i < config.len() ==> plan::merged(config, decls)[i] == config[i],
        i >= config.len() ==> exists|j: int|
            0 <= j < decls.len() && (#[trigger] decls[j]).outcome is Ok && decls[j].outcome->Ok_0
                == plan::merged(config, decls)[i],
    decreases decls.len(),
{
    if decls.len() > 0 {
        let fewer = decls.drop_last();
        let before = plan::merged(config, fewer);
        let n = decls.len() - 1;
        assert(decls[n] == decls.last());
        if i < before.len() {
            lemma_whence(config, fewer, i);
            if i >= config.len() {
                let j = choose|j: int|
                    0 <= j < fewer.len() && (#[trigger] fewer[j]).outcome is Ok
                        && fewer[j].outcome->Ok_0 == before[i];
                assert(decls[j] == fewer[j]);
            }
        } else {
            plan::laws::configured_gateways_win(config, fewer);
            assert(decls[n].outcome is Ok);
        }
    }
}

/// There is no gateway that was neither configured nor declared: the configured
/// ones come first, as they are, and every other is that of a declaration.
pub proof fn no_gateway_out_of_nowhere(
    config: Seq<GatewayModel>,
    decls: Seq<DeclarationModel>,
    i: int,
)
    requires
        0 <= i < plan::merged(config, decls).len(),
    ensures
        i < config.len() ==> plan::merged(config, decls)[i] == config[i],
        i >= config.len() ==> exists|j: int|
            0 <= j < decls.len() && (#[trigger] decls[j]).outcome == Ok::<
                GatewayModel,
                ConfigFault,
            >(plan::merged(config, decls)[i]),
        plan::merged(config, decls).len() >= config.len(),
{
    lemma_whence(config, decls, i);
    plan::laws::configured_gateways_win(config, decls);
    if i >= config.len() {
        let j = choose|j: int|
            0 <= j < decls.len() && (#[trigger] decls[j]).outcome is Ok && decls[j].outcome->Ok_0
                == plan::merged(config, decls)[i];
        assert(decls[j].outcome == Ok::<GatewayModel, ConfigFault>(
            plan::merged(config, decls)[i],
        ));
    }
}

/// One more container declares a gateway where it says so, under the name that
/// it gives; its egress is the container, by its Compose service where it has
/// one.
pub proof fn one_more_container(prefix: Seq<char>, targets: Seq<TargetModel>, t: TargetModel)
    ensures
        plan::declared(prefix, Seq::empty()) == Seq::<DeclarationModel>::empty(),
        !says_gateway(prefix, t.labels) ==> plan::declared(prefix, targets.push(t))
            == plan::declared(prefix, targets),
        says_gateway(prefix, t.labels) ==> {
            let before = plan::declared(prefix, targets);
            let after = plan::declared(prefix, targets.push(t));
            let name = text::trim_of(t.labels[prefix + ".gateway"@]);
            let service = "com.docker.compose.service"@;
            &&& after.len() == before.len() + 1
            &&& after.drop_last() == before
            &&& after.last().container == t.name
            &&& after.last().name == name
            &&& t.labels.dom().contains(service) ==> after.last().outcome
                == v1alpha1::discovered_of(prefix, name, t.labels[service], t.labels)
            &&& !t.labels.dom().contains(service) ==> after.last().outcome
                == v1alpha1::discovered_of(prefix, name, t.name, t.labels)
        },
{
    assert(targets.push(t).drop_last() =~= targets);
    if says_gateway(prefix, t.labels) {
        assert(plan::declared(prefix, targets.push(t)).drop_last() =~= plan::declared(
            prefix,
            targets,
        ));
    }
}

proof fn lemma_declaration_of(prefix: Seq<char>, targets: Seq<TargetModel>, i: int)
    requires
        0 <= i < targets.len(),
        says_gateway(prefix, targets[i].labels),
    ensures
        exists|k: int|
            0 <= k < plan::declared(prefix, targets).len() && (#[trigger] plan::declared(
                prefix,
                targets,
            )[k]) == (DeclarationModel {
                container: targets[i].name,
                name: text::trim_of(targets[i].labels[prefix + ".gateway"@]),
                outcome: v1alpha1::discovered_of(
                    prefix,
                    text::trim_of(targets[i].labels[prefix + ".gateway"@]),
                    plan::egress_name(targets[i]),
                    targets[i].labels,
                ),
            }),
    decreases targets.len(),
{
    let fewer = targets.drop_last();
    let before = plan::declared(prefix, fewer);
    let all = plan::declared(prefix, targets);
    let d = DeclarationModel {
        container: targets[i].name,
        name: text::trim_of(targets[i].labels[prefix + ".gateway"@]),
        outcome: v1alpha1::discovered_of(
            prefix,
            text::trim_of(targets[i].labels[prefix + ".gateway"@]),
            plan::egress_name(targets[i]),
            targets[i].labels,
        ),
    };
    if i < targets.len() - 1 {
        assert(fewer[i] == targets[i]);
        lemma_declaration_of(prefix, fewer, i);
        let k = choose|k: int| 0 <= k < before.len() && (#[trigger] before[k]) == d;
        assert(all[k] == d);
    } else {
        assert(all[all.len() - 1] == d);
    }
}

/// A container that declares a well-formed gateway is found in the plan: some
/// gateway of the plan has the name that it gives. One that declares a malformed
/// one, under a name that the plan does not have, is among what was dropped.
pub proof fn declared_gateways_are_planned(
    targets: Seq<TargetModel>,
    prefix: Seq<char>,
    config: Seq<GatewayModel>,
    i: int,
)
    requires
        0 <= i < targets.len(),
        says_gateway(prefix, targets[i].labels),
    ensures
        ({
            let name = text::trim_of(targets[i].labels[prefix + ".gateway"@]);
            let outcome = v1alpha1::discovered_of(
                prefix,
                name,
                plan::egress_name(targets[i]),
                targets[i].labels,
            );
            let p = plan::plan_of(targets, prefix, config);
            let named = exists|k: int|
                0 <= k < p.gateways.len() && (#[trigger] p.gateways[k]).gateway.name == name;
            &&& outcome is Ok ==> named
            &&& outcome is Err && !named ==> plan::dropped(
                config,
                plan::declared(prefix, targets),
            ).contains((targets[i].name, outcome->Err_0))
        }),
{
    let decls = plan::declared(prefix, targets);
    let gs = plan::merged(config, decls);
    let p = plan::plan_of(targets, prefix, config);
    let name = text::trim_of(targets[i].labels[prefix + ".gateway"@]);
    let outcome = v1alpha1::discovered_of(
        prefix,
        name,
        plan::egress_name(targets[i]),
        targets[i].labels,
    );
    lemma_declaration_of(prefix, targets, i);
    let d = DeclarationModel { container: targets[i].name, name, outcome };
    let k = choose|k: int| 0 <= k < decls.len() && (#[trigger] decls[k]) == d;
    v1alpha1::laws::declared_gateway_is_valid(
        prefix,
        name,
        plan::egress_name(targets[i]),
        targets[i].labels,
    );
    if outcome is Ok {
        every_declaration_counts(config, decls, k);
        let m = choose|m: int| 0 <= m < gs.len() && (#[trigger] gs[m]).name == name;
        assert(p.gateways[m].gateway == gs[m]);
    } else {
        if v1alpha1::has_name(gs, name) {
            let m = choose|m: int| 0 <= m < gs.len() && (#[trigger] gs[m]).name == name;
            assert(p.gateways[m].gateway == gs[m]);
        } else {
            plan::laws::dropped_gateways_are_surfaced(config, decls, k);
        }
    }
}

// ---------------------------------------------------------------------------
// Where traffic leaves

/// A gateway with an interface leaves by it; one with a next hop by the address
/// that it gives; one with neither nor a container is unavailable, and so is one
/// whose next hop is no address.
pub proof fn egress_of_interface_and_next_hop(g: GatewayModel, targets: Seq<TargetModel>)
    ensures
        g.egress.interface is Some ==> plan::egress_of(g, targets) == EgressModel::Interface(
            g.egress.interface->0,
        ),
        g.egress.interface is None && g.egress.next_hop is Some ==> match net::ip_named(
            g.egress.next_hop->0,
        ) {
            Some(ip) => plan::egress_of(g, targets) == EgressModel::NextHop(ip),
            None => plan::egress_of(g, targets) == EgressModel::Unavailable(
                "nextHop "@ + text::debug_text(g.egress.next_hop->0) + " is not an IP"@,
            ),
        },
        g.egress.interface is None && g.egress.next_hop is None && g.egress.container is None
            ==> plan::egress_of(g, targets) is Unavailable,
{
}

/// Whether a container goes by this name: its own, or that of its Compose
/// service.
pub open spec fn goes_by(t: TargetModel, sel: Seq<char>) -> bool {
    let service = "com.docker.compose.service"@;
    t.name == sel || (t.labels.dom().contains(service) && t.labels[service] == sel)
}

/// A gateway with a container leaves by the first IPv4 address of the first
/// container that goes by that name; it is unavailable where there is no such
/// container, or where that one has no IPv4 address.
pub proof fn egress_of_container(
    g: GatewayModel,
    targets: Seq<TargetModel>,
    sel: Seq<char>,
    i: int,
    k: int,
)
    requires
        g.egress.interface is None,
        g.egress.next_hop is None,
        g.egress.container == Some(sel),
    ensures
        (forall|j: int| 0 <= j < targets.len() ==> !goes_by(#[trigger] targets[j], sel))
            ==> plan::egress_of(g, targets) == EgressModel::Unavailable(
            "gateway container "@ + text::debug_text(sel) + " not running"@,
        ),
        0 <= i < targets.len() && goes_by(targets[i], sel) && (forall|j: int|
            0 <= j < i ==> !goes_by(#[trigger] targets[j], sel)) ==> {
            let ips = docker::addresses_of(targets[i]);
            &&& 0 <= k < ips.len() && ips[k] is V4 && (forall|j: int|
                0 <= j < k ==> (#[trigger] ips[j]) is V6) ==> plan::egress_of(g, targets)
                == EgressModel::NextHop(ips[k])
            &&& (forall|j: int| 0 <= j < ips.len() ==> (#[trigger] ips[j]) is V6)
                ==> plan::egress_of(g, targets) is Unavailable
        },
{
    let p = plan::is_called(sel);
    assert forall|j: int| 0 <= j < targets.len() implies p(#[trigger] targets[j]) == goes_by(
        targets[j],
        sel,
    ) by {}
    if forall|j: int| 0 <= j < targets.len() ==> !goes_by(#[trigger] targets[j], sel) {
        seqs::lemma_first_none(targets, p);
    }
    if 0 <= i < targets.len() && goes_by(targets[i], sel) && (forall|j: int|
        0 <= j < i ==> !goes_by(#[trigger] targets[j], sel)) {
        assert forall|j: int| 0 <= j < i implies !p(#[trigger] targets[j]) by {}
        seqs::lemma_first_is(targets, p, i);
        let ips = docker::addresses_of(targets[i]);
        let v4 = plan::is_v4();
        if 0 <= k < ips.len() && ips[k] is V4 && (forall|j: int|
            0 <= j < k ==> (#[trigger] ips[j]) is V6) {
            assert forall|j: int| 0 <= j < k implies !v4(#[trigger] ips[j]) by {}
            seqs::lemma_first_is(ips, v4, k);
        }
        if forall|j: int| 0 <= j < ips.len() ==> (#[trigger] ips[j]) is V6 {
            assert forall|j: int| 0 <= j < ips.len() implies !v4(#[trigger] ips[j]) by {}
            seqs::lemma_first_none(ips, v4);
        }
    }
}

// ---------------------------------------------------------------------------
// The plan

/// The gateways of a plan are those there are, in their order, each with its
/// egress now.
pub proof fn gateways_of_the_plan(
    targets: Seq<TargetModel>,
    prefix: Seq<char>,
    config: Seq<GatewayModel>,
    k: int,
)
    ensures
        ({
            let gs = plan::merged(config, plan::declared(prefix, targets));
            let p = plan::plan_of(targets, prefix, config);
            &&& p.gateways.len() == gs.len()
            &&& 0 <= k < gs.len() ==> p.gateways[k].gateway == gs[k] && p.gateways[k].egress
                == plan::egress_of(gs[k], targets)
        }),
{
}

/// What is routed through a gateway are the addresses of its members, all of
/// them and no others, and it lists their names. The first gateway of a name has
/// the members of that name.
pub proof fn members_of_the_plan(
    targets: Seq<TargetModel>,
    prefix: Seq<char>,
    config: Seq<GatewayModel>,
    k: int,
    ip: IpAddr,
    container: Seq<char>,
)
    requires
        0 <= k < plan::merged(config, plan::declared(prefix, targets)).len(),
    ensures
        ({
            let gs = plan::merged(config, plan::declared(prefix, targets));
            let gp = plan::plan_of(targets, prefix, config).gateways[k];
            let first = forall|j: int| 0 <= j < k ==> (#[trigger] gs[j]).name != gs[k].name;
            &&& first ==> (gp.members.contains(ip) <==> exists|i: int|
                0 <= i < targets.len() && plan::role_of(
                    prefix,
                    gs,
                    (#[trigger] targets[i]).labels,
                ) == RoleModel::Member(gs[k].name) && docker::addresses_of(targets[i]).contains(ip))
            &&& first ==> (gp.member_names.contains(container) <==> exists|i: int|
                0 <= i < targets.len() && plan::role_of(
                    prefix,
                    gs,
                    (#[trigger] targets[i]).labels,
                ) == RoleModel::Member(gs[k].name) && targets[i].name == container)
            &&& !first ==> !gp.members.contains(ip) && !gp.member_names.contains(container)
        }),
{
    let gs = plan::merged(config, plan::declared(prefix, targets));
    let roles = plan::roles_of(prefix, gs, targets);
    let gp = plan::plan_of(targets, prefix, config).gateways[k];
    let want = RoleModel::Member(gs[k].name);
    if forall|j: int| 0 <= j < k ==> (#[trigger] gs[j]).name != gs[k].name {
        assert(!v1alpha1::has_name(gs.take(k), gs[k].name));
        if gp.members.contains(ip) {
            let i = choose|i: int|
                0 <= i < targets.len() && #[trigger] roles[i] == want && docker::addresses_of(
                    targets[i],
                ).contains(ip);
            assert(plan::role_of(prefix, gs, targets[i].labels) == want);
        }
        if exists|i: int|
            0 <= i < targets.len() && plan::role_of(prefix, gs, (#[trigger] targets[i]).labels)
                == want && docker::addresses_of(targets[i]).contains(ip) {
            let i = choose|i: int|
                0 <= i < targets.len() && plan::role_of(prefix, gs, (#[trigger] targets[i]).labels)
                    == want && docker::addresses_of(targets[i]).contains(ip);
            assert(roles[i] == want);
        }
        if gp.member_names.contains(container) {
            let i = choose|i: int|
                0 <= i < targets.len() && #[trigger] roles[i] == want && targets[i].name
                    == container;
            assert(plan::role_of(prefix, gs, targets[i].labels) == want);
        }
        if exists|i: int|
            0 <= i < targets.len() && plan::role_of(prefix, gs, (#[trigger] targets[i]).labels)
                == want && targets[i].name == container {
            let i = choose|i: int|
                0 <= i < targets.len() && plan::role_of(prefix, gs, (#[trigger] targets[i]).labels)
                    == want && targets[i].name == container;
            assert(roles[i] == want);
        }
    } else {
        let j = choose|j: int| 0 <= j < k && (#[trigger] gs[j]).name == gs[k].name;
        assert(gs.take(k)[j].name == gs[k].name);
    }
}

/// What a plan says is unresolved or a conflict is so, one entry for each such
/// container, in their order.
pub proof fn one_more_role(
    targets: Seq<TargetModel>,
    roles: Seq<RoleModel>,
    t: TargetModel,
    role: RoleModel,
)
    requires
        targets.len() == roles.len(),
    ensures
        ({
            let us = plan::unresolved_of(targets, roles);
            let more = plan::unresolved_of(targets.push(t), roles.push(role));
            &&& role is Unresolved ==> more == us.push((t.name, role->Unresolved_0))
            &&& !(role is Unresolved) ==> more == us
        }),
        ({
            let cs = plan::conflicts_of(targets, roles);
            let more = plan::conflicts_of(targets.push(t), roles.push(role));
            &&& role is Conflict ==> more == cs.push((t.name, role->Conflict_0))
            &&& !(role is Conflict) ==> more == cs
        }),
        plan::unresolved_of(Seq::empty(), Seq::empty()) == Seq::<(Seq<char>, Seq<char>)>::empty(),
        plan::conflicts_of(Seq::empty(), Seq::empty()) == Seq::<
            (Seq<char>, Seq<Seq<char>>),
        >::empty(),
{
    assert(targets.push(t).drop_last() =~= targets);
    assert(roles.push(role).drop_last() =~= roles);
}

/// A plan lists what is unresolved and what is a conflict by what each container
/// is, and says of each gateway that was dropped whose container declared it and
/// what is wrong with it.
pub proof fn what_a_plan_says(
    targets: Seq<TargetModel>,
    prefix: Seq<char>,
    config: Seq<GatewayModel>,
    k: int,
)
    ensures
        ({
            let decls = plan::declared(prefix, targets);
            let gs = plan::merged(config, decls);
            let roles = Seq::new(
                targets.len(),
                |i: int| plan::role_of(prefix, gs, targets[i].labels),
            );
            let lost = plan::dropped(config, decls);
            let p = plan::plan_of(targets, prefix, config);
            &&& p.unresolved == plan::unresolved_of(targets, roles)
            &&& p.conflicts == plan::conflicts_of(targets, roles)
            &&& p.discovery_errors.len() == lost.len()
            &&& 0 <= k < lost.len() ==> p.discovery_errors[k] == "gateway container "@
                + text::debug_text(lost[k].0) + ": "@ + v1alpha1::error::fault_text(lost[k].1)
        }),
{
    let gs = plan::merged(config, plan::declared(prefix, targets));
    assert(plan::roles_of(prefix, gs, targets) =~= Seq::new(
        targets.len(),
        |i: int| plan::role_of(prefix, gs, targets[i].labels),
    ));
}

} // verus!
