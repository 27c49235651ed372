//! What holds of every plan.

use vstd::prelude::*;

use crate::api::v1alpha1;
use crate::api::v1alpha1::GatewayModel;
use crate::docker;
use crate::docker::TargetModel;
use crate::net::IpAddr;
use crate::plan;
use crate::plan::{DeclarationModel, EgressModel, RoleModel};
use crate::seqs;

verus! {

// ---------------------------------------------------------------------------
// The gateways there are

/// The configured gateways come first, unchanged: a declared gateway never
/// replaces one.
pub proof fn configured_gateways_win(config: Seq<GatewayModel>, decls: Seq<DeclarationModel>)
    ensures
        plan::merged(config, decls).len() >= config.len(),
        plan::merged(config, decls).take(config.len() as int) == config,
    decreases decls.len(),
{
    if decls.len() > 0 {
        configured_gateways_win(config, decls.drop_last());
        let before = plan::merged(config, decls.drop_last());
        let all = plan::merged(config, decls);
        assert(all.take(config.len() as int) =~= before.take(config.len() as int));
    } else {
        assert(config.take(config.len() as int) =~= config);
    }
}

/// No gateway is added under a name that is taken, so names stay distinct.
pub proof fn names_stay_distinct(config: Seq<GatewayModel>, decls: Seq<DeclarationModel>)
    requires
        v1alpha1::laws::names_distinct(config),
        forall|i: int|
            0 <= i < decls.len() ==> match (#[trigger] decls[i]).outcome {
                Ok(g) => g.name == decls[i].name,
                Err(_) => true,
            },
    ensures
        v1alpha1::laws::names_distinct(plan::merged(config, decls)),
    decreases decls.len(),
{
    if decls.len() > 0 {
        let fewer = decls.drop_last();
        assert forall|i: int| 0 <= i < fewer.len() implies match (#[trigger] fewer[i]).outcome {
            Ok(g) => g.name == fewer[i].name,
            Err(_) => true,
        } by {
            assert(fewer[i] == decls[i]);
        }
        names_stay_distinct(config, fewer);
        let before = plan::merged(config, fewer);
        let all = plan::merged(config, decls);
        let d = decls[decls.len() - 1];
        assert(d == decls.last());
        assert forall|i: int, j: int| 0 <= i < j < all.len() implies (#[trigger] all[i]).name != (
        #[trigger] all[j]).name by {
            assert(all[i] == before[i]);
            if j < before.len() {
                assert(all[j] == before[j]);
            } else {
                assert(all[j].name == d.name);
                assert(before[i].name != d.name);
            }
        }
    }
}

/// What containers declare is a valid gateway of the declared name, or an error.
pub proof fn declarations_are_valid(prefix: Seq<char>, targets: Seq<TargetModel>)
    ensures
        forall|i: int|
            0 <= i < plan::declared(prefix, targets).len() ==> match (#[trigger] plan::declared(
                prefix,
                targets,
            )[i]).outcome {
                Ok(g) => v1alpha1::gateway_fault(g) is None && g.name == plan::declared(
                    prefix,
                    targets,
                )[i].name,
                Err(_) => true,
            },
    decreases targets.len(),
{
    if targets.len() > 0 {
        declarations_are_valid(prefix, targets.drop_last());
        let t = targets.last();
        let before = plan::declared(prefix, targets.drop_last());
        let all = plan::declared(prefix, targets);
        assert forall|i: int| 0 <= i < all.len() implies match (#[trigger] all[i]).outcome {
            Ok(g) => v1alpha1::gateway_fault(g) is None && g.name == all[i].name,
            Err(_) => true,
        } by {
            if i < before.len() {
                assert(all[i] == before[i]);
            } else {
                v1alpha1::laws::declared_gateway_is_valid(
                    prefix,
                    all[i].name,
                    plan::egress_name(t),
                    t.labels,
                );
            }
        }
    }
}

/// Where the configured gateways are valid, so is every gateway of a plan. A
/// malformed declaration adds none.
pub proof fn every_gateway_is_valid(
    config: Seq<GatewayModel>,
    prefix: Seq<char>,
    targets: Seq<TargetModel>,
)
    requires
        v1alpha1::gateways_fault(config) is None,
    ensures
        ({
            let gs = plan::merged(config, plan::declared(prefix, targets));
            &&& forall|i: int|
                0 <= i < gs.len() ==> v1alpha1::gateway_fault(#[trigger] gs[i]) is None
            &&& v1alpha1::laws::names_distinct(gs)
        }),
{
    let decls = plan::declared(prefix, targets);
    v1alpha1::laws::valid_set(config);
    declarations_are_valid(prefix, targets);
    names_stay_distinct(config, decls);
    lemma_merged_valid(config, decls);
}

proof fn lemma_merged_valid(config: Seq<GatewayModel>, decls: Seq<DeclarationModel>)
    requires
        forall|i: int|
            0 <= i < config.len() ==> v1alpha1::gateway_fault(#[trigger] config[i]) is None,
        forall|i: int|
            0 <= i < decls.len() ==> match (#[trigger] decls[i]).outcome {
                Ok(g) => v1alpha1::gateway_fault(g) is None,
                Err(_) => true,
            },
    ensures
        forall|i: int|
            0 <= i < plan::merged(config, decls).len() ==> v1alpha1::gateway_fault(
                #[trigger] plan::merged(config, decls)[i],
            ) is None,
    decreases decls.len(),
{
    if decls.len() > 0 {
        let fewer = decls.drop_last();
        assert forall|i: int| 0 <= i < fewer.len() implies match (#[trigger] fewer[i]).outcome {
            Ok(g) => v1alpha1::gateway_fault(g) is None,
            Err(_) => true,
        } by {
            assert(fewer[i] == decls[i]);
        }
        lemma_merged_valid(config, fewer);
        let before = plan::merged(config, fewer);
        let all = plan::merged(config, decls);
        let d = decls[decls.len() - 1];
        assert(d == decls.last());
        assert forall|i: int| 0 <= i < all.len() implies v1alpha1::gateway_fault(
            #[trigger] all[i],
        ) is None by {
            if i < before.len() {
                assert(all[i] == before[i]);
            }
        }
    }
}

/// A malformed gateway under a name that is not taken is never dropped in
/// silence: each such declaration is among those that were dropped, with what
/// is wrong with it.
pub proof fn dropped_gateways_are_surfaced(
    config: Seq<GatewayModel>,
    decls: Seq<DeclarationModel>,
    i: int,
)
    requires
        0 <= i < decls.len(),
        decls[i].outcome is Err,
        !v1alpha1::has_name(plan::merged(config, decls), decls[i].name),
    ensures
        plan::dropped(config, decls).contains((decls[i].container, decls[i].outcome->Err_0)),
    decreases decls.len(),
{
    let fewer = decls.drop_last();
    let before = plan::merged(config, fewer);
    let all = plan::merged(config, decls);
    let d = decls.last();
    assert(!v1alpha1::has_name(before, decls[i].name)) by {
        if v1alpha1::has_name(before, decls[i].name) {
            let k = choose|k: int|
                0 <= k < before.len() && (#[trigger] before[k]).name == decls[i].name;
            assert(all[k].name == decls[i].name);
        }
    }
    let lost = plan::dropped(config, decls);
    if i == decls.len() - 1 {
        assert(lost.last() == (d.container, d.outcome->Err_0));
        assert(lost[lost.len() - 1] == lost.last());
    } else {
        assert(fewer[i] == decls[i]);
        dropped_gateways_are_surfaced(config, fewer, i);
        let earlier = plan::dropped(config, fewer);
        let x = (decls[i].container, decls[i].outcome->Err_0);
        let k = choose|k: int| 0 <= k < earlier.len() && earlier[k] == x;
        assert(lost[k] == x);
    }
}

// ---------------------------------------------------------------------------
// What a container is

/// A container that declares itself a gateway is never a member, whatever else
/// its labels say.
pub proof fn gateway_is_never_a_member(
    prefix: Seq<char>,
    gs: Seq<GatewayModel>,
    labels: Map<Seq<char>, Seq<char>>,
)
    requires
        v1alpha1::gateway_name_of(prefix, labels) is Some,
    ensures
        plan::role_of(prefix, gs, labels) == RoleModel::Gateway,
{
}

/// An explicit opt-in wins over selectors: where a container opts in, what it is
/// does not depend on any gateway's selectors.
pub proof fn opt_in_wins_over_selectors(
    prefix: Seq<char>,
    gs: Seq<GatewayModel>,
    others: Seq<GatewayModel>,
    labels: Map<Seq<char>, Seq<char>>,
)
    requires
        v1alpha1::opt_in_of(prefix, labels) is Some,
        gs.len() == others.len(),
        forall|i: int|
            0 <= i < gs.len() ==> (#[trigger] gs[i]).name == others[i].name && gs[i].default
                == others[i].default,
    ensures
        plan::role_of(prefix, gs, labels) == plan::role_of(prefix, others, labels),
{
    let wanted = v1alpha1::opt_in_of(prefix, labels)->0;
    match wanted {
        Some(name) => {
            lemma_same_first(gs, others, v1alpha1::named(name));
        },
        None => {
            lemma_same_first(gs, others, v1alpha1::is_default());
        },
    }
    match v1alpha1::resolved(gs, wanted) {
        Some(i) => {
            match wanted {
                Some(name) => {
                    v1alpha1::laws::name_resolves(gs, name);
                },
                None => {
                    v1alpha1::laws::default_resolves(gs);
                },
            }
            assert(gs[i].name == others[i].name);
        },
        None => {},
    }
}

proof fn lemma_same_first(
    a: Seq<GatewayModel>,
    b: Seq<GatewayModel>,
    p: spec_fn(GatewayModel) -> bool,
)
    requires
        a.len() == b.len(),
        forall|i: int| 0 <= i < a.len() ==> p(#[trigger] a[i]) == p(b[i]),
    ensures
        seqs::first_where(a, p) == seqs::first_where(b, p),
    decreases a.len(),
{
    if a.len() > 0 {
        assert forall|i: int| 0 <= i < a.len() - 1 implies p(#[trigger] a.drop_last()[i]) == p(
            b.drop_last()[i],
        ) by {
            assert(a.drop_last()[i] == a[i]);
        }
        lemma_same_first(a.drop_last(), b.drop_last(), p);
        assert(p(a[a.len() - 1]) == p(b[b.len() - 1]));
    }
}

/// A container that does not opt in is routed only where exactly one gateway
/// claims it, or where several do and it names one of them; where several do and
/// it names none of them, it is a conflict, and where none does, it is left
/// alone. It is routed only through a gateway that claims it. The egress of a
/// container is never guessed.
pub proof fn selectors_never_guess(
    prefix: Seq<char>,
    gs: Seq<GatewayModel>,
    labels: Map<Seq<char>, Seq<char>>,
)
    requires
        v1alpha1::gateway_name_of(prefix, labels) is None,
        v1alpha1::opt_in_of(prefix, labels) is None,
    ensures
        ({
            let names = plan::claimants(gs, labels);
            let role = plan::role_of(prefix, gs, labels);
            let named = plan::chosen(prefix, names, labels);
            &&& role is Member <==> names.len() == 1 || (names.len() > 1 && named is Some)
            &&& role is Member ==> names.contains(role->Member_0)
            &&& role is Conflict <==> names.len() > 1 && named is None
            &&& role is Unmanaged <==> names.len() == 0
        }),
{
}

/// Where several gateways claim a container, naming one of them with
/// `<prefix>.via` settles which one gets it.
pub proof fn via_settles_a_conflict(
    prefix: Seq<char>,
    gs: Seq<GatewayModel>,
    labels: Map<Seq<char>, Seq<char>>,
    name: Seq<char>,
)
    requires
        v1alpha1::gateway_name_of(prefix, labels) is None,
        v1alpha1::opt_in_of(prefix, labels) is None,
        plan::claimants(gs, labels).len() > 1,
        plan::claimants(gs, labels).contains(name),
        v1alpha1::label_of(labels, prefix + ".via"@) == Some(name),
    ensures
        plan::role_of(prefix, gs, labels) == RoleModel::Member(name),
{
}

/// The gateways that claim a container are those with a selector that matches
/// it.
pub proof fn claimants_match(
    gs: Seq<GatewayModel>,
    labels: Map<Seq<char>, Seq<char>>,
    name: Seq<char>,
)
    ensures
        plan::claimants(gs, labels).contains(name) <==> exists|i: int|
            0 <= i < gs.len() && (#[trigger] gs[i]).name == name && plan::claims(gs[i], labels),
    decreases gs.len(),
{
    if gs.len() > 0 {
        let before = gs.drop_last();
        claimants_match(before, labels, name);
        let earlier = plan::claimants(before, labels);
        let all = plan::claimants(gs, labels);
        if earlier.contains(name) {
            let k = choose|k: int| 0 <= k < earlier.len() && earlier[k] == name;
            assert(all[k] == name);
            let i = choose|i: int|
                0 <= i < before.len() && (#[trigger] before[i]).name == name && plan::claims(
                    before[i],
                    labels,
                );
            assert(gs[i].name == name && plan::claims(gs[i], labels));
        }
        if all.contains(name) && !earlier.contains(name) {
            let k = choose|k: int| 0 <= k < all.len() && all[k] == name;
            if k < earlier.len() {
                assert(earlier[k] == name);
            }
            assert(gs[gs.len() - 1].name == name && plan::claims(gs[gs.len() - 1], labels));
        }
        if exists|i: int|
            0 <= i < gs.len() && (#[trigger] gs[i]).name == name && plan::claims(gs[i], labels) {
            let i = choose|i: int|
                0 <= i < gs.len() && (#[trigger] gs[i]).name == name && plan::claims(
                    gs[i],
                    labels,
                );
            if i < before.len() {
                assert(before[i].name == name && plan::claims(before[i], labels));
            } else {
                assert(all[all.len() - 1] == name);
            }
        }
    }
}

/// A member's gateway is there: it is the name of one of the gateways.
pub proof fn member_has_a_gateway(
    prefix: Seq<char>,
    gs: Seq<GatewayModel>,
    labels: Map<Seq<char>, Seq<char>>,
)
    ensures
        match plan::role_of(prefix, gs, labels) {
            RoleModel::Member(name) => v1alpha1::has_name(gs, name),
            _ => true,
        },
{
    match v1alpha1::opt_in_of(prefix, labels) {
        Some(Some(name)) => {
            v1alpha1::laws::name_resolves(gs, name);
        },
        Some(None) => {
            v1alpha1::laws::default_resolves(gs);
            match v1alpha1::resolved(gs, None) {
                Some(i) => {
                    assert(gs[i].name == gs[i].name);
                },
                None => {},
            }
        },
        None => {
            let names = plan::claimants(gs, labels);
            if names.len() == 1 {
                assert(names.contains(names[0]));
                claimants_match(gs, labels, names[0]);
            }
            match plan::chosen(prefix, names, labels) {
                Some(name) => {
                    claimants_match(gs, labels, name);
                },
                None => {},
            }
        },
    }
}

// ---------------------------------------------------------------------------
// The plan

/// The members of a gateway are finitely many.
pub proof fn members_are_finite(
    targets: Seq<TargetModel>,
    roles: Seq<RoleModel>,
    name: Seq<char>,
)
    requires
        targets.len() == roles.len(),
    ensures
        plan::routed_ips(targets, roles, name).finite(),
        plan::routed_names(targets, roles, name).finite(),
    decreases targets.len(),
{
    if targets.len() == 0 {
        assert(plan::routed_ips(targets, roles, name) =~= Set::empty());
        assert(plan::routed_names(targets, roles, name) =~= Set::empty());
    } else {
        let n = targets.len() - 1;
        members_are_finite(targets.take(n), roles.take(n), name);
        plan::lemma_routed_step(targets, roles, n, name);
        assert(targets.take(n + 1) =~= targets);
        assert(roles.take(n + 1) =~= roles);
        assert(docker::addresses_of(targets[n]).to_set().finite());
    }
}

/// A container is routed exactly where it is a member: its name is among the
/// members of a gateway only if a container of that name is a member of it, so
/// one that is a conflict, or whose gateway is not known, or that is a gateway,
/// is not routed.
pub proof fn only_members_are_routed(
    targets: Seq<TargetModel>,
    prefix: Seq<char>,
    gs: Seq<GatewayModel>,
    egresses: Seq<EgressModel>,
    errors: Seq<Seq<char>>,
    k: int,
    container: Seq<char>,
)
    requires
        0 <= k < gs.len(),
        plan::plan_with(
            targets,
            prefix,
            gs,
            egresses,
            errors,
        ).gateways[k].member_names.contains(container),
    ensures
        exists|i: int|
            0 <= i < targets.len() && (#[trigger] targets[i]).name == container && plan::role_of(
                prefix,
                gs,
                targets[i].labels,
            ) == RoleModel::Member(gs[k].name),
{
    let roles = plan::roles_of(prefix, gs, targets);
    let i = choose|i: int|
        0 <= i < targets.len() && #[trigger] roles[i] == RoleModel::Member(gs[k].name)
            && targets[i].name == container;
    assert(targets[i].name == container);
}

/// Every member is routed: all its addresses, and its name, are among those of
/// the first gateway of the name that it is a member of.
pub proof fn every_member_is_routed(
    targets: Seq<TargetModel>,
    prefix: Seq<char>,
    gs: Seq<GatewayModel>,
    egresses: Seq<EgressModel>,
    errors: Seq<Seq<char>>,
    i: int,
    k: int,
)
    requires
        0 <= i < targets.len(),
        0 <= k < gs.len(),
        plan::role_of(prefix, gs, targets[i].labels) == RoleModel::Member(gs[k].name),
        !v1alpha1::has_name(gs.take(k), gs[k].name),
    ensures
        ({
            let gp = plan::plan_with(targets, prefix, gs, egresses, errors).gateways[k];
            &&& gp.member_names.contains(targets[i].name)
            &&& forall|ip: IpAddr| #[trigger]
                docker::addresses_of(targets[i]).contains(ip) ==> gp.members.contains(ip)
        }),
{
    let roles = plan::roles_of(prefix, gs, targets);
    assert(roles[i] == RoleModel::Member(gs[k].name));
}

/// No container is routed through two gateways: where no two containers have
/// one name, the members of two gateways are disjoint.
pub proof fn one_gateway_for_each_container(
    targets: Seq<TargetModel>,
    prefix: Seq<char>,
    gs: Seq<GatewayModel>,
    egresses: Seq<EgressModel>,
    errors: Seq<Seq<char>>,
    k: int,
    l: int,
)
    requires
        0 <= k < l < gs.len(),
        forall|i: int, j: int|
            0 <= i < j < targets.len() ==> (#[trigger] targets[i]).name != (
            #[trigger] targets[j]).name,
    ensures
        ({
            let gps = plan::plan_with(targets, prefix, gs, egresses, errors).gateways;
            gps[k].member_names.disjoint(gps[l].member_names)
        }),
{
    let gps = plan::plan_with(targets, prefix, gs, egresses, errors).gateways;
    assert forall|c: Seq<char>| !(#[trigger] gps[k].member_names.contains(c)
        && gps[l].member_names.contains(c)) by {
        if gps[k].member_names.contains(c) && gps[l].member_names.contains(c) {
            only_members_are_routed(targets, prefix, gs, egresses, errors, k, c);
            only_members_are_routed(targets, prefix, gs, egresses, errors, l, c);
            let i = choose|i: int|
                0 <= i < targets.len() && (#[trigger] targets[i]).name == c && plan::role_of(
                    prefix,
                    gs,
                    targets[i].labels,
                ) == RoleModel::Member(gs[k].name);
            let j = choose|j: int|
                0 <= j < targets.len() && (#[trigger] targets[j]).name == c && plan::role_of(
                    prefix,
                    gs,
                    targets[j].labels,
                ) == RoleModel::Member(gs[l].name);
            assert(i == j);
            assert(gs[k].name == gs[l].name);
            assert(gs.take(l)[k].name == gs[l].name);
            assert(v1alpha1::has_name(gs.take(l), gs[l].name));
        }
    }
}

/// Nothing is passed over in silence: a container whose gateway is not known, or
/// that several gateways claim, is listed as such.
pub proof fn what_is_not_routed_is_surfaced(
    targets: Seq<TargetModel>,
    roles: Seq<RoleModel>,
    i: int,
)
    requires
        0 <= i < targets.len(),
        targets.len() == roles.len(),
    ensures
        match roles[i] {
            RoleModel::Unresolved(wanted) => plan::unresolved_of(targets, roles).contains(
                (targets[i].name, wanted),
            ),
            RoleModel::Conflict(names) => plan::conflicts_of(targets, roles).contains(
                (targets[i].name, names),
            ),
            _ => true,
        },
    decreases targets.len(),
{
    let us = plan::unresolved_of(targets, roles);
    let cs = plan::conflicts_of(targets, roles);
    if i == targets.len() - 1 {
        match roles[i] {
            RoleModel::Unresolved(wanted) => {
                assert(us[us.len() - 1] == (targets[i].name, wanted));
            },
            RoleModel::Conflict(names) => {
                assert(cs[cs.len() - 1] == (targets[i].name, names));
            },
            _ => {},
        }
    } else {
        let t = targets.drop_last();
        let r = roles.drop_last();
        what_is_not_routed_is_surfaced(t, r, i);
        assert(t[i] == targets[i] && r[i] == roles[i]);
        match roles[i] {
            RoleModel::Unresolved(wanted) => {
                let before = plan::unresolved_of(t, r);
                let x = (targets[i].name, wanted);
                let k = choose|k: int| 0 <= k < before.len() && before[k] == x;
                assert(us[k] == x);
            },
            RoleModel::Conflict(names) => {
                let before = plan::conflicts_of(t, r);
                let x = (targets[i].name, names);
                let k = choose|k: int| 0 <= k < before.len() && before[k] == x;
                assert(cs[k] == x);
            },
            _ => {},
        }
    }
}

// ---------------------------------------------------------------------------
// Where traffic leaves

/// The egress of a container gateway is an IPv4 address that a container of
/// that name or service has now, or it is unavailable.
pub proof fn container_egress_is_current(g: GatewayModel, targets: Seq<TargetModel>)
    requires
        g.egress.interface is None,
        g.egress.next_hop is None,
        g.egress.container is Some,
    ensures
        match plan::egress_of(g, targets) {
            EgressModel::NextHop(ip) => ip is V4 && exists|i: int|
                0 <= i < targets.len() && plan::is_called(g.egress.container->0)(
                    #[trigger] targets[i],
                ) && docker::addresses_of(targets[i]).contains(ip),
            EgressModel::Unavailable(_) => true,
            EgressModel::Interface(_) => false,
        },
{
    let sel = g.egress.container->0;
    let p = plan::is_called(sel);
    seqs::lemma_first_where(targets, p);
    match seqs::first_where(targets, p) {
        Some(i) => {
            let a = docker::addresses_of(targets[i]);
            seqs::lemma_first_where(a, plan::is_v4());
            match seqs::first_where(a, plan::is_v4()) {
                Some(k) => {
                    assert(plan::is_v4()(a[k]));
                    assert(a.contains(a[k]));
                    assert(p(targets[i]));
                },
                None => {},
            }
        },
        None => {},
    }
}

/// A gateway container that does not run leaves the egress unavailable.
pub proof fn absent_container_is_unavailable(g: GatewayModel, targets: Seq<TargetModel>)
    requires
        g.egress.interface is None,
        g.egress.next_hop is None,
        g.egress.container is Some,
        forall|i: int|
            0 <= i < targets.len() ==> !plan::is_called(g.egress.container->0)(
                #[trigger] targets[i],
            ),
    ensures
        plan::egress_of(g, targets) is Unavailable,
{
    seqs::lemma_first_none(targets, plan::is_called(g.egress.container->0));
}

} // verus!
