//! What can be relied on, in terms of what is written in a gateway and on a
//! container.

use vstd::prelude::*;

use crate::api::v1alpha1;
use crate::api::v1alpha1::{ConfigFault, EgressModel, GatewayModel};
use crate::net;
use crate::seqs;
use crate::text;

verus! {

// ---------------------------------------------------------------------------
// A gateway

/// A gateway that does not say whether to masquerade does so exactly where it
/// leaves by an interface: a valid one with a container or a next hop as its
/// egress does not. One that says so is taken at its word.
pub proof fn masquerading_is_for_interfaces(g: GatewayModel)
    requires
        v1alpha1::gateway_fault(g) is None,
    ensures
        g.snat == Some(true) ==> v1alpha1::snat_of(g),
        g.snat == Some(false) ==> !v1alpha1::snat_of(g),
        g.snat is None && g.egress.interface is Some ==> v1alpha1::snat_of(g),
        g.snat is None && g.egress.container is Some ==> !v1alpha1::snat_of(g),
        g.snat is None && g.egress.next_hop is Some ==> !v1alpha1::snat_of(g),
        g.egress.interface is Some || g.egress.container is Some || g.egress.next_hop is Some,
{
}

/// Whether to masquerade, of any gateway, valid or not: what else it says makes
/// no difference.
pub proof fn masquerading_depends_on_nothing_else(a: GatewayModel, b: GatewayModel)
    requires
        a.snat == b.snat,
        a.egress.interface is Some <==> b.egress.interface is Some,
    ensures
        v1alpha1::snat_of(a) == v1alpha1::snat_of(b),
        a.snat is None ==> (v1alpha1::snat_of(a) <==> a.egress.interface is Some),
{
}

/// The networks that stay direct are those that are listed; where none is, the
/// three private ranges.
pub proof fn direct_networks(g: GatewayModel)
    ensures
        g.local_subnets.len() > 0 ==> v1alpha1::local_subnets_of(g) == g.local_subnets,
        g.local_subnets.len() == 0 ==> {
            let nets = v1alpha1::local_subnets_of(g);
            &&& nets.len() == 3
            &&& nets[0] == "10.0.0.0/8"@
            &&& nets[1] == "172.16.0.0/12"@
            &&& nets[2] == "192.168.0.0/16"@
        },
{
}

/// A mark or a table that is given is the one in effect, in decimal or in
/// hexadecimal; white space around a mark does not matter.
pub proof fn given_values_are_used(g: GatewayModel, mark: u32, table: u32)
    ensures
        g.mark == Some(text::decimal_text(mark as nat)) ==> v1alpha1::mark_of(g) == Some(mark),
        g.mark == Some(text::hex_text(mark as nat)) ==> v1alpha1::mark_of(g) == Some(mark),
        g.table == Some(table) ==> v1alpha1::table_of(g) == table,
        g.mark is Some ==> v1alpha1::mark_of(g) == v1alpha1::mark_named(text::trim_of(g.mark->0)),
{
    v1alpha1::laws::mark_reads_back(mark);
    if g.mark is Some {
        text::trim_is_final(g.mark->0);
    }
}

/// A mark is read in base sixteen after `0x` and in base ten otherwise; it is
/// one exactly where the digits are a number of 32 bits.
pub proof fn marks_are_numbers(s: Seq<char>, n: nat)
    requires
        text::trim_of(s) == s,
    ensures
        ({
            let hex = s.len() >= 2 && s[0] == '0' && s[1] == 'x';
            &&& hex && text::number_value(s.skip(2), 16, 0xFFFF_FFFF) == Ok::<
                nat,
                text::NumberError,
            >(n) ==> v1alpha1::mark_named(s) == Some(n as u32)
            &&& hex && text::number_value(s.skip(2), 16, 0xFFFF_FFFF) is Err
                ==> v1alpha1::mark_named(s) is None
            &&& !hex && text::number_value(s, 10, 0xFFFF_FFFF) == Ok::<nat, text::NumberError>(
                n,
            ) ==> v1alpha1::mark_named(s) == Some(n as u32)
            &&& !hex && text::number_value(s, 10, 0xFFFF_FFFF) is Err
                ==> v1alpha1::mark_named(s) is None
        }),
{
}

/// What is derived from a name comes from its hash: one more byte is mixed in by
/// exclusive or and then multiplied by the prime, in 32 bits.
pub proof fn derived_values(name: Seq<char>, bytes: Seq<u8>, b: u8)
    ensures
        v1alpha1::fnv1a_of(Seq::empty()) == 0x811c_9dc5,
        v1alpha1::fnv1a_of(bytes.push(b)) == ((v1alpha1::fnv1a_of(bytes) ^ (b as u32))
            * 16_777_619) % 4_294_967_296,
        v1alpha1::auto_mark_of(name) == 4096 + v1alpha1::fnv1a_of(
            vstd::utf8::encode_utf8(name),
        ) % 57344,
        v1alpha1::auto_table_of(name) == 5000 + v1alpha1::fnv1a_of(
            vstd::utf8::encode_utf8(name),
        ) % 1000,
{
    assert(bytes.push(b).drop_last() =~= bytes);
}

/// A gateway that gives neither has the mark and the table of its name.
pub proof fn values_of_a_bare_gateway(g: GatewayModel)
    ensures
        g.mark is None ==> v1alpha1::mark_of(g) == Some(v1alpha1::auto_mark_of(g.name)),
        g.table is None ==> v1alpha1::table_of(g) == v1alpha1::auto_table_of(g.name),
{
}

/// An interface name has 1 to 15 characters, each a letter, a digit, a dot, a
/// hyphen or an underscore; a text with any other character is none.
pub proof fn interface_names(s: Seq<char>)
    ensures
        v1alpha1::interface_name(s) <==> {
            &&& s.len() >= 1
            &&& s.len() < 16
            &&& forall|i: int|
                0 <= i < s.len() ==> {
                    ||| (#[trigger] s[i]) == '_'
                    ||| s[i] == '-'
                    ||| s[i] == '.'
                    ||| s[i] >= '0' && s[i] <= '9'
                    ||| s[i] >= 'a' && s[i] <= 'z'
                    ||| s[i] >= 'A' && s[i] <= 'Z'
                }
        },
{
}

/// Whether exactly one kind of egress is set.
pub open spec fn one_egress(e: EgressModel) -> bool {
    ||| e.interface is Some && e.container is None && e.next_hop is None
    ||| e.interface is None && e.container is Some && e.next_hop is None
    ||| e.interface is None && e.container is None && e.next_hop is Some
}

/// A gateway is valid exactly where it has one kind of egress and all that it
/// says is well-formed.
pub proof fn validity_in_full(g: GatewayModel)
    ensures
        v1alpha1::gateway_fault(g) is None <==> {
            &&& one_egress(g.egress)
            &&& g.mark is Some ==> v1alpha1::mark_named(g.mark->0) is Some && v1alpha1::mark_named(
                g.mark->0,
            ) != Some(0u32)
            &&& g.table != Some(0u32)
            &&& g.egress.interface is Some ==> v1alpha1::interface_name(g.egress.interface->0)
            &&& g.egress.next_hop is Some ==> net::ip_named(g.egress.next_hop->0) is Some
            &&& forall|i: int|
                0 <= i < g.local_subnets.len() ==> net::network_named(
                    #[trigger] g.local_subnets[i],
                ) is Some
            &&& forall|i: int|
                0 <= i < g.members.len() ==> (#[trigger] g.members[i]) != Map::<
                    Seq<char>,
                    Seq<char>,
                >::empty()
        },
{
    v1alpha1::laws::valid_gateway(g);
    let none = Map::<Seq<char>, Seq<char>>::empty();
    if g.members.contains(none) {
        let i = choose|i: int| 0 <= i < g.members.len() && g.members[i] == none;
        assert(g.members[i] == none);
    }
    if g.egress.interface is Some {
        interface_names(g.egress.interface->0);
    }
}

/// What is reported of a gateway is what is wrong with it: each kind of fault
/// comes only where it holds, names the gateway, and repeats what was written.
pub proof fn faults_are_what_is_wrong(g: GatewayModel)
    ensures
        match v1alpha1::gateway_fault(g) {
            None => true,
            Some(ConfigFault::EgressKinds { gateway, set }) => {
                &&& gateway == g.name
                &&& !one_egress(g.egress)
                &&& set != 1
                &&& set == 0 <==> g.egress.interface is None && g.egress.container is None
                    && g.egress.next_hop is None
                &&& set == 3 <==> g.egress.interface is Some && g.egress.container is Some
                    && g.egress.next_hop is Some
                &&& set <= 3
            },
            Some(ConfigFault::BadMark { gateway, mark }) => gateway == g.name && g.mark == Some(
                mark,
            ) && v1alpha1::mark_named(mark) is None,
            Some(ConfigFault::ZeroMark { gateway }) => gateway == g.name && g.mark is Some
                && v1alpha1::mark_named(g.mark->0) == Some(0u32),
            Some(ConfigFault::ZeroTable { gateway }) => gateway == g.name && g.table == Some(0u32),
            Some(ConfigFault::BadInterface { gateway, interface }) => gateway == g.name
                && g.egress.interface == Some(interface) && !v1alpha1::interface_name(interface),
            Some(ConfigFault::BadNextHop { gateway, next_hop }) => gateway == g.name
                && g.egress.next_hop == Some(next_hop) && net::ip_named(next_hop) is None,
            Some(ConfigFault::BadLocalSubnet { gateway, subnet, cause }) => {
                &&& gateway == g.name
                &&& g.local_subnets.contains(subnet)
                &&& net::network_named(subnet) is None
                &&& cause == "invalid address: "@ + subnet
            },
            Some(ConfigFault::EmptySelector { gateway }) => gateway == g.name
                && g.members.contains(Map::<Seq<char>, Seq<char>>::empty()),
            _ => false,
        },
        !one_egress(g.egress) ==> v1alpha1::gateway_fault(g) is Some
            && v1alpha1::gateway_fault(g)->0 is EgressKinds,
{
    let subnets = v1alpha1::subnets_named(g.local_subnets);
    let bad = |s: Result<net::Network, Seq<char>>| s is Err;
    seqs::lemma_first_where(subnets, bad);
    match seqs::first_where(subnets, bad) {
        Some(i) => {
            assert(bad(subnets[i]));
            assert(subnets[i] == v1alpha1::subnet_named(g.local_subnets[i]));
            assert(g.local_subnets.contains(g.local_subnets[i]));
        },
        None => {},
    }
}

// ---------------------------------------------------------------------------
// Sets of gateways

/// At most one gateway is the default exactly where no two are.
pub proof fn one_default(gs: Seq<GatewayModel>)
    ensures
        v1alpha1::default_count(gs) == 0 <==> forall|i: int|
            0 <= i < gs.len() ==> !(#[trigger] gs[i]).default,
        v1alpha1::default_count(gs) <= 1 <==> forall|i: int, j: int|
            0 <= i < j < gs.len() ==> !((#[trigger] gs[i]).default && (
            #[trigger] gs[j]).default),
    decreases gs.len(),
{
    if gs.len() > 0 {
        let before = gs.drop_last();
        let n = gs.len() - 1;
        one_default(before);
        assert(gs[n] == gs.last());
        assert forall|i: int| 0 <= i < n implies before[i] == #[trigger] gs[i] by {}
        if v1alpha1::default_count(gs) == 0 {
            assert forall|i: int| 0 <= i < gs.len() implies !(#[trigger] gs[i]).default by {
                if i < n {
                    assert(!before[i].default);
                }
            }
        } else if forall|i: int| 0 <= i < gs.len() ==> !(#[trigger] gs[i]).default {
            assert forall|i: int| 0 <= i < before.len() implies !(#[trigger] before[i]).default by {
                assert(!gs[i].default);
            }
            assert(!gs[n].default);
        }
        if v1alpha1::default_count(gs) <= 1 {
            assert forall|i: int, j: int| 0 <= i < j < gs.len() implies !((
            #[trigger] gs[i]).default && (#[trigger] gs[j]).default) by {
                if j < n {
                    assert(!(before[i].default && before[j].default));
                } else if gs[n].default {
                    assert(!before[i].default);
                }
            }
        } else if forall|i: int, j: int|
            0 <= i < j < gs.len() ==> !((#[trigger] gs[i]).default && (
            #[trigger] gs[j]).default) {
            assert forall|i: int, j: int| 0 <= i < j < before.len() implies !((
            #[trigger] before[i]).default && (#[trigger] before[j]).default) by {
                assert(!(gs[i].default && gs[j].default));
            }
            if gs[n].default {
                assert forall|i: int| 0 <= i < before.len() implies !(
                #[trigger] before[i]).default by {
                    assert(!(gs[i].default && gs[n].default));
                }
            }
        }
    }
}

/// A set of gateways is valid exactly where each is, and no two have one name,
/// are both the default, or have one mark or one table.
pub proof fn validity_of_a_set_in_full(gs: Seq<GatewayModel>)
    ensures
        v1alpha1::gateways_fault(gs) is None <==> {
            &&& forall|i: int|
                0 <= i < gs.len() ==> v1alpha1::gateway_fault(#[trigger] gs[i]) is None
            &&& forall|i: int, j: int|
                0 <= i < j < gs.len() ==> {
                    &&& (#[trigger] gs[i]).name != (#[trigger] gs[j]).name
                    &&& !(gs[i].default && gs[j].default)
                    &&& v1alpha1::mark_of(gs[i]) != v1alpha1::mark_of(gs[j])
                    &&& v1alpha1::table_of(gs[i]) != v1alpha1::table_of(gs[j])
                }
        },
{
    v1alpha1::laws::valid_set(gs);
    one_default(gs);
    if forall|i: int| 0 <= i < gs.len() ==> v1alpha1::gateway_fault(#[trigger] gs[i]) is None {
        assert forall|i: int| 0 <= i < gs.len() implies v1alpha1::mark_of(
            #[trigger] gs[i],
        ) is Some by {
            assert(v1alpha1::gateway_fault(gs[i]) is None);
        }
    }
}

/// What is reported of marks and tables is true of two gateways, an earlier one
/// and a later one, which are named in that order.
pub proof fn shared_routing_is_named(gs: Seq<GatewayModel>)
    ensures
        match v1alpha1::routing_fault(gs) {
            None => true,
            Some(ConfigFault::BadMark { gateway, mark }) => exists|i: int|
                0 <= i < gs.len() && (#[trigger] gs[i]).name == gateway && gs[i].mark == Some(mark)
                    && v1alpha1::mark_named(mark) is None,
            Some(ConfigFault::SameMark { first, second, mark }) => exists|i: int, j: int|
                0 <= i < j < gs.len() && (#[trigger] gs[i]).name == first && (
                #[trigger] gs[j]).name == second && v1alpha1::mark_of(gs[i]) == Some(mark)
                    && v1alpha1::mark_of(gs[j]) == Some(mark),
            Some(ConfigFault::SameTable { first, second, table }) => exists|i: int, j: int|
                0 <= i < j < gs.len() && (#[trigger] gs[i]).name == first && (
                #[trigger] gs[j]).name == second && v1alpha1::table_of(gs[i]) == table
                    && v1alpha1::table_of(gs[j]) == table,
            _ => false,
        },
    decreases gs.len(),
{
    if gs.len() > 0 {
        let before = gs.drop_last();
        let n = gs.len() - 1;
        shared_routing_is_named(before);
        assert(gs[n] == gs.last());
        match v1alpha1::routing_fault(before) {
            Some(ConfigFault::BadMark { gateway, mark }) => {
                let i = choose|i: int|
                    0 <= i < before.len() && (#[trigger] before[i]).name == gateway
                        && before[i].mark == Some(mark) && v1alpha1::mark_named(mark) is None;
                assert(gs[i] == before[i]);
            },
            Some(ConfigFault::SameMark { first, second, mark }) => {
                let (i, j) = choose|i: int, j: int|
                    0 <= i < j < before.len() && (#[trigger] before[i]).name == first && (
                    #[trigger] before[j]).name == second && v1alpha1::mark_of(before[i]) == Some(
                        mark,
                    ) && v1alpha1::mark_of(before[j]) == Some(mark);
                assert(gs[i] == before[i] && gs[j] == before[j]);
            },
            Some(ConfigFault::SameTable { first, second, table }) => {
                let (i, j) = choose|i: int, j: int|
                    0 <= i < j < before.len() && (#[trigger] before[i]).name == first && (
                    #[trigger] before[j]).name == second && v1alpha1::table_of(before[i]) == table
                        && v1alpha1::table_of(before[j]) == table;
                assert(gs[i] == before[i] && gs[j] == before[j]);
            },
            Some(_) => {},
            None => {
                let g = gs[n];
                if v1alpha1::mark_of(g) is Some {
                    let mark = v1alpha1::mark_of(g)->0;
                    lemma_mark_holder(before, mark);
                    lemma_table_holder(before, v1alpha1::table_of(g));
                    if v1alpha1::mark_holder(before, mark) is Some {
                        let first = v1alpha1::mark_holder(before, mark)->0;
                        let i = choose|i: int|
                            0 <= i < before.len() && (#[trigger] before[i]).name == first
                                && v1alpha1::mark_of(before[i]) == Some(mark);
                        assert(gs[i] == before[i]);
                    } else if v1alpha1::table_holder(before, v1alpha1::table_of(g)) is Some {
                        let first = v1alpha1::table_holder(before, v1alpha1::table_of(g))->0;
                        let i = choose|i: int|
                            0 <= i < before.len() && (#[trigger] before[i]).name == first
                                && v1alpha1::table_of(before[i]) == v1alpha1::table_of(g);
                        assert(gs[i] == before[i]);
                    }
                }
            },
        }
    }
}

proof fn lemma_mark_holder(gs: Seq<GatewayModel>, mark: u32)
    ensures
        match v1alpha1::mark_holder(gs, mark) {
            Some(name) => exists|i: int|
                0 <= i < gs.len() && (#[trigger] gs[i]).name == name && v1alpha1::mark_of(gs[i])
                    == Some(mark),
            None => true,
        },
    decreases gs.len(),
{
    if gs.len() > 0 {
        let before = gs.drop_last();
        lemma_mark_holder(before, mark);
        assert(gs[gs.len() - 1] == gs.last());
        if v1alpha1::mark_of(gs.last()) != Some(mark) && v1alpha1::mark_holder(
            before,
            mark,
        ) is Some {
            let name = v1alpha1::mark_holder(before, mark)->0;
            let i = choose|i: int|
                0 <= i < before.len() && (#[trigger] before[i]).name == name && v1alpha1::mark_of(
                    before[i],
                ) == Some(mark);
            assert(gs[i] == before[i]);
        }
    }
}

proof fn lemma_table_holder(gs: Seq<GatewayModel>, table: u32)
    ensures
        match v1alpha1::table_holder(gs, table) {
            Some(name) => exists|i: int|
                0 <= i < gs.len() && (#[trigger] gs[i]).name == name && v1alpha1::table_of(gs[i])
                    == table,
            None => true,
        },
    decreases gs.len(),
{
    if gs.len() > 0 {
        let before = gs.drop_last();
        lemma_table_holder(before, table);
        assert(gs[gs.len() - 1] == gs.last());
        if v1alpha1::table_of(gs.last()) != table && v1alpha1::table_holder(
            before,
            table,
        ) is Some {
            let name = v1alpha1::table_holder(before, table)->0;
            let i = choose|i: int|
                0 <= i < before.len() && (#[trigger] before[i]).name == name
                    && v1alpha1::table_of(before[i]) == table;
            assert(gs[i] == before[i]);
        }
    }
}

/// A set in which two gateways are the default, while each gateway is valid and
/// no two have one name, is rejected as such; one in which a later gateway has
/// the name of an earlier one, and all are valid, for that name.
pub proof fn rejected_sets(gs: Seq<GatewayModel>, i: int, j: int)
    requires
        0 <= i < j < gs.len(),
        forall|k: int| 0 <= k < gs.len() ==> v1alpha1::gateway_fault(#[trigger] gs[k]) is None,
    ensures
        v1alpha1::laws::names_distinct(gs) && gs[i].default && gs[j].default
            ==> v1alpha1::gateways_fault(gs) == Some(ConfigFault::ManyDefaults),
        gs[i].name == gs[j].name ==> v1alpha1::gateways_fault(gs) is Some
            && v1alpha1::gateways_fault(gs)->0 is DuplicateGateway,
{
    v1alpha1::laws::listing_is_checked(gs);
    one_default(gs);
    lemma_listing_kind(gs);
}

proof fn lemma_listing_kind(gs: Seq<GatewayModel>)
    requires
        forall|k: int| 0 <= k < gs.len() ==> v1alpha1::gateway_fault(#[trigger] gs[k]) is None,
    ensures
        match v1alpha1::listing_fault(gs) {
            Some(ConfigFault::DuplicateGateway { gateway }) => exists|i: int, j: int|
                0 <= i < j < gs.len() && (#[trigger] gs[i]).name == gateway && (
                #[trigger] gs[j]).name == gateway,
            Some(_) => false,
            None => true,
        },
    decreases gs.len(),
{
    if gs.len() > 0 {
        let before = gs.drop_last();
        let n = gs.len() - 1;
        assert forall|k: int| 0 <= k < before.len() implies v1alpha1::gateway_fault(
            #[trigger] before[k],
        ) is None by {
            assert(before[k] == gs[k]);
        }
        lemma_listing_kind(before);
        assert(gs[n] == gs.last());
        assert(v1alpha1::gateway_fault(gs[n]) is None);
        match v1alpha1::listing_fault(before) {
            Some(ConfigFault::DuplicateGateway { gateway }) => {
                let (i, j) = choose|i: int, j: int|
                    0 <= i < j < before.len() && (#[trigger] before[i]).name == gateway && (
                    #[trigger] before[j]).name == gateway;
                assert(gs[i] == before[i] && gs[j] == before[j]);
            },
            Some(_) => {},
            None => {
                if v1alpha1::has_name(before, gs[n].name) {
                    let i = choose|i: int|
                        0 <= i < before.len() && (#[trigger] before[i]).name == gs[n].name;
                    assert(gs[i] == before[i]);
                }
            },
        }
    }
}

/// A duplicate is named by the name that two gateways share.
pub proof fn duplicates_are_named(gs: Seq<GatewayModel>)
    requires
        forall|k: int| 0 <= k < gs.len() ==> v1alpha1::gateway_fault(#[trigger] gs[k]) is None,
    ensures
        match v1alpha1::gateways_fault(gs) {
            Some(ConfigFault::DuplicateGateway { gateway }) => exists|i: int, j: int|
                0 <= i < j < gs.len() && (#[trigger] gs[i]).name == gateway && (
                #[trigger] gs[j]).name == gateway,
            _ => true,
        },
{
    lemma_listing_kind(gs);
    shared_routing_is_named(gs);
}

// ---------------------------------------------------------------------------
// Resolving

/// A name leads to the first gateway that has it, and to none where no gateway
/// has it.
pub proof fn names_lead_to_their_gateway(gs: Seq<GatewayModel>, name: Seq<char>, i: int)
    ensures
        0 <= i < gs.len() && gs[i].name == name && (forall|j: int|
            0 <= j < i ==> (#[trigger] gs[j]).name != name) ==> v1alpha1::resolved(gs, Some(name))
            == Some(i),
        (forall|j: int| 0 <= j < gs.len() ==> (#[trigger] gs[j]).name != name)
            ==> v1alpha1::resolved(gs, Some(name)) is None,
{
    let p = v1alpha1::named(name);
    if 0 <= i < gs.len() && gs[i].name == name && (forall|j: int|
        0 <= j < i ==> (#[trigger] gs[j]).name != name) {
        assert forall|j: int| 0 <= j < i implies !p(#[trigger] gs[j]) by {}
        seqs::lemma_first_is(gs, p, i);
    }
    if forall|j: int| 0 <= j < gs.len() ==> (#[trigger] gs[j]).name != name {
        assert forall|j: int| 0 <= j < gs.len() implies !p(#[trigger] gs[j]) by {}
        seqs::lemma_first_none(gs, p);
    }
}

/// Without a name, the first gateway that is the default is meant; where none
/// is, the only one there is; and otherwise none.
pub proof fn no_name_leads_to_the_default(gs: Seq<GatewayModel>, i: int)
    ensures
        0 <= i < gs.len() && gs[i].default && (forall|j: int|
            0 <= j < i ==> !(#[trigger] gs[j]).default) ==> v1alpha1::resolved(gs, None) == Some(i),
        gs.len() == 1 ==> v1alpha1::resolved(gs, None) == Some(0int),
        gs.len() != 1 && (forall|j: int| 0 <= j < gs.len() ==> !(#[trigger] gs[j]).default)
            ==> v1alpha1::resolved(gs, None) is None,
{
    let p = v1alpha1::is_default();
    seqs::lemma_first_where(gs, p);
    if 0 <= i < gs.len() && gs[i].default && (forall|j: int|
        0 <= j < i ==> !(#[trigger] gs[j]).default) {
        assert forall|j: int| 0 <= j < i implies !p(#[trigger] gs[j]) by {}
        seqs::lemma_first_is(gs, p, i);
    }
    if forall|j: int| 0 <= j < gs.len() ==> !(#[trigger] gs[j]).default {
        assert forall|j: int| 0 <= j < gs.len() implies !p(#[trigger] gs[j]) by {}
        seqs::lemma_first_none(gs, p);
    }
}

// ---------------------------------------------------------------------------
// Labels

/// A label has the value that it was given, and none where it was not.
pub proof fn labels_have_their_values(
    labels: Map<Seq<char>, Seq<char>>,
    key: Seq<char>,
    value: Seq<char>,
)
    ensures
        v1alpha1::label_of(labels.insert(key, value), key) == Some(value),
        v1alpha1::label_of(labels.remove(key), key) is None,
        v1alpha1::label_of(labels, key) is Some <==> labels.dom().contains(key),
{
}

/// A container opts in exactly where it carries `<prefix>.enable` with the value
/// `true`, to the letter; it then asks for the gateway of its `<prefix>.via`, or
/// for none in particular where it carries no such label.
pub proof fn opting_in(prefix: Seq<char>, labels: Map<Seq<char>, Seq<char>>)
    ensures
        ({
            let enable = prefix + ".enable"@;
            let via_key = prefix + ".via"@;
            let asked = v1alpha1::opt_in_of(prefix, labels);
            &&& asked is Some <==> labels.dom().contains(enable) && labels[enable] == "true"@
            &&& asked is Some && labels.dom().contains(via_key) ==> asked == Some(
                Some(labels[via_key]),
            )
            &&& asked is Some && !labels.dom().contains(via_key) ==> asked == Some(
                None::<Seq<char>>,
            )
        }),
{
}

/// A container declares itself a gateway exactly where it carries
/// `<prefix>.gateway` with a value that is not blank, under that value without
/// white space around it.
pub proof fn declaring(prefix: Seq<char>, labels: Map<Seq<char>, Seq<char>>)
    ensures
        ({
            let key = prefix + ".gateway"@;
            let name = v1alpha1::gateway_name_of(prefix, labels);
            &&& name is Some <==> labels.dom().contains(key) && text::trim_of(labels[key]).len() > 0
            &&& name is Some ==> name->0 == text::trim_of(labels[key])
        }),
{
}

/// A selector matches exactly the containers that carry each of its labels with
/// its value; one without labels matches none.
pub proof fn matching(
    selector: Map<Seq<char>, Seq<char>>,
    labels: Map<Seq<char>, Seq<char>>,
    key: Seq<char>,
)
    ensures
        selector.dom().contains(key) && (forall|k: Seq<char>| #[trigger]
            selector.dom().contains(k) ==> labels.dom().contains(k) && labels[k] == selector[k])
            ==> v1alpha1::selects(selector, labels),
        selector.dom().contains(key) && !(labels.dom().contains(key) && labels[key]
            == selector[key]) ==> !v1alpha1::selects(selector, labels),
        selector.dom() == Set::<Seq<char>>::empty() ==> !v1alpha1::selects(selector, labels),
{
    if selector.dom() == Set::<Seq<char>>::empty() {
        assert(selector =~= Map::empty());
    }
}

/// A `members` label selects by its pairs: the keys are those of the pairs, and
/// of two pairs with one key the later counts. White space around a key or a
/// value does not matter, and neither does what is no pair.
pub proof fn members_label(pairs: Seq<Seq<char>>, pair: Seq<char>, key: Seq<char>, value: Seq<char>)
    ensures
        v1alpha1::selector_of(Seq::empty()) == Map::<Seq<char>, Seq<char>>::empty(),
        text::cut_at(pair, '=') == Some((key, value)) ==> v1alpha1::selector_of(pairs.push(pair))
            == v1alpha1::selector_of(pairs).insert(text::trim_of(key), text::trim_of(value)),
        !pair.contains('=') ==> v1alpha1::selector_of(pairs.push(pair)) == v1alpha1::selector_of(
            pairs,
        ),
{
    assert(pairs.push(pair).drop_last() =~= pairs);
    text::lemma_position_absent(pair, '=');
}

/// A list keeps its items in order, without white space around them and without
/// those that are blank.
pub proof fn list_label(parts: Seq<Seq<char>>, part: Seq<char>)
    ensures
        v1alpha1::items_of(Seq::empty()) == Seq::<Seq<char>>::empty(),
        text::trim_of(part).len() > 0 ==> v1alpha1::items_of(parts.push(part))
            == v1alpha1::items_of(parts).push(text::trim_of(part)),
        text::trim_of(part).len() == 0 ==> v1alpha1::items_of(parts.push(part))
            == v1alpha1::items_of(parts),
{
    assert(parts.push(part).drop_last() =~= parts);
}

/// Whether a container carries a label of this key with this value, white space
/// around it aside.
pub open spec fn says(
    labels: Map<Seq<char>, Seq<char>>,
    key: Seq<char>,
    value: Seq<char>,
) -> bool {
    labels.dom().contains(key) && text::trim_of(labels[key]) == value
}

/// A gateway that a container declares has the name and the egress that were
/// given, and what its knobs say: each knob sets its own field, and one that is
/// not there leaves it unset.
pub proof fn declared_knobs(
    prefix: Seq<char>,
    name: Seq<char>,
    container: Seq<char>,
    labels: Map<Seq<char>, Seq<char>>,
)
    ensures
        match v1alpha1::discovered_of(prefix, name, container, labels) {
            Err(_) => true,
            Ok(g) => {
                let snat = prefix + ".gateway."@ + "snat"@;
                let mark = prefix + ".gateway."@ + "mark"@;
                let table = prefix + ".gateway."@ + "table"@;
                let default = prefix + ".gateway."@ + "default"@;
                let locals = prefix + ".gateway."@ + "localSubnets"@;
                let members = prefix + ".gateway."@ + "members"@;
                &&& g.name == name
                &&& g.egress.container == Some(container)
                &&& g.egress.interface is None
                &&& g.egress.next_hop is None
                &&& g.snat == Some(true) <==> says(labels, snat, "true"@)
                &&& g.snat == Some(false) <==> says(labels, snat, "false"@)
                &&& g.snat is None <==> !labels.dom().contains(snat)
                &&& g.default <==> says(labels, default, "true"@)
                &&& !g.default ==> !labels.dom().contains(default) || says(
                    labels,
                    default,
                    "false"@,
                )
                &&& labels.dom().contains(mark) ==> g.mark == Some(text::trim_of(labels[mark]))
                &&& !labels.dom().contains(mark) ==> g.mark is None
                &&& labels.dom().contains(table) ==> g.table is Some && text::number_value(
                    text::trim_of(labels[table]),
                    10,
                    0xFFFF_FFFF,
                ) == Ok::<nat, text::NumberError>(g.table->0 as nat)
                &&& !labels.dom().contains(table) ==> g.table is None
                &&& labels.dom().contains(locals) ==> g.local_subnets == v1alpha1::items_of(
                    text::pieces(text::trim_of(labels[locals]), ','),
                )
                &&& !labels.dom().contains(locals) ==> g.local_subnets.len() == 0
                &&& labels.dom().contains(members) ==> g.members.len() == 1 && g.members[0]
                    == v1alpha1::selector_of(text::pieces(text::trim_of(labels[members]), ','))
                &&& !labels.dom().contains(members) ==> g.members.len() == 0
            },
        },
{
    reveal_strlit("true");
    reveal_strlit("false");
    assert("true"@.len() != "false"@.len());
    let table = prefix + ".gateway."@ + "table"@;
    if labels.dom().contains(table) {
        text::number_in_bounds(text::trim_of(labels[table]), 10, u32::MAX as nat);
    }
}

/// A knob that is malformed makes no gateway: neither a flag that is neither
/// `true` nor `false`, nor a table that is no number of 32 bits, nor a list of
/// members with a part that is no pair.
pub proof fn malformed_knobs(
    prefix: Seq<char>,
    name: Seq<char>,
    container: Seq<char>,
    labels: Map<Seq<char>, Seq<char>>,
    k: int,
)
    ensures
        ({
            let snat = prefix + ".gateway."@ + "snat"@;
            let table = prefix + ".gateway."@ + "table"@;
            let default = prefix + ".gateway."@ + "default"@;
            let members = prefix + ".gateway."@ + "members"@;
            let parts = text::pieces(text::trim_of(labels[members]), ',');
            let outcome = v1alpha1::discovered_of(prefix, name, container, labels);
            &&& labels.dom().contains(snat) && !says(labels, snat, "true"@) && !says(
                labels,
                snat,
                "false"@,
            ) ==> outcome == Err::<GatewayModel, ConfigFault>(
                ConfigFault::BadSnatLabel { gateway: name, snat: text::trim_of(labels[snat]) },
            )
            &&& labels.dom().contains(table) && text::number_value(
                text::trim_of(labels[table]),
                10,
                0xFFFF_FFFF,
            ) is Err ==> outcome is Err
            &&& labels.dom().contains(default) && !says(labels, default, "true"@) && !says(
                labels,
                default,
                "false"@,
            ) ==> outcome is Err
            &&& labels.dom().contains(members) && 0 <= k < parts.len() && text::trim_of(
                parts[k],
            ).len() > 0 && !parts[k].contains('=') ==> outcome is Err
        }),
{
    let members = prefix + ".gateway."@ + "members"@;
    let parts = text::pieces(text::trim_of(labels[members]), ',');
    if 0 <= k < parts.len() && !parts[k].contains('=') {
        text::lemma_position_absent(parts[k], '=');
        if text::trim_of(parts[k]).len() > 0 {
            assert(!v1alpha1::all_pairs(parts));
        }
    }
}

/// A container that sets no knob declares a gateway that is valid and has
/// nothing set.
pub proof fn bare_declaration(
    prefix: Seq<char>,
    name: Seq<char>,
    container: Seq<char>,
    labels: Map<Seq<char>, Seq<char>>,
)
    requires
        forall|field: Seq<char>|
            !labels.dom().contains(#[trigger] (prefix + ".gateway."@ + field)),
    ensures
        v1alpha1::discovered_of(prefix, name, container, labels) is Ok,
{
    let k = prefix + ".gateway."@;
    assert(!labels.dom().contains(k + "snat"@));
    assert(!labels.dom().contains(k + "mark"@));
    assert(!labels.dom().contains(k + "table"@));
    assert(!labels.dom().contains(k + "default"@));
    assert(!labels.dom().contains(k + "localSubnets"@));
    assert(!labels.dom().contains(k + "members"@));
    let g = v1alpha1::declared_of(prefix, name, container, labels)->Ok_0;
    v1alpha1::laws::name_and_egress_are_enough(g);
}

/// Whether a container does not carry a label of this key, or says `true` or
/// `false` by it.
pub open spec fn flag_in_order(labels: Map<Seq<char>, Seq<char>>, key: Seq<char>) -> bool {
    !labels.dom().contains(key) || says(labels, key, "true"@) || says(labels, key, "false"@)
}

/// Whether a part of a `members` label is blank or a pair.
pub open spec fn part_in_order(part: Seq<char>) -> bool {
    text::trim_of(part).len() == 0 || part.contains('=')
}

proof fn lemma_parts_in_order(parts: Seq<Seq<char>>)
    ensures
        v1alpha1::all_pairs(parts) <==> forall|k: int|
            0 <= k < parts.len() ==> part_in_order(#[trigger] parts[k]),
{
    assert forall|k: int| 0 <= k < parts.len() implies (text::cut_at(
        #[trigger] parts[k],
        '=',
    ) is Some <==> parts[k].contains('=')) by {
        text::lemma_position_absent(parts[k], '=');
    }
    if v1alpha1::all_pairs(parts) {
        assert forall|k: int| 0 <= k < parts.len() implies part_in_order(#[trigger] parts[k]) by {
            assert(text::cut_at(parts[k], '=') is Some <==> parts[k].contains('='));
        }
    }
    if forall|k: int| 0 <= k < parts.len() ==> part_in_order(#[trigger] parts[k]) {
        assert forall|k: int| 0 <= k < parts.len() implies text::trim_of(
            #[trigger] parts[k],
        ).len() == 0 || text::cut_at(parts[k], '=') is Some by {
            assert(part_in_order(parts[k]));
        }
    }
}

/// A container whose knobs are all in order declares a gateway: flags that say
/// `true` or `false`, a mark and a table that are numbers other than zero,
/// networks that can be read, and members that are pairs, at least one.
pub proof fn declarations_in_order_are_taken(
    prefix: Seq<char>,
    name: Seq<char>,
    container: Seq<char>,
    labels: Map<Seq<char>, Seq<char>>,
)
    requires
        flag_in_order(labels, prefix + ".gateway."@ + "snat"@),
        flag_in_order(labels, prefix + ".gateway."@ + "default"@),
        ({
            let mark = prefix + ".gateway."@ + "mark"@;
            labels.dom().contains(mark) ==> v1alpha1::mark_named(
                text::trim_of(labels[mark]),
            ) is Some && v1alpha1::mark_named(text::trim_of(labels[mark])) != Some(0u32)
        }),
        ({
            let table = prefix + ".gateway."@ + "table"@;
            let n = text::number_value(text::trim_of(labels[table]), 10, 0xFFFF_FFFF);
            labels.dom().contains(table) ==> n is Ok && n->Ok_0 > 0
        }),
        ({
            let locals = prefix + ".gateway."@ + "localSubnets"@;
            let items = v1alpha1::items_of(text::pieces(text::trim_of(labels[locals]), ','));
            labels.dom().contains(locals) ==> forall|i: int|
                0 <= i < items.len() ==> net::network_named(#[trigger] items[i]) is Some
        }),
        ({
            let members = prefix + ".gateway."@ + "members"@;
            let parts = text::pieces(text::trim_of(labels[members]), ',');
            labels.dom().contains(members) ==> v1alpha1::selector_of(parts) != Map::<
                Seq<char>,
                Seq<char>,
            >::empty() && forall|k: int|
                0 <= k < parts.len() ==> part_in_order(#[trigger] parts[k])
        }),
    ensures
        v1alpha1::discovered_of(prefix, name, container, labels) is Ok,
{
    let members = prefix + ".gateway."@ + "members"@;
    let table = prefix + ".gateway."@ + "table"@;
    let parts = text::pieces(text::trim_of(labels[members]), ',');
    lemma_parts_in_order(parts);
    text::number_in_bounds(text::trim_of(labels[table]), 10, u32::MAX as nat);
    assert(v1alpha1::declared_of(prefix, name, container, labels) is Ok);
    let g = v1alpha1::declared_of(prefix, name, container, labels)->Ok_0;
    validity_in_full(g);
}

/// Of the knobs that are malformed, the first of `snat`, `table`, `default` and
/// `members` is the one that is named.
pub proof fn first_malformed_knob_is_named(
    prefix: Seq<char>,
    name: Seq<char>,
    container: Seq<char>,
    labels: Map<Seq<char>, Seq<char>>,
    k: int,
)
    ensures
        ({
            let snat = prefix + ".gateway."@ + "snat"@;
            let table = prefix + ".gateway."@ + "table"@;
            let default = prefix + ".gateway."@ + "default"@;
            let members = prefix + ".gateway."@ + "members"@;
            let n = text::number_value(text::trim_of(labels[table]), 10, 0xFFFF_FFFF);
            let bad_table = labels.dom().contains(table) && n is Err;
            let parts = text::pieces(text::trim_of(labels[members]), ',');
            let outcome = v1alpha1::discovered_of(prefix, name, container, labels);
            &&& flag_in_order(labels, snat) && bad_table ==> outcome == Err::<
                GatewayModel,
                ConfigFault,
            >(
                ConfigFault::BadTableLabel {
                    gateway: name,
                    table: text::trim_of(labels[table]),
                    cause: n->Err_0,
                },
            )
            &&& flag_in_order(labels, snat) && !bad_table && !flag_in_order(labels, default)
                ==> outcome == Err::<GatewayModel, ConfigFault>(
                ConfigFault::BadDefaultLabel {
                    gateway: name,
                    default: text::trim_of(labels[default]),
                },
            )
            &&& flag_in_order(labels, snat) && !bad_table && flag_in_order(labels, default)
                && labels.dom().contains(members) && 0 <= k < parts.len() && !part_in_order(
                parts[k],
            ) ==> outcome == Err::<GatewayModel, ConfigFault>(
                ConfigFault::BadMembersLabel {
                    gateway: name,
                    members: text::trim_of(labels[members]),
                },
            )
        }),
{
    let members = prefix + ".gateway."@ + "members"@;
    let parts = text::pieces(text::trim_of(labels[members]), ',');
    lemma_parts_in_order(parts);
}

/// Of several things that are wrong with a gateway, the first is reported: how
/// many kinds of egress it has, then its mark, its table, its interface, its
/// next hop, its networks, and its selectors.
pub proof fn first_fault_is_reported(g: GatewayModel, i: int)
    requires
        one_egress(g.egress),
    ensures
        ({
            let fault = v1alpha1::gateway_fault(g);
            let bad_mark = g.mark is Some && v1alpha1::mark_named(g.mark->0) is None;
            let zero_mark = g.mark is Some && v1alpha1::mark_named(g.mark->0) == Some(0u32);
            let zero_table = g.table == Some(0u32);
            let bad_name = g.egress.interface is Some && !v1alpha1::interface_name(
                g.egress.interface->0,
            );
            let bad_hop = g.egress.next_hop is Some && net::ip_named(g.egress.next_hop->0) is None;
            let first_bad = 0 <= i < g.local_subnets.len() && net::network_named(
                g.local_subnets[i],
            ) is None && forall|j: int|
                0 <= j < i ==> net::network_named(#[trigger] g.local_subnets[j]) is Some;
            &&& bad_mark ==> fault == Some(
                ConfigFault::BadMark { gateway: g.name, mark: g.mark->0 },
            )
            &&& zero_mark ==> fault == Some(ConfigFault::ZeroMark { gateway: g.name })
            &&& !bad_mark && !zero_mark && zero_table ==> fault == Some(
                ConfigFault::ZeroTable { gateway: g.name },
            )
            &&& !bad_mark && !zero_mark && !zero_table && bad_name ==> fault == Some(
                ConfigFault::BadInterface { gateway: g.name, interface: g.egress.interface->0 },
            )
            &&& !bad_mark && !zero_mark && !zero_table && bad_hop ==> fault == Some(
                ConfigFault::BadNextHop { gateway: g.name, next_hop: g.egress.next_hop->0 },
            )
            &&& !bad_mark && !zero_mark && !zero_table && !bad_name && !bad_hop && first_bad
                ==> fault == Some(
                ConfigFault::BadLocalSubnet {
                    gateway: g.name,
                    subnet: g.local_subnets[i],
                    cause: "invalid address: "@ + g.local_subnets[i],
                },
            )
        }),
{
    let subnets = v1alpha1::subnets_named(g.local_subnets);
    let bad = |s: Result<net::Network, Seq<char>>| s is Err;
    if 0 <= i < g.local_subnets.len() && net::network_named(g.local_subnets[i]) is None && (forall|
        j: int,
    |
        0 <= j < i ==> net::network_named(#[trigger] g.local_subnets[j]) is Some) {
        assert(bad(subnets[i]));
        assert forall|j: int| 0 <= j < i implies !bad(#[trigger] subnets[j]) by {
            assert(net::network_named(g.local_subnets[j]) is Some);
        }
        seqs::lemma_first_is(subnets, bad, i);
    }
}

/// How many kinds of egress are set.
pub proof fn kinds_of_egress(e: EgressModel)
    ensures
        one_egress(e) <==> v1alpha1::egress_kinds(e) == 1,
        e.interface is Some && e.container is Some && e.next_hop is Some
            <==> v1alpha1::egress_kinds(e) == 3,
        e.interface is None && e.container is None && e.next_hop is None
            <==> v1alpha1::egress_kinds(e) == 0,
        v1alpha1::egress_kinds(e) <= 3,
{
}

/// One more gateway: a fault among the earlier ones stays the one that is
/// reported; then its own counts, and then that its name is taken.
pub proof fn one_more_in_the_list(gs: Seq<GatewayModel>, g: GatewayModel)
    ensures
        v1alpha1::listing_fault(Seq::empty()) is None,
        ({
            let before = v1alpha1::listing_fault(gs);
            let after = v1alpha1::listing_fault(gs.push(g));
            let own = v1alpha1::gateway_fault(g);
            let taken = exists|i: int| 0 <= i < gs.len() && (#[trigger] gs[i]).name == g.name;
            &&& before is Some ==> after == before
            &&& before is None && own is Some ==> after == own
            &&& before is None && own is None && taken ==> after == Some(
                ConfigFault::DuplicateGateway { gateway: g.name },
            )
            &&& before is None && own is None && !taken ==> after is None
        }),
{
    assert(gs.push(g).drop_last() =~= gs);
}

/// One more gateway: a fault among the earlier ones stays the one that is
/// reported; then that its mark cannot be read, that its mark is taken, and that
/// its table is.
pub proof fn one_more_to_tell_apart(gs: Seq<GatewayModel>, g: GatewayModel, i: int)
    ensures
        v1alpha1::routing_fault(Seq::empty()) is None,
        ({
            let before = v1alpha1::routing_fault(gs);
            let after = v1alpha1::routing_fault(gs.push(g));
            let mark = v1alpha1::mark_of(g);
            let table = v1alpha1::table_of(g);
            let same_mark = 0 <= i < gs.len() && mark is Some && v1alpha1::mark_of(gs[i]) == mark;
            let same_table = 0 <= i < gs.len() && v1alpha1::table_of(gs[i]) == table;
            let other_mark = forall|j: int|
                0 <= j < gs.len() ==> v1alpha1::mark_of(#[trigger] gs[j]) != mark;
            let other_table = forall|j: int|
                0 <= j < gs.len() ==> v1alpha1::table_of(#[trigger] gs[j]) != table;
            &&& before is Some ==> after == before
            &&& before is None && mark is None ==> after == Some(
                ConfigFault::BadMark { gateway: g.name, mark: g.mark->0 },
            )
            &&& before is None && same_mark ==> after == Some(
                ConfigFault::SameMark { first: gs[i].name, second: g.name, mark: mark->0 },
            )
            &&& before is None && mark is Some && other_mark && same_table ==> after == Some(
                ConfigFault::SameTable { first: gs[i].name, second: g.name, table },
            )
            &&& before is None && mark is Some && other_mark && other_table ==> after is None
        }),
{
    assert(gs.push(g).drop_last() =~= gs);
    if v1alpha1::routing_fault(gs) is None {
        v1alpha1::laws::routing_is_checked(gs);
        let table = v1alpha1::table_of(g);
        if v1alpha1::mark_of(g) is Some {
            let mark = v1alpha1::mark_of(g)->0;
            lemma_mark_holder(gs, mark);
            if 0 <= i < gs.len() && v1alpha1::mark_of(gs[i]) == Some(mark) {
                lemma_held_mark(gs, mark, i);
            }
        }
        lemma_table_holder(gs, table);
        if 0 <= i < gs.len() && v1alpha1::table_of(gs[i]) == table {
            lemma_held_table(gs, table, i);
        }
    }
}

/// A mark that one gateway has, and no later one, is held by that one.
proof fn lemma_held_mark(gs: Seq<GatewayModel>, mark: u32, i: int)
    requires
        0 <= i < gs.len(),
        v1alpha1::mark_of(gs[i]) == Some(mark),
        forall|j: int| i < j < gs.len() ==> v1alpha1::mark_of(#[trigger] gs[j]) != Some(mark),
    ensures
        v1alpha1::mark_holder(gs, mark) == Some(gs[i].name),
    decreases gs.len(),
{
    let before = gs.drop_last();
    assert(gs[gs.len() - 1] == gs.last());
    if i < gs.len() - 1 {
        assert(before[i] == gs[i]);
        assert forall|j: int| i < j < before.len() implies v1alpha1::mark_of(
            #[trigger] before[j],
        ) != Some(mark) by {
            assert(before[j] == gs[j]);
        }
        lemma_held_mark(before, mark, i);
    }
}

/// A table that one gateway has, and no later one, is held by that one.
proof fn lemma_held_table(gs: Seq<GatewayModel>, table: u32, i: int)
    requires
        0 <= i < gs.len(),
        v1alpha1::table_of(gs[i]) == table,
        forall|j: int| i < j < gs.len() ==> v1alpha1::table_of(#[trigger] gs[j]) != table,
    ensures
        v1alpha1::table_holder(gs, table) == Some(gs[i].name),
    decreases gs.len(),
{
    let before = gs.drop_last();
    assert(gs[gs.len() - 1] == gs.last());
    if i < gs.len() - 1 {
        assert(before[i] == gs[i]);
        assert forall|j: int| i < j < before.len() implies v1alpha1::table_of(
            #[trigger] before[j],
        ) != table by {
            assert(before[j] == gs[j]);
        }
        lemma_held_table(before, table, i);
    }
}

/// A set of gateways is checked one by one first, then for more than one default,
/// then for marks and tables.
pub proof fn sets_are_checked_in_order(gs: Seq<GatewayModel>, g: GatewayModel)
    ensures
        v1alpha1::listing_fault(gs) is Some ==> v1alpha1::gateways_fault(gs)
            == v1alpha1::listing_fault(gs),
        v1alpha1::listing_fault(gs) is None && v1alpha1::default_count(gs) >= 2
            ==> v1alpha1::gateways_fault(gs) == Some(ConfigFault::ManyDefaults),
        v1alpha1::listing_fault(gs) is None && v1alpha1::default_count(gs) < 2
            ==> v1alpha1::gateways_fault(gs) == v1alpha1::routing_fault(gs),
        v1alpha1::default_count(Seq::empty()) == 0,
        g.default ==> v1alpha1::default_count(gs.push(g)) == v1alpha1::default_count(gs) + 1,
        !g.default ==> v1alpha1::default_count(gs.push(g)) == v1alpha1::default_count(gs),
{
    assert(gs.push(g).drop_last() =~= gs);
}

} // verus!
