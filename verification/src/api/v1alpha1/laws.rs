//! What holds of gateways, labels and selectors.

use vstd::prelude::*;

use crate::api::v1alpha1;
use crate::api::v1alpha1::{EgressModel, GatewayModel};
use crate::seqs;
use crate::text;

verus! {

// ---------------------------------------------------------------------------
// Marks and tables

/// What is derived from a name lies in a range of its own: the mark in 16 bits
/// and never zero, the routing table from 5000 to 5999.
pub proof fn derived_values_in_range(name: Seq<char>)
    ensures
        0x1000 <= v1alpha1::auto_mark_of(name) <= 0xFFFF,
        5000 <= v1alpha1::auto_table_of(name) <= 5999,
{
}

/// A mark that was written reads back, in hexadecimal after `0x` and in decimal.
pub proof fn mark_reads_back(mark: u32)
    ensures
        v1alpha1::mark_named(text::hex_text(mark as nat)) == Some(mark),
        v1alpha1::mark_named(text::decimal_text(mark as nat)) == Some(mark),
{
    let n = mark as nat;
    text::number_reads_back(n, 16, u32::MAX as nat);
    text::number_reads_back(n, 10, u32::MAX as nat);
    let digits = text::number_text(n, 16);
    let h = text::hex_text(n);
    reveal_strlit("0x");
    assert(h[0] == '0' && h[1] == 'x');
    assert(h.last() == digits.last());
    text::number_text_ends(n, 16);
    text::trim_keeps(h);
    assert(h.skip(2) =~= digits);
    let d = text::decimal_text(n);
    text::number_text_digits(n);
    if d.len() >= 2 {
        assert(d[1] != 'x');
    }
}

/// A gateway without a mark or a table of its own has those of its name, so they
/// stay the same whatever else changes.
pub proof fn derived_values_depend_on_the_name(a: GatewayModel, b: GatewayModel)
    requires
        a.name == b.name,
    ensures
        a.mark is None && b.mark is None ==> v1alpha1::mark_of(a) == v1alpha1::mark_of(b),
        a.table is None && b.table is None ==> v1alpha1::table_of(a) == v1alpha1::table_of(b),
{
}

/// A gateway is valid exactly where it has one kind of egress, a mark that reads
/// as a number other than zero, a table other than zero, an interface name that
/// is one, a next hop that is an address, local subnets that are networks, and
/// no empty selector.
pub proof fn valid_gateway(g: GatewayModel)
    ensures
        v1alpha1::gateway_fault(g) is None <==> {
            &&& v1alpha1::egress_kinds(g.egress) == 1
            &&& v1alpha1::mark_of(g) is Some
            &&& v1alpha1::mark_of(g) != Some(0u32)
            &&& v1alpha1::table_of(g) != 0
            &&& g.egress.interface is Some ==> v1alpha1::interface_name(g.egress.interface->0)
            &&& g.egress.next_hop is Some ==> crate::net::ip_named(g.egress.next_hop->0) is Some
            &&& forall|i: int|
                0 <= i < g.local_subnets.len() ==> crate::net::network_named(
                    #[trigger] g.local_subnets[i],
                ) is Some
            &&& !g.members.contains(Map::<Seq<char>, Seq<char>>::empty())
        },
{
    derived_values_in_range(g.name);
    let subnets = v1alpha1::subnets_named(g.local_subnets);
    let bad = |s: Result<crate::net::Network, Seq<char>>| s is Err;
    seqs::lemma_first_where(subnets, bad);
    assert forall|i: int| 0 <= i < g.local_subnets.len() implies bad(#[trigger] subnets[i])
        == (crate::net::network_named(g.local_subnets[i]) is None) by {}
    if seqs::first_where(subnets, bad) is Some {
        let i = seqs::first_where(subnets, bad)->0;
        assert(bad(subnets[i]));
        assert(crate::net::network_named(g.local_subnets[i]) is None);
    } else {
        assert forall|i: int| 0 <= i < g.local_subnets.len() implies crate::net::network_named(
            #[trigger] g.local_subnets[i],
        ) is Some by {
            assert(!bad(subnets[i]));
        }
    }
}

/// A gateway needs no number: a name and a container as its egress are enough.
pub proof fn name_and_egress_are_enough(g: GatewayModel)
    requires
        g.egress.container is Some,
        g.egress.interface is None,
        g.egress.next_hop is None,
        g.mark is None,
        g.table is None,
        g.local_subnets.len() == 0,
        g.members.len() == 0,
    ensures
        v1alpha1::gateway_fault(g) is None,
        !(g.snat is Some) ==> !v1alpha1::snat_of(g),
        v1alpha1::local_subnets_of(g) == v1alpha1::default_local_subnets(),
{
    valid_gateway(g);
}

// ---------------------------------------------------------------------------
// Sets of gateways

/// A mark has a holder exactly where some gateway has it.
proof fn lemma_mark_holder(gs: Seq<GatewayModel>, mark: u32)
    ensures
        v1alpha1::mark_holder(gs, mark) is Some <==> exists|i: int|
            0 <= i < gs.len() && v1alpha1::mark_of(#[trigger] gs[i]) == Some(mark),
    decreases gs.len(),
{
    if gs.len() > 0 {
        let before = gs.drop_last();
        lemma_mark_holder(before, mark);
        if exists|i: int|
            0 <= i < before.len() && v1alpha1::mark_of(#[trigger] before[i]) == Some(mark) {
            let i = choose|i: int|
                0 <= i < before.len() && v1alpha1::mark_of(#[trigger] before[i]) == Some(mark);
            assert(v1alpha1::mark_of(gs[i]) == Some(mark));
        }
        if exists|i: int| 0 <= i < gs.len() && v1alpha1::mark_of(#[trigger] gs[i]) == Some(mark) {
            let i = choose|i: int|
                0 <= i < gs.len() && v1alpha1::mark_of(#[trigger] gs[i]) == Some(mark);
            if i < before.len() {
                assert(v1alpha1::mark_of(before[i]) == Some(mark));
            }
        }
        assert(gs[gs.len() - 1] == gs.last());
    }
}

/// A table has a holder exactly where some gateway has it.
proof fn lemma_table_holder(gs: Seq<GatewayModel>, table: u32)
    ensures
        v1alpha1::table_holder(gs, table) is Some <==> exists|i: int|
            0 <= i < gs.len() && v1alpha1::table_of(#[trigger] gs[i]) == table,
    decreases gs.len(),
{
    if gs.len() > 0 {
        let before = gs.drop_last();
        lemma_table_holder(before, table);
        if exists|i: int| 0 <= i < before.len() && v1alpha1::table_of(#[trigger] before[i]) == table {
            let i = choose|i: int|
                0 <= i < before.len() && v1alpha1::table_of(#[trigger] before[i]) == table;
            assert(v1alpha1::table_of(gs[i]) == table);
        }
        if exists|i: int| 0 <= i < gs.len() && v1alpha1::table_of(#[trigger] gs[i]) == table {
            let i = choose|i: int|
                0 <= i < gs.len() && v1alpha1::table_of(#[trigger] gs[i]) == table;
            if i < before.len() {
                assert(v1alpha1::table_of(before[i]) == table);
            }
        }
        assert(gs[gs.len() - 1] == gs.last());
    }
}

/// Whether gateways can be told apart: each has a mark that reads as a number,
/// and no two have one mark or one routing table.
pub open spec fn told_apart(gs: Seq<GatewayModel>) -> bool {
    &&& forall|i: int| 0 <= i < gs.len() ==> v1alpha1::mark_of(#[trigger] gs[i]) is Some
    &&& forall|i: int, j: int|
        0 <= i < j < gs.len() ==> v1alpha1::mark_of(#[trigger] gs[i]) != v1alpha1::mark_of(
            #[trigger] gs[j],
        ) && v1alpha1::table_of(gs[i]) != v1alpha1::table_of(gs[j])
}

/// The check of marks and tables finds nothing exactly where the gateways can be
/// told apart. So no two gateways that pass it could send the members of one out
/// of the egress of the other.
pub proof fn routing_is_checked(gs: Seq<GatewayModel>)
    ensures
        v1alpha1::routing_fault(gs) is None <==> told_apart(gs),
    decreases gs.len(),
{
    if gs.len() > 0 {
        let before = gs.drop_last();
        let g = gs.last();
        let n = gs.len() - 1;
        routing_is_checked(before);
        assert(gs[n] == g);
        assert forall|i: int| 0 <= i < n implies #[trigger] before[i] == gs[i] by {}
        if told_apart(gs) {
            assert(told_apart(before));
            let mark = v1alpha1::mark_of(g)->0;
            lemma_mark_holder(before, mark);
            lemma_table_holder(before, v1alpha1::table_of(g));
            if v1alpha1::mark_holder(before, mark) is Some {
                let i = choose|i: int|
                    0 <= i < before.len() && v1alpha1::mark_of(#[trigger] before[i]) == Some(mark);
                assert(v1alpha1::mark_of(gs[i]) != v1alpha1::mark_of(gs[n]));
            }
            if v1alpha1::table_holder(before, v1alpha1::table_of(g)) is Some {
                let i = choose|i: int|
                    0 <= i < before.len() && v1alpha1::table_of(#[trigger] before[i])
                        == v1alpha1::table_of(g);
                assert(v1alpha1::table_of(gs[i]) != v1alpha1::table_of(gs[n]));
            }
        }
        if v1alpha1::routing_fault(gs) is None {
            let mark = v1alpha1::mark_of(g)->0;
            lemma_mark_holder(before, mark);
            lemma_table_holder(before, v1alpha1::table_of(g));
            assert forall|i: int| 0 <= i < gs.len() implies v1alpha1::mark_of(
                #[trigger] gs[i],
            ) is Some by {
                if i < n {
                    assert(v1alpha1::mark_of(before[i]) is Some);
                }
            }
            assert forall|i: int, j: int| 0 <= i < j < gs.len() implies v1alpha1::mark_of(
                #[trigger] gs[i],
            ) != v1alpha1::mark_of(#[trigger] gs[j]) && v1alpha1::table_of(gs[i])
                != v1alpha1::table_of(gs[j]) by {
                assert(before[i] == gs[i]);
                if j < n {
                    assert(before[j] == gs[j]);
                }
            }
        }
    }
}

/// Whether no two gateways have one name.
pub open spec fn names_distinct(gs: Seq<GatewayModel>) -> bool {
    forall|i: int, j: int|
        0 <= i < j < gs.len() ==> (#[trigger] gs[i]).name != (#[trigger] gs[j]).name
}

/// The check of the single gateways finds nothing exactly where each is valid
/// and no two have one name.
pub proof fn listing_is_checked(gs: Seq<GatewayModel>)
    ensures
        v1alpha1::listing_fault(gs) is None <==> {
            &&& forall|i: int|
                0 <= i < gs.len() ==> v1alpha1::gateway_fault(#[trigger] gs[i]) is None
            &&& names_distinct(gs)
        },
    decreases gs.len(),
{
    if gs.len() > 0 {
        let before = gs.drop_last();
        let g = gs.last();
        let n = gs.len() - 1;
        listing_is_checked(before);
        assert(gs[n] == g);
        assert forall|i: int| 0 <= i < n implies #[trigger] before[i] == gs[i] by {}
        if v1alpha1::listing_fault(gs) is None {
            assert forall|i: int| 0 <= i < gs.len() implies v1alpha1::gateway_fault(
                #[trigger] gs[i],
            ) is None by {
                if i < n {
                    assert(before[i] == gs[i]);
                }
            }
            assert forall|i: int, j: int| 0 <= i < j < gs.len() implies (#[trigger] gs[i]).name != (
            #[trigger] gs[j]).name by {
                assert(before[i] == gs[i]);
                if j < n {
                    assert(before[j] == gs[j]);
                }
            }
        } else if (forall|i: int|
            0 <= i < gs.len() ==> v1alpha1::gateway_fault(#[trigger] gs[i]) is None)
            && names_distinct(gs) {
            assert forall|i: int| 0 <= i < n implies v1alpha1::gateway_fault(
                #[trigger] before[i],
            ) is None by {
                assert(before[i] == gs[i]);
            }
            assert(names_distinct(before));
            if v1alpha1::has_name(before, g.name) {
                let i = choose|i: int| 0 <= i < before.len() && (#[trigger] before[i]).name == g.name;
                assert(gs[i].name != gs[n].name);
            }
            assert(v1alpha1::gateway_fault(gs[n]) is None);
        }
    }
}

/// A set of gateways is valid exactly where each gateway is valid, no two have
/// one name, at most one is the default, and they can be told apart.
pub proof fn valid_set(gs: Seq<GatewayModel>)
    ensures
        v1alpha1::gateways_fault(gs) is None <==> {
            &&& forall|i: int|
                0 <= i < gs.len() ==> v1alpha1::gateway_fault(#[trigger] gs[i]) is None
            &&& names_distinct(gs)
            &&& v1alpha1::default_count(gs) <= 1
            &&& told_apart(gs)
        },
{
    listing_is_checked(gs);
    routing_is_checked(gs);
}

/// Gateways without marks and tables of their own are valid together only where
/// no two names lead to the same mark or table.
pub proof fn colliding_names_are_rejected(gs: Seq<GatewayModel>, i: int, j: int)
    requires
        0 <= i < j < gs.len(),
        gs[i].table is None,
        gs[j].table is None,
        v1alpha1::auto_table_of(gs[i].name) == v1alpha1::auto_table_of(gs[j].name),
    ensures
        v1alpha1::gateways_fault(gs) is Some,
{
    valid_set(gs);
    assert(v1alpha1::table_of(gs[i]) == v1alpha1::table_of(gs[j]));
}

// ---------------------------------------------------------------------------
// Resolving

/// A name resolves exactly where a gateway has it, and to one that has it.
pub proof fn name_resolves(gs: Seq<GatewayModel>, name: Seq<char>)
    ensures
        v1alpha1::resolved(gs, Some(name)) is Some <==> v1alpha1::has_name(gs, name),
        match v1alpha1::resolved(gs, Some(name)) {
            Some(i) => 0 <= i < gs.len() && gs[i].name == name,
            None => true,
        },
{
    let p = v1alpha1::named(name);
    seqs::lemma_first_where(gs, p);
    match seqs::first_where(gs, p) {
        Some(i) => {
            assert(p(gs[i]));
        },
        None => {
            assert forall|i: int| 0 <= i < gs.len() implies (#[trigger] gs[i]).name != name by {
                assert(!p(gs[i]));
            }
        },
    }
}

/// Where no name is given, the default gateway is resolved; where there is none,
/// the only gateway; and otherwise nothing.
pub proof fn default_resolves(gs: Seq<GatewayModel>)
    ensures
        match v1alpha1::resolved(gs, None) {
            Some(i) => 0 <= i < gs.len() && (gs[i].default || gs.len() == 1),
            None => gs.len() != 1 && forall|i: int|
                0 <= i < gs.len() ==> !(#[trigger] gs[i]).default,
        },
        gs.len() == 1 ==> v1alpha1::resolved(gs, None) == Some(0int),
{
    let p = v1alpha1::is_default();
    seqs::lemma_first_where(gs, p);
    match seqs::first_where(gs, p) {
        Some(i) => {
            assert(p(gs[i]));
        },
        None => {
            assert forall|i: int| 0 <= i < gs.len() implies !(#[trigger] gs[i]).default by {
                assert(!p(gs[i]));
            }
        },
    }
}

// ---------------------------------------------------------------------------
// Selectors

/// An empty selector matches no container.
pub proof fn empty_selector_matches_nothing(labels: Map<Seq<char>, Seq<char>>)
    ensures
        !v1alpha1::selects(Map::empty(), labels),
{
}

/// A selector with one more label matches exactly the containers that the
/// smaller one matches and that carry the label with the value.
pub proof fn all_labels_must_match(
    selector: Map<Seq<char>, Seq<char>>,
    key: Seq<char>,
    value: Seq<char>,
    labels: Map<Seq<char>, Seq<char>>,
)
    requires
        selector != Map::<Seq<char>, Seq<char>>::empty(),
        !selector.dom().contains(key),
    ensures
        v1alpha1::selects(selector.insert(key, value), labels) <==> v1alpha1::selects(
            selector,
            labels,
        ) && v1alpha1::label_of(labels, key) == Some(value),
{
    let more = selector.insert(key, value);
    assert(more.dom().contains(key));
    assert(more != Map::<Seq<char>, Seq<char>>::empty());
    if v1alpha1::selects(more, labels) {
        assert forall|k: Seq<char>| #[trigger]
            selector.dom().contains(k) implies v1alpha1::label_of(labels, k) == Some(
            selector[k],
        ) by {
            assert(more.dom().contains(k));
        }
    }
    if v1alpha1::selects(selector, labels) && v1alpha1::label_of(labels, key) == Some(value) {
        assert forall|k: Seq<char>| #[trigger] more.dom().contains(k) implies v1alpha1::label_of(
            labels,
            k,
        ) == Some(more[k]) by {
            if k != key {
                assert(selector.dom().contains(k));
            }
        }
    }
}

/// A container that a selector matches is still matched when it gets a label
/// that the selector does not list.
pub proof fn other_labels_do_not_matter(
    selector: Map<Seq<char>, Seq<char>>,
    labels: Map<Seq<char>, Seq<char>>,
    key: Seq<char>,
    value: Seq<char>,
)
    requires
        !selector.dom().contains(key),
    ensures
        v1alpha1::selects(selector, labels.insert(key, value)) == v1alpha1::selects(
            selector,
            labels,
        ),
{
    let more = labels.insert(key, value);
    assert forall|k: Seq<char>| #[trigger] selector.dom().contains(k) implies v1alpha1::label_of(
        more,
        k,
    ) == v1alpha1::label_of(labels, k) by {}
}

// ---------------------------------------------------------------------------
// Opting in and declaring

/// A container opts in exactly where its `enable` label is `true`, and then
/// names the gateway of its `via` label.
pub proof fn opt_in_is_explicit(prefix: Seq<char>, labels: Map<Seq<char>, Seq<char>>)
    ensures
        v1alpha1::opt_in_of(prefix, labels) is Some <==> v1alpha1::label_of(
            labels,
            prefix + ".enable"@,
        ) == Some("true"@),
        v1alpha1::opt_in_of(prefix, labels) is Some ==> v1alpha1::opt_in_of(prefix, labels)->0
            == v1alpha1::label_of(labels, prefix + ".via"@),
{
}

/// A gateway that a container declares is valid, has the name and the container
/// that were given, and leaves by that container alone.
pub proof fn declared_gateway_is_valid(
    prefix: Seq<char>,
    name: Seq<char>,
    container: Seq<char>,
    labels: Map<Seq<char>, Seq<char>>,
)
    ensures
        match v1alpha1::discovered_of(prefix, name, container, labels) {
            Ok(g) => {
                &&& v1alpha1::gateway_fault(g) is None
                &&& g.name == name
                &&& g.egress == (EgressModel {
                    interface: None,
                    container: Some(container),
                    next_hop: None,
                })
            },
            Err(_) => true,
        },
{
}

/// A gateway is declared exactly where each of its knobs is well-formed: `snat`
/// and `default`, if set, are flags, `table` is a number, `members` is a list of
/// pairs, and what the labels say is valid. Anything else is an error.
pub proof fn malformed_declaration_is_an_error(
    prefix: Seq<char>,
    name: Seq<char>,
    container: Seq<char>,
    labels: Map<Seq<char>, Seq<char>>,
)
    ensures
        v1alpha1::discovered_of(prefix, name, container, labels) is Ok <==> {
            &&& v1alpha1::flag_or_unset(v1alpha1::knob_of(prefix, labels, "snat"@))
            &&& match v1alpha1::knob_of(prefix, labels, "table"@) {
                Some(t) => text::number_value(t, 10, u32::MAX as nat) is Ok,
                None => true,
            }
            &&& v1alpha1::flag_or_unset(v1alpha1::knob_of(prefix, labels, "default"@))
            &&& match v1alpha1::knob_of(prefix, labels, "members"@) {
                Some(s) => v1alpha1::all_pairs(text::pieces(s, ',')),
                None => true,
            }
            &&& v1alpha1::gateway_fault(
                v1alpha1::declared_of(prefix, name, container, labels)->Ok_0,
            ) is None
        },
{
}

} // verus!
