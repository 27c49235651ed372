//! What the script lists: no two scripts are the same that list other addresses.

use vstd::prelude::*;

use crate::api::v1alpha1;
use crate::enforce;
use crate::enforce::laws;
use crate::enforce::nft;
use crate::enforce::nft::RuleSourceModel;
use crate::net;
use crate::net::IpAddr;
use crate::ordered;
use crate::plan::PlanModel;
use crate::text;

verus! {

/// What the first gateways add comes first.
proof fn lemma_gathered_first(
    gs: Seq<RuleSourceModel>,
    one: spec_fn(RuleSourceModel) -> Seq<char>,
    n: int,
)
    requires
        0 <= n <= gs.len(),
    ensures
        nft::gathered(gs.take(n), one).is_prefix_of(nft::gathered(gs, one)),
    decreases gs.len() - n,
{
    if n < gs.len() {
        lemma_gathered_first(gs.drop_last(), one, n);
        assert(gs.drop_last().take(n) =~= gs.take(n));
        let a = nft::gathered(gs.take(n), one);
        let b = nft::gathered(gs.drop_last(), one);
        let c = nft::gathered(gs, one);
        assert(c == b + one(gs.last()));
        assert forall|i: int| 0 <= i < a.len() implies a[i] == c[i] by {
            assert(a[i] == b[i]);
        }
        assert(a =~= c.subrange(0, a.len() as int));
    } else {
        assert(gs.take(n) =~= gs);
        let c = nft::gathered(gs, one);
        assert(c =~= c.subrange(0, c.len() as int));
    }
}

/// What of the script comes before the elements of the set of a gateway's IPv4
/// members: the sets of the gateways before it, and the start of its own.
spec fn before_elements(earlier: Seq<RuleSourceModel>, g: RuleSourceModel) -> Seq<char> {
    "add table inet degc\ndelete table inet degc\ntable inet degc {\n"@ + nft::all_sets(earlier)
        + "    set "@ + nft::via_name(g) + " {\n        type "@ + "ipv4_addr"@ + "\n"@
}

/// The elements of a set, and its end.
spec fn elements(elems: Seq<Seq<char>>) -> Seq<char> {
    (if elems.len() > 0 {
        "        elements = { "@ + text::joined(elems, ", "@) + " }\n"@
    } else {
        Seq::empty()
    }) + "    }\n"@
}

/// What stands before the elements, and they, are the start of the sets.
proof fn lemma_set_start(
    head: Seq<char>,
    earlier: Seq<char>,
    a: Seq<char>,
    b: Seq<char>,
    c: Seq<char>,
    d: Seq<char>,
    e: Seq<char>,
    listed: Seq<char>,
    end: Seq<char>,
)
    ensures
        head + earlier + a + b + c + d + e + (listed + end) == head + earlier + (a + b + c + d + e
            + Seq::empty() + listed + end),
{
    assert(head + earlier + a + b + c + d + e + (listed + end) =~= head + earlier + (a + b + c + d
        + e + Seq::empty() + listed + end));
}

/// The start of a part is the start of the whole, where what comes before it is
/// there as well.
proof fn lemma_starts(
    head: Seq<char>,
    earlier: Seq<char>,
    set: Seq<char>,
    x: Seq<char>,
    y: Seq<char>,
    sets: Seq<char>,
    all: Seq<char>,
    tail: Seq<char>,
)
    requires
        sets == earlier + (set + x + y),
        sets.is_prefix_of(all),
    ensures
        (head + earlier + set).is_prefix_of(head + all + tail),
{
    let start = head + earlier + set;
    let whole = head + all + tail;
    assert forall|i: int| 0 <= i < start.len() implies start[i] == whole[i] by {
        if i >= head.len() {
            assert(sets[i - head.len()] == all[i - head.len()]);
        }
    }
    assert(start =~= whole.subrange(0, start.len() as int));
}

/// The script is its head, the sets of all gateways, and the rest.
proof fn lemma_script_head(
    a: Seq<char>,
    b: Seq<char>,
    c: Seq<char>,
    d: Seq<char>,
    e: Seq<char>,
    f: Seq<char>,
    g: Seq<char>,
    h: Seq<char>,
    i: Seq<char>,
)
    ensures
        a + b + c + d + e + f + g + h + i == a + b + (c + d + e + f + g + h + i),
{
    assert(a + b + c + d + e + f + g + h + i =~= a + b + (c + d + e + f + g + h + i));
}

/// Where the script comes to the set of a gateway's IPv4 members, it lists them.
proof fn lemma_script_lists(gs: Seq<RuleSourceModel>, k: int)
    requires
        0 <= k < gs.len(),
    ensures
        (before_elements(gs.take(k), gs[k]) + elements(gs[k].members4)).is_prefix_of(
            nft::script_of(gs),
        ),
{
    let one = |g: RuleSourceModel| nft::gateway_sets(g);
    lemma_gathered_first(gs, one, k + 1);
    assert(gs.take(k + 1).drop_last() == gs.take(k));
    assert(gs.take(k + 1).last() == gs[k]);
    let g = gs[k];
    let head = "add table inet degc\ndelete table inet degc\ntable inet degc {\n"@;
    let mark_head =
        "    chain degc_mark {\n        type filter hook prerouting priority mangle; policy accept;\n"@;
    let kill_head =
        "    chain degc_killswitch {\n        type filter hook forward priority filter; policy accept;\n"@;
    let tail = mark_head + nft::all_marks(gs) + "    }\n"@ + nft::snat_chain(nft::all_snats(gs))
        + kill_head + nft::all_kills(gs) + "    }\n}\n"@;
    let listed = if g.members4.len() > 0 {
        "        elements = { "@ + text::joined(g.members4, ", "@) + " }\n"@
    } else {
        Seq::empty()
    };
    let set4 = nft::set_text(nft::via_name(g), "ipv4_addr"@, false, g.members4);
    let rest = if g.members6.len() > 0 {
        nft::set_text(nft::via6_name(g), "ipv6_addr"@, false, g.members6) + nft::exclusion_set(
            nft::local6_name(g),
            "ipv6_addr"@,
            g.locals6,
        )
    } else {
        Seq::empty()
    };
    lemma_script_head(
        head,
        nft::all_sets(gs),
        mark_head,
        nft::all_marks(gs),
        "    }\n"@,
        nft::snat_chain(nft::all_snats(gs)),
        kill_head,
        nft::all_kills(gs),
        "    }\n}\n"@,
    );
    lemma_set_start(
        head,
        nft::all_sets(gs.take(k)),
        "    set "@,
        nft::via_name(g),
        " {\n        type "@,
        "ipv4_addr"@,
        "\n"@,
        listed,
        "    }\n"@,
    );
    lemma_starts(
        head,
        nft::all_sets(gs.take(k)),
        set4,
        nft::exclusion_set(nft::local_name(g), "ipv4_addr"@, g.locals4),
        rest,
        nft::gathered(gs.take(k + 1), one),
        nft::all_sets(gs),
        tail,
    );
}

/// Two lists of elements that a text may start with are the same, where they
/// are made of digits and dots.
proof fn lemma_same_elements(s: Seq<char>, a: Seq<Seq<char>>, b: Seq<Seq<char>>)
    requires
        elements(a).is_prefix_of(s),
        elements(b).is_prefix_of(s),
        forall|i: int|
            0 <= i < a.len() ==> !(#[trigger] a[i]).contains(',') && !a[i].contains('}'),
        forall|i: int|
            0 <= i < b.len() ==> !(#[trigger] b[i]).contains(',') && !b[i].contains('}'),
    ensures
        a == b,
{
    reveal_strlit("        elements = { ");
    reveal_strlit(" }\n");
    reveal_strlit("    }\n");
    reveal_strlit(", ");
    let open = "        elements = { "@;
    if a.len() == 0 {
        assert(elements(a)[4] == '}');
        assert(s[4] == '}');
        if b.len() > 0 {
            assert(elements(b)[4] == ' ');
            assert(s[4] == ' ');
        }
        assert(a =~= b);
    } else if b.len() == 0 {
        assert(elements(b)[4] == '}');
        assert(s[4] == '}');
        assert(elements(a)[4] == ' ');
        assert(s[4] == ' ');
    } else {
        let x = text::joined(a, ", "@);
        let y = text::joined(b, ", "@);
        let rest = s.skip(open.len() as int);
        lemma_joined_without(a, ", "@, '}');
        lemma_joined_without(b, ", "@, '}');
        lemma_listed(s, a);
        lemma_listed(s, b);
        text::lemma_same_start(rest, x.push(' '), y.push(' '), '}');
        assert(x =~= x.push(' ').drop_last());
        assert(y =~= y.push(' ').drop_last());
        text::joined_once(a, b, ", "@);
    }
}

/// A text that starts with elements goes on, after the words before them, with
/// the elements and a bracket.
proof fn lemma_listed(s: Seq<char>, a: Seq<Seq<char>>)
    requires
        a.len() > 0,
        elements(a).is_prefix_of(s),
    ensures
        text::joined(a, ", "@).push(' ').push('}').is_prefix_of(
            s.skip("        elements = { "@.len() as int),
        ),
{
    reveal_strlit(" }\n");
    let open = "        elements = { "@;
    let x = text::joined(a, ", "@);
    let e = elements(a);
    let start = x.push(' ').push('}');
    assert(e =~= open + start + "\n    }\n"@) by {
        reveal_strlit("\n    }\n");
        reveal_strlit("    }\n");
    }
    let rest = s.skip(open.len() as int);
    assert forall|i: int| 0 <= i < start.len() implies start[i] == rest[i] by {
        assert(e[open.len() + i] == start[i]);
        assert(s[open.len() + i] == e[open.len() + i]);
    }
    assert(start =~= rest.subrange(0, start.len() as int));
}

/// A character that is in no part, and not in what stands between them, is not
/// in the whole.
proof fn lemma_joined_without(parts: Seq<Seq<char>>, sep: Seq<char>, c: char)
    requires
        !sep.contains(c),
        forall|i: int| 0 <= i < parts.len() ==> !(#[trigger] parts[i]).contains(c),
    ensures
        !text::joined(parts, sep).contains(c),
    decreases parts.len(),
{
    if parts.len() > 1 {
        let fewer = parts.drop_last();
        assert forall|i: int| 0 <= i < fewer.len() implies !(#[trigger] fewer[i]).contains(c) by {
            assert(fewer[i] == parts[i]);
        }
        lemma_joined_without(fewer, sep, c);
        let x = text::joined(fewer, sep);
        let last = parts[parts.len() - 1];
        let s = text::joined(parts, sep);
        assert(s == x + sep + last);
        if s.contains(c) {
            let i = choose|i: int| 0 <= i < s.len() && s[i] == c;
            if i < x.len() {
                assert(x.contains(x[i]));
            } else if i < x.len() + sep.len() {
                assert(sep.contains(sep[i - x.len()]));
            } else {
                assert(last.contains(last[i - x.len() - sep.len()]));
            }
        }
    }
}

/// The texts of IPv4 addresses hold neither commas nor brackets, and each is the
/// text of one of the addresses.
proof fn lemma_member_texts(ips: Seq<IpAddr>)
    ensures
        forall|i: int|
            0 <= i < nft::member_texts(ips, true).len() ==> {
                let t = #[trigger] nft::member_texts(ips, true)[i];
                !t.contains(',') && !t.contains('}')
            },
        forall|i: int|
            0 <= i < nft::member_texts(ips, true).len() ==> exists|k: int|
                0 <= k < ips.len() && (#[trigger] ips[k]) is V4 && net::ip_text(ips[k])
                    == #[trigger] nft::member_texts(ips, true)[i],
    decreases ips.len(),
{
    if ips.len() > 0 {
        let before = ips.drop_last();
        lemma_member_texts(before);
        let earlier = nft::member_texts(before, true);
        let all = nft::member_texts(ips, true);
        let n = ips.len() - 1;
        if ips[n] is V4 {
            let addr = ips[n]->V4_0;
            net::ipv4_text_is_plain(addr);
            let t = net::ipv4_text(addr);
            assert(!t.contains(',') && !t.contains('}'));
        }
        assert forall|i: int| 0 <= i < all.len() implies exists|k: int|
            0 <= k < ips.len() && (#[trigger] ips[k]) is V4 && net::ip_text(ips[k])
                == #[trigger] all[i] by {
            if i < earlier.len() {
                assert(all[i] == earlier[i]);
                let k = choose|k: int|
                    0 <= k < before.len() && (#[trigger] before[k]) is V4 && net::ip_text(before[k])
                        == earlier[i];
                assert(ips[k] == before[k]);
            } else {
                assert(net::ip_text(ips[n]) == all[i]);
            }
        }
        assert forall|i: int| 0 <= i < all.len() implies {
            let t = #[trigger] all[i];
            !t.contains(',') && !t.contains('}')
        } by {
            if i < earlier.len() {
                assert(all[i] == earlier[i]);
            }
        }
    }
}

/// Which IPv4 addresses are routed shows in the script: where the gateways
/// before it are the same, and a gateway has a member address in one plan that
/// it has not in the other, the scripts differ.
pub proof fn routed_addresses_show(before: PlanModel, after: PlanModel, k: int, ip: IpAddr)
    requires
        v1alpha1::routing_fault(enforce::planned(before.gateways)) is None,
        v1alpha1::routing_fault(enforce::planned(after.gateways)) is None,
        0 <= k < before.gateways.len(),
        k < after.gateways.len(),
        before.gateways.take(k) == after.gateways.take(k),
        before.gateways[k].gateway == after.gateways[k].gateway,
        before.gateways[k].members.finite(),
        after.gateways[k].members.finite(),
        ip is V4,
        before.gateways[k].members.contains(ip) != after.gateways[k].members.contains(ip),
    ensures
        enforce::desired_of(before).nft != enforce::desired_of(after).nft,
{
    let ps = before.gateways;
    let qs = after.gateways;
    laws::compiling_succeeds(ps);
    laws::compiling_succeeds(qs);
    laws::rules_are_made_from_the_plan(ps, k);
    laws::rules_are_made_from_the_plan(qs, k);
    let gs = nft::sources_of(ps)->Ok_0;
    let hs = nft::sources_of(qs)->Ok_0;
    assert forall|j: int| 0 <= j < k implies gs[j] == hs[j] by {
        laws::rules_are_made_from_the_plan(ps, j);
        laws::rules_are_made_from_the_plan(qs, j);
        assert(ps.take(k)[j] == ps[j]);
        assert(qs.take(k)[j] == qs[j]);
    }
    assert(gs.take(k) =~= hs.take(k));
    lemma_scripts_differ(gs, hs, k, ps[k].members, qs[k].members, ip);
}

/// Where the gateways before it are the same, other IPv4 addresses give another
/// script.
proof fn lemma_scripts_differ(
    gs: Seq<RuleSourceModel>,
    hs: Seq<RuleSourceModel>,
    k: int,
    a: Set<IpAddr>,
    b: Set<IpAddr>,
    ip: IpAddr,
)
    requires
        0 <= k < gs.len(),
        k < hs.len(),
        gs.take(k) == hs.take(k),
        gs[k].name == hs[k].name,
        gs[k].members4 == nft::member_texts(ordered::sorted_ips(a), true),
        hs[k].members4 == nft::member_texts(ordered::sorted_ips(b), true),
        a.finite(),
        b.finite(),
        ip is V4,
        a.contains(ip) != b.contains(ip),
    ensures
        nft::script_of(gs) != nft::script_of(hs),
{
    let script = nft::script_of(gs);
    if script == nft::script_of(hs) {
        lemma_script_lists(gs, k);
        lemma_script_lists(hs, k);
        let first = before_elements(gs.take(k), gs[k]);
        assert(nft::via_name(gs[k]) == nft::via_name(hs[k]));
        assert(first == before_elements(hs.take(k), hs[k]));
        lemma_rest(script, first, elements(gs[k].members4));
        lemma_rest(script, first, elements(hs[k].members4));
        let xs = ordered::sorted_ips(a);
        let ys = ordered::sorted_ips(b);
        lemma_member_texts(xs);
        lemma_member_texts(ys);
        lemma_same_elements(script.skip(first.len() as int), gs[k].members4, hs[k].members4);
        assert(ordered::strict_order(ordered::by_ip()));
        ordered::finite_sets_sort(a, ordered::by_ip());
        ordered::finite_sets_sort(b, ordered::by_ip());
        if a.contains(ip) {
            lemma_listed_address(xs, ys, ip);
        } else {
            lemma_listed_address(ys, xs, ip);
        }
    }
}

/// What follows a start.
proof fn lemma_rest(s: Seq<char>, first: Seq<char>, then: Seq<char>)
    requires
        (first + then).is_prefix_of(s),
    ensures
        then.is_prefix_of(s.skip(first.len() as int)),
{
    let rest = s.skip(first.len() as int);
    assert forall|i: int| 0 <= i < then.len() implies then[i] == rest[i] by {
        assert((first + then)[first.len() + i] == then[i]);
    }
    assert(then =~= rest.subrange(0, then.len() as int));
}

/// An IPv4 address that is listed is one of those that the list was made from.
proof fn lemma_listed_address(xs: Seq<IpAddr>, ys: Seq<IpAddr>, ip: IpAddr)
    requires
        ip is V4,
        xs.to_set().contains(ip),
        nft::member_texts(xs, true) == nft::member_texts(ys, true),
    ensures
        ys.to_set().contains(ip),
{
    laws::every_member_address_is_covered(xs, ip);
    lemma_member_texts(ys);
    let all = nft::member_texts(ys, true);
    let i = choose|i: int| 0 <= i < all.len() && all[i] == net::ip_text(ip);
    let k = choose|k: int|
        0 <= k < ys.len() && (#[trigger] ys[k]) is V4 && net::ip_text(ys[k]) == all[i];
    net::ipv4_text_once(ip->V4_0, ys[k]->V4_0);
    assert(ys[k] == ip);
    assert(ys.contains(ip));
}

} // verus!
