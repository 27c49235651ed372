//! What is known of a container.

use vstd::prelude::*;

use crate::api::v1alpha1::Labels;
use crate::net::IpAddr;
use crate::ordered;
use crate::ordered::TextMap;

verus! {

/// The label that holds a container's Compose service.
pub const SERVICE_LABEL: &'static str = "com.docker.compose.service";

/// A container: its name, its labels, and its addresses on each network.
#[derive(Debug, PartialEq, Eq)]
pub struct Target {
    /// The container's name.
    pub name: String,
    /// Its labels.
    pub labels: Labels,
    /// Its addresses by network.
    pub networks: TextMap<Vec<IpAddr>>,
}

/// The model of a [`Target`].
pub struct TargetModel {
    /// See [`Target::name`].
    pub name: Seq<char>,
    /// See [`Target::labels`].
    pub labels: Map<Seq<char>, Seq<char>>,
    /// See [`Target::networks`].
    pub networks: Map<Seq<char>, Seq<IpAddr>>,
}

/// The addresses of a map of networks.
pub open spec fn network_map(m: Map<Seq<char>, Vec<IpAddr>>) -> Map<Seq<char>, Seq<IpAddr>> {
    Map::new(|k: Seq<char>| m.dom().contains(k), |k: Seq<char>| m[k]@)
}

impl View for Target {
    type V = TargetModel;

    open spec fn view(&self) -> TargetModel {
        TargetModel {
            name: self.name@,
            labels: ordered::text_map(self.labels@),
            networks: network_map(self.networks@),
        }
    }
}

/// The models of a list of containers.
pub open spec fn models(v: Seq<Target>) -> Seq<TargetModel> {
    v.map_values(|t: Target| t@)
}

/// The addresses on the listed networks, one network after the other.
pub open spec fn addresses_on(
    networks: Map<Seq<char>, Seq<IpAddr>>,
    names: Seq<Seq<char>>,
) -> Seq<IpAddr>
    decreases names.len(),
{
    if names.len() == 0 {
        Seq::empty()
    } else {
        addresses_on(networks, names.drop_last()) + networks[names.last()]
    }
}

/// All addresses of a container, in the order of its networks' names.
pub open spec fn addresses_of(t: TargetModel) -> Seq<IpAddr> {
    addresses_on(t.networks, ordered::sorted_keys(t.networks))
}

/// The addresses of a container's networks, network by network, are those of
/// its model.
proof fn lemma_network_map(m: Map<Seq<char>, Vec<IpAddr>>)
    ensures
        ordered::sorted_keys(network_map(m)) == ordered::sorted_keys(m),
{
    assert(network_map(m).dom() =~= m.dom());
}

impl Target {
    /// All addresses of the container, in the order of its networks' names.
    pub fn addresses(&self) -> (r: Vec<IpAddr>)
        ensures
            r@ == addresses_of(self@),
    {
        let ghost keys = ordered::sorted_keys(self.networks@);
        let mut r: Vec<IpAddr> = Vec::new();
        let n = self.networks.len();
        for i in 0..n
            invariant
                keys == ordered::sorted_keys(self.networks@),
                n == keys.len(),
                keys.to_set() == self.networks@.dom(),
                r@ == addresses_on(self@.networks, keys.take(i as int)),
        {
            let on = self.networks.value_at(i);
            assert(keys.take(i + 1).drop_last() == keys.take(i as int));
            assert(keys.to_set().contains(keys[i as int]));
            let ghost before = r@;
            for j in 0..on.len()
                invariant
                    r@ == before + on@.take(j as int),
            {
                r.push(on[j]);
            }
            assert(on@.take(on@.len() as int) == on@);
        }
        assert(keys.take(n as int) == keys);
        proof {
            lemma_network_map(self.networks@);
        }
        r
    }
}

// ---------------------------------------------------------------------------
// What can be relied on

/// The addresses of a container are those of its networks, all of them and no
/// others.
pub proof fn addresses_are_those_of_the_networks(t: TargetModel, ip: IpAddr)
    requires
        t.networks.dom().finite(),
    ensures
        addresses_of(t).contains(ip) <==> exists|n: Seq<char>|
            t.networks.dom().contains(n) && (#[trigger] t.networks[n]).contains(ip),
{
    ordered::lemma_text_order();
    ordered::finite_sets_sort(t.networks.dom(), ordered::by_text());
    let names = ordered::sorted_keys(t.networks);
    lemma_addresses(t.networks, names, ip);
    if addresses_of(t).contains(ip) {
        let k = choose|k: int|
            0 <= k < names.len() && t.networks[#[trigger] names[k]].contains(ip);
        assert(names.to_set().contains(names[k]));
    }
    if exists|n: Seq<char>|
        t.networks.dom().contains(n) && (#[trigger] t.networks[n]).contains(ip) {
        let n = choose|n: Seq<char>|
            t.networks.dom().contains(n) && (#[trigger] t.networks[n]).contains(ip);
        assert(names.to_set().contains(n));
        let k = choose|k: int| 0 <= k < names.len() && names[k] == n;
        assert(t.networks[names[k]].contains(ip));
    }
}

proof fn lemma_addresses(
    networks: Map<Seq<char>, Seq<IpAddr>>,
    names: Seq<Seq<char>>,
    ip: IpAddr,
)
    ensures
        addresses_on(networks, names).contains(ip) <==> exists|k: int|
            0 <= k < names.len() && networks[#[trigger] names[k]].contains(ip),
    decreases names.len(),
{
    if names.len() > 0 {
        let before = names.drop_last();
        lemma_addresses(networks, before, ip);
        let a = addresses_on(networks, before);
        let b = networks[names.last()];
        let all = addresses_on(networks, names);
        let n = names.len() - 1;
        assert(names[n] == names.last());
        assert(all == a + b);
        if all.contains(ip) {
            let i = choose|i: int| 0 <= i < all.len() && all[i] == ip;
            if i < a.len() {
                assert(a.contains(a[i]));
                let k = choose|k: int|
                    0 <= k < before.len() && networks[#[trigger] before[k]].contains(ip);
                assert(networks[names[k]].contains(ip));
            } else {
                assert(b.contains(b[i - a.len()]));
                assert(networks[names[n]].contains(ip));
            }
        }
        if exists|k: int| 0 <= k < names.len() && networks[#[trigger] names[k]].contains(ip) {
            let k = choose|k: int|
                0 <= k < names.len() && networks[#[trigger] names[k]].contains(ip);
            if k < n {
                assert(networks[before[k]].contains(ip));
                let i = choose|i: int| 0 <= i < a.len() && a[i] == ip;
                assert(all[i] == ip);
            } else {
                let i = choose|i: int| 0 <= i < b.len() && b[i] == ip;
                assert(all[a.len() + i] == ip);
            }
        }
    }
}

/// The addresses on one more network come after those on the networks before;
/// and the networks come in the order of their names.
pub proof fn addresses_in_order(
    networks: Map<Seq<char>, Seq<IpAddr>>,
    names: Seq<Seq<char>>,
    name: Seq<char>,
)
    ensures
        addresses_on(networks, Seq::empty()) == Seq::<IpAddr>::empty(),
        addresses_on(networks, names.push(name)) == addresses_on(networks, names) + networks[name],
        forall|t: TargetModel|
            t.networks == networks ==> #[trigger] addresses_of(t) == addresses_on(
                networks,
                ordered::sorted_keys(networks),
            ),
{
    assert(names.push(name).drop_last() =~= names);
}

} // verus!
