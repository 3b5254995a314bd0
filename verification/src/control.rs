//! The control plane's in-memory model of the virtual fabric. It answers the one
//! question the dataplane asks on every packet it forwards:
//!
//! > "Inside VPC `vni`, for inner destination IP `X`, which underlay node do I
//! > encapsulate toward, and what inner destination MAC do I use?"

use std::collections::HashMap;
use vstd::prelude::*;
use crate::addr::Ipv4Addr;
use crate::ethernet::MacAddr;

verus! {

broadcast use vstd::std_specs::hash::group_hash_axioms;

/// A tenant virtual network, identified by its 24-bit VNI.
#[derive(Debug)]
pub struct Vpc {
    pub vni: u32,
    pub name: String,
    /// The tenant's address space, e.g. 10.0.0.0/24. Stored as (network, prefix_len).
    pub cidr: (Ipv4Addr, u8),
}

/// What a [`Vpc`] stands for.
#[verifier::ext_equal]
pub struct Network {
    pub vni: u32,
    pub name: Seq<char>,
    pub cidr: (Ipv4Addr, u8),
}

impl View for Vpc {
    type V = Network;

    open spec fn view(&self) -> Network {
        Network { vni: self.vni, name: self.name@, cidr: self.cidr }
    }
}

/// Whether `ip` and `net` have the same first `len` bits. No bit counts for a length
/// of 0, nor for one that an address does not have.
pub open spec fn in_network(ip: Ipv4Addr, net: Ipv4Addr, len: u8) -> bool {
    1 <= len <= 32 ==> ip.bits >> ((32 - len) as u32) == net.bits >> ((32 - len) as u32)
}

impl Vpc {
    #[must_use]
    pub fn contains(&self, ip: Ipv4Addr) -> (r: bool)
        ensures
            r == in_network(ip, self.cidr.0, self.cidr.1),
    {
        let (net, len) = self.cidr;
        if len == 0 || len > 32 {
            return true;
        }
        let rest: u32 = (32 - len) as u32;
        (ip.bits >> rest) == (net.bits >> rest)
    }
}

impl Clone for Vpc {
    fn clone(&self) -> (r: Self)
        ensures
            r == *self,
    {
        Vpc { vni: self.vni, name: self.name.clone(), cidr: self.cidr }
    }
}

/// A tenant endpoint (a VM/container NIC) and where it physically lives.
#[derive(Clone, Copy, Debug, PartialEq, Eq)]
pub struct Endpoint {
    pub vni: u32,
    pub inner_ip: Ipv4Addr,
    pub inner_mac: MacAddr,
    /// Underlay address of the node hosting this endpoint.
    pub node_ip: Ipv4Addr,
    /// True if this endpoint is attached to the *local* switch (deliver on decap
    /// instead of re-encapsulating).
    pub local: bool,
}

/// The result of a forwarding lookup: where and how to send an encapsulated packet.
#[derive(Clone, Copy, Debug, PartialEq, Eq)]
pub struct NextHop {
    pub node_ip: Ipv4Addr,
    pub inner_mac: MacAddr,
    pub local: bool,
}

/// Where an endpoint is found: its network and its address in it.
pub type Place = (u32, Ipv4Addr);

/// What a fabric holds.
#[verifier::ext_equal]
pub struct FabricState {
    pub local_node_ip: Ipv4Addr,
    pub vpcs: Map<u32, Network>,
    pub endpoints: Map<Place, Endpoint>,
}

impl FabricState {
    /// Everything stands where it is looked for.
    pub open spec fn wf(self) -> bool {
        &&& forall|vni: u32| #[trigger] self.vpcs.contains_key(vni) ==> self.vpcs[vni].vni == vni
        &&& forall|at: Place| #[trigger]
            self.endpoints.contains_key(at) ==> place_of(self.endpoints[at]) == at
    }

    /// The next hop for `ip` in the network `vni`.
    pub open spec fn next_hop(self, vni: u32, ip: Ipv4Addr) -> Option<NextHop> {
        if self.endpoints.contains_key((vni, ip)) {
            let ep = self.endpoints[(vni, ip)];
            Some(NextHop { node_ip: ep.node_ip, inner_mac: ep.inner_mac, local: ep.local })
        } else {
            None
        }
    }

    /// The fabric with `vpc` in it, in place of one with the same id.
    pub open spec fn with_vpc(self, vpc: Network) -> FabricState {
        FabricState { vpcs: self.vpcs.insert(vpc.vni, vpc), ..self }
    }

    /// The fabric with `ep` in it, in place of one at the same place.
    pub open spec fn with_endpoint(self, ep: Endpoint) -> FabricState {
        FabricState { endpoints: self.endpoints.insert(place_of(ep), ep), ..self }
    }

    /// Whether `ep` is an endpoint of the local switch.
    pub open spec fn has_local(self, ep: Endpoint) -> bool {
        ep.local && self.endpoints.contains_key(place_of(ep)) && self.endpoints[place_of(ep)] == ep
    }
}

/// A fabric that knows nothing yet.
pub open spec fn empty_fabric(local_node_ip: Ipv4Addr) -> FabricState {
    FabricState { local_node_ip, vpcs: Map::empty(), endpoints: Map::empty() }
}

/// Where `ep` is found.
pub open spec fn place_of(ep: Endpoint) -> Place {
    (ep.vni, ep.inner_ip)
}

/// A place as one number.
spec fn place_key(at: Place) -> u64 {
    (at.0 * 0x1_0000_0000 + at.1.bits) as u64
}

/// The place that a number stands for.
spec fn place_at(k: u64) -> Place {
    ((k / 0x1_0000_0000) as u32, Ipv4Addr { bits: (k % 0x1_0000_0000) as u32 })
}

proof fn lemma_place_key(at: Place)
    ensures
        place_at(place_key(at)) == at,
{
}

/// The fabric map held by one switch instance.
pub struct Fabric {
    /// This switch's own underlay address.
    pub local_node_ip: Ipv4Addr,
    vpcs: HashMap<u32, Vpc>,
    /// (vni, inner_ip) -> endpoint.
    endpoints: HashMap<u64, Endpoint>,
}

impl View for Fabric {
    type V = FabricState;

    closed spec fn view(&self) -> FabricState {
        FabricState {
            local_node_ip: self.local_node_ip,
            vpcs: self.vpcs@.map_values(|v: Vpc| v@),
            endpoints: Map::new(
                |at: Place| self.endpoints@.contains_key(place_key(at)),
                |at: Place| self.endpoints@[place_key(at)],
            ),
        }
    }
}

impl Fabric {
    pub open spec fn wf(&self) -> bool {
        self@.wf()
    }

    proof fn lemma_len(&self)
        ensures
            self@.endpoints.dom().finite(),
            self@.endpoints.len() == self.endpoints@.len(),
    {
        let f = |k: u64| place_at(k);
        let keys = self.endpoints@.dom();
        assert forall|at: Place|
            self@.endpoints.dom().contains(at) <==> keys.map(f).contains(at) by {
            lemma_place_key(at);
            if self@.endpoints.dom().contains(at) {
                assert(keys.contains(place_key(at)) && f(place_key(at)) == at);
            }
            if keys.map(f).contains(at) {
                let k = choose|k: u64| keys.contains(k) && f(k) == at;
                assert(place_key(at) == k);
            }
        }
        assert(self@.endpoints.dom() =~= keys.map(f));
        assert forall|a: u64, b: u64|
            keys.contains(a) && keys.contains(b) && #[trigger] f(a) == #[trigger] f(b) implies a
            == b by {
            assert(place_key(f(a)) == a && place_key(f(b)) == b);
        }
        vstd::set_lib::lemma_map_size(keys, self@.endpoints.dom(), f);
    }

    #[must_use]
    pub fn new(local_node_ip: Ipv4Addr) -> (r: Self)
        ensures
            r.wf(),
            r@ == empty_fabric(local_node_ip),
    {
        let r: Fabric = Fabric { local_node_ip, vpcs: HashMap::new(), endpoints: HashMap::new() };
        assert(r@.vpcs =~= Map::empty());
        assert(r@.endpoints =~= Map::empty());
        r
    }

    pub fn add_vpc(&mut self, vpc: Vpc)
        requires
            old(self).wf(),
        ensures
            final(self).wf(),
            final(self)@ == old(self)@.with_vpc(vpc@),
    {
        let vni: u32 = vpc.vni;
        self.vpcs.insert(vni, vpc);
        assert(self@.vpcs =~= old(self)@.vpcs.insert(vni, vpc@));
        assert(self@ =~= old(self)@.with_vpc(vpc@));
    }

    pub fn add_endpoint(&mut self, ep: Endpoint)
        requires
            old(self).wf(),
        ensures
            final(self).wf(),
            final(self)@ == old(self)@.with_endpoint(ep),
    {
        let k: u64 = ep.vni as u64 * 0x1_0000_0000 + ep.inner_ip.bits as u64;
        self.endpoints.insert(k, ep);
        proof {
            assert(k == place_key(place_of(ep)));
            assert forall|at: Place| at != place_of(ep) implies place_key(at) != k by {
                lemma_place_key(at);
                lemma_place_key(place_of(ep));
            }
        }
        assert(self@.endpoints =~= old(self)@.with_endpoint(ep).endpoints);
        assert(self@ =~= old(self)@.with_endpoint(ep));
    }

    #[must_use]
    pub fn vpc(&self, vni: u32) -> (r: Option<&Vpc>)
        ensures
            match r {
                Some(v) => self@.vpcs.contains_key(vni) && v@ == self@.vpcs[vni],
                None => !self@.vpcs.contains_key(vni),
            },
    {
        self.vpcs.get(&vni)
    }

    /// Resolve an inner destination within a VPC to a next hop. `None` means the
    /// destination is unknown (dataplane should drop or flood per policy).
    #[must_use]
    pub fn resolve(&self, vni: u32, inner_dst: Ipv4Addr) -> (r: Option<NextHop>)
        ensures
            r == self@.next_hop(vni, inner_dst),
    {
        let k: u64 = vni as u64 * 0x1_0000_0000 + inner_dst.bits as u64;
        assert(k == place_key((vni, inner_dst)));
        match self.endpoints.get(&k) {
            Some(ep) => Some(
                NextHop { node_ip: ep.node_ip, inner_mac: ep.inner_mac, local: ep.local },
            ),
            None => None,
        }
    }

    /// All endpoints local to this switch (used to program the tap/veth side), in no
    /// particular order.
    pub fn local_endpoints(&self) -> (r: Vec<Endpoint>)
        requires
            self.wf(),
        ensures
            forall|ep: Endpoint| #[trigger] r@.contains(ep) <==> self@.has_local(ep),
            r@.no_duplicates(),
    {
        let ghost m = self.endpoints@;
        let mut keys: Vec<u64> = Vec::new();
        for k in it: self.endpoints.keys()
            invariant
                it.seq().unref().to_set() == m.dom(),
                it.seq().no_duplicates(),
                keys@ == it.seq().unref().take(it.index()),
                it.index() == it.seq().len() ==> keys@ == it.seq().unref(),
        {
            keys.push(*k);
            assert(keys@ =~= it.seq().unref().take(it.index() + 1));
        }
        let n: usize = keys.len();
        let mut out: Vec<Endpoint> = Vec::new();
        let mut i: usize = 0;
        while i < n
            invariant
                n == keys@.len(),
                i <= n,
                self.wf(),
                m == self.endpoints@,
                keys@.no_duplicates(),
                keys@.to_set() == m.dom(),
                forall|x: int|
                    0 <= x < out@.len() ==> self@.has_local(#[trigger] out@[x]) && keys@.take(
                        i as int,
                    ).contains(place_key(place_of(out@[x]))),
                forall|j: int|
                    0 <= j < i && m[#[trigger] keys@[j]].local ==> out@.contains(m[keys@[j]]),
                out@.no_duplicates(),
            decreases n - i,
        {
            let k: u64 = keys[i];
            let ghost before = out@;
            assert(keys@.to_set().contains(k));
            proof {
                assert(place_key(place_at(k)) == k);
                assert(self@.endpoints.contains_key(place_at(k)));
                assert(forall|x: int|
                    0 <= x < before.len() ==> keys@.take(i + 1).contains(
                        place_key(place_of(#[trigger] before[x])),
                    )) by {
                    assert forall|x: int| 0 <= x < before.len() implies keys@.take(i + 1).contains(
                        place_key(place_of(#[trigger] before[x])),
                    ) by {
                        let q = place_key(place_of(before[x]));
                        let j = choose|j: int|
                            0 <= j < keys@.take(i as int).len() && keys@.take(i as int)[j] == q;
                        assert(keys@.take(i + 1)[j] == q);
                    }
                }
                assert(keys@.take(i + 1)[i as int] == k);
            }
            match self.endpoints.get(&k) {
                Some(ep) => {
                    if ep.local {
                        proof {
                            assert(place_of(*ep) == place_at(k));
                            if before.contains(*ep) {
                                let x = choose|x: int| 0 <= x < before.len() && before[x] == *ep;
                                assert(keys@.take(i as int).contains(place_key(place_of(before[x]))));
                                let j = choose|j: int|
                                    0 <= j < keys@.take(i as int).len() && keys@.take(i as int)[j] == k;
                                assert(keys@[j] == keys@[i as int]);
                            }
                        }
                        out.push(*ep);
                        proof {
                            assert(out@[before.len() as int] == *ep);
                            assert forall|e: Endpoint| before.contains(e) implies out@.contains(e) by {
                                let x = choose|x: int| 0 <= x < before.len() && before[x] == e;
                                assert(out@[x] == e);
                            }
                        }
                    }
                },
                None => {},
            }
            i = i + 1;
        }
        proof {
            assert forall|ep: Endpoint| #[trigger] out@.contains(ep) <==> self@.has_local(ep) by {
                if self@.has_local(ep) {
                    let k = place_key(place_of(ep));
                    assert(keys@.to_set().contains(k));
                    let j = choose|j: int| 0 <= j < n && keys@[j] == k;
                    assert(m[keys@[j]] == ep);
                }
            }
        }
        out
    }

    #[must_use]
    pub fn endpoint_count(&self) -> (r: usize)
        ensures
            r == self@.endpoints.len(),
    {
        proof {
            self.lemma_len();
        }
        self.endpoints.len()
    }
}

/// **An endpoint resolves to where it lives** once it has been added.
pub proof fn law_added_endpoint_resolves(f: FabricState, ep: Endpoint)
    ensures
        f.with_endpoint(ep).next_hop(ep.vni, ep.inner_ip) == Some(
            NextHop { node_ip: ep.node_ip, inner_mac: ep.inner_mac, local: ep.local },
        ),
{
}

/// **Networks are isolated.** An endpoint added to one network changes no lookup in
/// another, though both use the same addresses, nor the lookup of another address.
pub proof fn law_networks_are_isolated(f: FabricState, ep: Endpoint, vni: u32, ip: Ipv4Addr)
    requires
        vni != ep.vni || ip != ep.inner_ip,
    ensures
        f.with_endpoint(ep).next_hop(vni, ip) == f.next_hop(vni, ip),
{
}

} // verus!
