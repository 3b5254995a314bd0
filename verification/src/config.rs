//! Declarative fabric configuration.
//!
//! A node's view of the overlay — its own underlay address, the VNI it serves, the
//! virtual gateway MAC, an optional NAT/gateway, and the endpoint table. The document
//! holds all addresses as text; [`NodeConfig::parse`] validates it. In TOML it reads:
//!
//! ```toml
//! local_node          = "192.168.1.1"
//! peer_node           = "192.168.1.2"   # optional default route
//! vni                 = 100
//! virtual_gateway_mac = "02:00:00:00:00:ff"
//! # nat_ip            = "203.0.113.7"   # optional SNAT egress
//!
//! [[endpoint]]
//! inner_ip  = "10.0.0.10"
//! inner_mac = "aa:bb:cc:00:00:10"
//! node_ip   = "192.168.1.1"
//! local     = true
//!
//! [[endpoint]]
//! inner_ip  = "10.0.0.20"
//! inner_mac = "aa:bb:cc:00:00:20"
//! node_ip   = "192.168.1.2"
//! ```

use vstd::prelude::*;
use crate::addr::{ipv4_text, Ipv4Addr};
use crate::control::{
    empty_fabric, place_of, Endpoint, Fabric, FabricState, Network, NextHop, Vpc,
};
use crate::ethernet::{mac_text, MacAddr};
use crate::text::{chars_of, decimal, find_char, parse_u8, push_decimal, u8_text};

verus! {

/// The document as it was written (all addresses as strings; validated in
/// [`NodeConfig::parse`]).
///
/// Two forms are accepted. A **flat** single-VPC document (`vni = …` plus top-level
/// `[[endpoint]]`), and a **multi-VPC** document with one or more `[[vpc]]` blocks,
/// each with its own `vni`, `cidr`, and `[[vpc.endpoint]]` list — so one switch's
/// fabric can serve several tenants that reuse the same private addresses, kept apart
/// by their VNI.
#[derive(Debug)]
pub struct RawConfig {
    pub local_node: String,
    pub peer_node: Option<String>,
    pub vni: Option<u32>,
    pub virtual_gateway_mac: Option<String>,
    pub nat_ip: Option<String>,
    pub vpc_cidr: Option<String>,
    pub endpoints: Vec<RawEndpoint>,
    pub vpcs: Vec<RawVpc>,
}

/// One `[[vpc]]` block.
#[derive(Debug)]
pub struct RawVpc {
    pub vni: u32,
    pub cidr: Option<String>,
    pub endpoints: Vec<RawEndpoint>,
}

/// One `[[endpoint]]` block.
#[derive(Debug)]
pub struct RawEndpoint {
    pub inner_ip: String,
    pub inner_mac: String,
    pub node_ip: String,
    pub local: bool,
}

/// One virtual network within a node's fabric.
#[derive(Debug)]
pub struct VpcSpec {
    pub vni: u32,
    pub cidr: (Ipv4Addr, u8),
    pub endpoints: Vec<Endpoint>,
}

/// A validated node configuration.
#[derive(Debug)]
pub struct NodeConfig {
    pub local_node: Ipv4Addr,
    pub peer_node: Option<Ipv4Addr>,
    /// Primary VNI (the first VPC) — used by the single-VPC switch path.
    pub vni: u32,
    pub virtual_gateway_mac: MacAddr,
    pub nat_ip: Option<Ipv4Addr>,
    pub vpc_cidr: (Ipv4Addr, u8),
    /// All endpoints across all VPCs (the fabric is keyed by (VNI, inner-IP)).
    pub endpoints: Vec<Endpoint>,
    /// Every VPC this node serves.
    pub vpcs: Vec<VpcSpec>,
}

/// Configuration error (an unreadable document or an invalid field value).
#[derive(Debug, Clone, PartialEq, Eq)]
pub struct ConfigError(pub String);

impl ConfigError {
    #[must_use]
    pub fn to_string(&self) -> (r: String)
        ensures
            r@ == "config error: "@ + self.0@,
    {
        let mut out: String = String::new();
        out.append("config error: ");
        out.append(self.0.as_str());
        assert(out@ =~= "config error: "@ + self.0@);
        out
    }
}

/// The first of two complaints.
pub open spec fn first_error(a: Option<Seq<char>>, b: Option<Seq<char>>) -> Option<Seq<char>> {
    if a is Some {
        a
    } else {
        b
    }
}

/// The characters of an optional string.
pub open spec fn opt_text(s: Option<String>) -> Option<Seq<char>> {
    match s {
        Some(t) => Some(t@),
        None => None,
    }
}

/// What is wrong with the address `s` in the field `field`.
pub open spec fn ip_error(s: Seq<char>, field: Seq<char>) -> Option<Seq<char>> {
    if ipv4_text(s) is Some {
        None
    } else {
        Some("bad "@ + field + ": "@ + s)
    }
}

/// The same for an address that may be left out.
pub open spec fn opt_ip_error(s: Option<String>, field: Seq<char>) -> Option<Seq<char>> {
    match s {
        Some(t) => ip_error(t@, field),
        None => None,
    }
}

/// The address that an optional string writes.
pub open spec fn opt_ip(s: Option<String>) -> Option<Ipv4Addr> {
    match s {
        Some(t) => ipv4_text(t@),
        None => None,
    }
}

/// Whether `i` is the first position of `c` in `s`.
pub open spec fn is_first(s: Seq<char>, c: char, i: int) -> bool {
    0 <= i < s.len() && s[i] == c && !s.take(i).contains(c)
}

/// The first position of the slash in `s`.
pub open spec fn slash_in(s: Seq<char>) -> int {
    choose|i: int| is_first(s, '/', i)
}

/// What is wrong with the address range `s`: it is an address, a slash and a prefix
/// length up to 32.
pub open spec fn cidr_error(s: Seq<char>) -> Option<Seq<char>> {
    let net = s.take(slash_in(s));
    let len = s.skip(slash_in(s) + 1);
    if !s.contains('/') {
        Some("bad cidr: "@ + s)
    } else if ip_error(net, "vpc_cidr"@) is Some {
        ip_error(net, "vpc_cidr"@)
    } else if u8_text(len, 10) is None {
        Some("bad cidr prefix: "@ + s)
    } else if u8_text(len, 10).unwrap() > 32 {
        Some("cidr prefix out of range: "@ + s)
    } else {
        None
    }
}

/// The address range that `s` writes.
pub open spec fn cidr_of(s: Seq<char>) -> (Ipv4Addr, u8) {
    (ipv4_text(s.take(slash_in(s))).unwrap(), u8_text(s.skip(slash_in(s) + 1), 10).unwrap())
}

/// The range of a network; all addresses where none is written.
pub open spec fn opt_cidr(s: Option<Seq<char>>) -> (Ipv4Addr, u8) {
    match s {
        Some(t) => cidr_of(t),
        None => (Ipv4Addr { bits: 0 }, 0),
    }
}

pub open spec fn opt_cidr_error(s: Option<Seq<char>>) -> Option<Seq<char>> {
    match s {
        Some(t) => cidr_error(t),
        None => None,
    }
}

/// What is wrong with one endpoint block.
pub open spec fn endpoint_error(e: RawEndpoint) -> Option<Seq<char>> {
    first_error(
        ip_error(e.inner_ip@, "endpoint.inner_ip"@),
        first_error(
            if mac_text(e.inner_mac@) is Some {
                None
            } else {
                Some("bad endpoint.inner_mac: "@ + e.inner_mac@)
            },
            ip_error(e.node_ip@, "endpoint.node_ip"@),
        ),
    )
}

/// What is wrong with the first bad endpoint block.
pub open spec fn endpoints_error(es: Seq<RawEndpoint>) -> Option<Seq<char>>
    decreases es.len(),
{
    if es.len() == 0 {
        None
    } else {
        first_error(endpoints_error(es.drop_last()), endpoint_error(es.last()))
    }
}

/// A network as it was written.
pub struct RawNetwork {
    pub vni: u32,
    pub cidr: Option<Seq<char>>,
    pub endpoints: Seq<RawEndpoint>,
}

/// What is wrong with a network.
pub open spec fn network_error(n: RawNetwork) -> Option<Seq<char>> {
    first_error(opt_cidr_error(n.cidr), endpoints_error(n.endpoints))
}

/// What is wrong with the first bad network.
pub open spec fn networks_error(ns: Seq<RawNetwork>) -> Option<Seq<char>>
    decreases ns.len(),
{
    if ns.len() == 0 {
        None
    } else {
        first_error(networks_error(ns.drop_last()), network_error(ns.last()))
    }
}

/// The network of a `[[vpc]]` block.
pub open spec fn network_of(v: RawVpc) -> RawNetwork {
    RawNetwork { vni: v.vni, cidr: opt_text(v.cidr), endpoints: v.endpoints@ }
}

/// The networks of a document: its `[[vpc]]` blocks, or else the one of the flat form.
pub open spec fn networks_of(raw: RawConfig) -> Seq<RawNetwork> {
    if raw.vpcs@.len() > 0 {
        raw.vpcs@.map_values(|v: RawVpc| network_of(v))
    } else {
        seq![
            RawNetwork {
                vni: raw.vni.unwrap(),
                cidr: opt_text(raw.vpc_cidr),
                endpoints: raw.endpoints@,
            },
        ]
    }
}

/// What is wrong with the networks of a document, or that it has none.
pub open spec fn written_networks_error(raw: RawConfig) -> Option<Seq<char>> {
    if raw.vpcs@.len() == 0 && raw.vni is None {
        Some("config needs a `vni` or at least one `[[vpc]]`"@)
    } else {
        networks_error(networks_of(raw))
    }
}

/// What is wrong with the gateway MAC.
pub open spec fn gateway_error(s: Option<String>) -> Option<Seq<char>> {
    match s {
        Some(t) if mac_text(t@) is None => Some("bad virtual_gateway_mac: "@ + t@),
        _ => None,
    }
}

/// The gateway MAC; `02:00:00:00:00:ff` where none is written.
pub open spec fn gateway_of(s: Option<String>) -> Seq<u8> {
    match s {
        Some(t) => mac_text(t@).unwrap(),
        None => seq![2u8, 0u8, 0u8, 0u8, 0u8, 0xffu8],
    }
}

/// What is wrong with a document: its first fault, in the order in which the fields are
/// looked at. `None` if it is valid.
pub open spec fn config_error(raw: RawConfig) -> Option<Seq<char>> {
    first_error(
        ip_error(raw.local_node@, "local_node"@),
        first_error(
            opt_ip_error(raw.peer_node, "peer_node"@),
            first_error(
                opt_ip_error(raw.nat_ip, "nat_ip"@),
                first_error(
                    gateway_error(raw.virtual_gateway_mac),
                    written_networks_error(raw),
                ),
            ),
        ),
    )
}

/// Whether `ep` is what the block `e` in the network `vni` writes.
pub open spec fn is_endpoint(ep: Endpoint, e: RawEndpoint, vni: u32) -> bool {
    &&& ep.vni == vni
    &&& ipv4_text(e.inner_ip@) == Some(ep.inner_ip)
    &&& mac_text(e.inner_mac@) == Some(ep.inner_mac@)
    &&& ipv4_text(e.node_ip@) == Some(ep.node_ip)
    &&& ep.local == e.local
}

/// Whether `v` is what the network `n` writes.
pub open spec fn is_network(v: VpcSpec, n: RawNetwork) -> bool {
    &&& v.vni == n.vni
    &&& v.cidr == opt_cidr(n.cidr)
    &&& v.endpoints@.len() == n.endpoints.len()
    &&& forall|i: int|
        0 <= i < n.endpoints.len() ==> is_endpoint(#[trigger] v.endpoints@[i], n.endpoints[i], n.vni)
}

/// All the endpoints of some networks, one network after the other.
pub open spec fn all_endpoints(vs: Seq<VpcSpec>) -> Seq<Endpoint>
    decreases vs.len(),
{
    if vs.len() == 0 {
        Seq::empty()
    } else {
        all_endpoints(vs.drop_last()) + vs.last().endpoints@
    }
}

/// A fabric with more endpoints added in turn.
pub open spec fn with_endpoints(f: FabricState, es: Seq<Endpoint>) -> FabricState
    decreases es.len(),
{
    if es.len() == 0 {
        f
    } else {
        with_endpoints(f, es.drop_last()).with_endpoint(es.last())
    }
}

/// The network that `v` stands for in a fabric; it is named after its id.
pub open spec fn vpc_of(v: VpcSpec) -> Network {
    Network { vni: v.vni, name: "vpc-"@ + decimal(v.vni as nat), cidr: v.cidr }
}

/// The fabric of a node with the networks `vs`.
pub open spec fn fabric_of(local_node: Ipv4Addr, vs: Seq<VpcSpec>) -> FabricState
    decreases vs.len(),
{
    if vs.len() == 0 {
        empty_fabric(local_node)
    } else {
        with_endpoints(
            fabric_of(local_node, vs.drop_last()).with_vpc(vpc_of(vs.last())),
            vs.last().endpoints@,
        )
    }
}

impl NodeConfig {
    /// Whether this is what the document `raw` describes.
    pub open spec fn describes(self, raw: RawConfig) -> bool {
        &&& ipv4_text(raw.local_node@) == Some(self.local_node)
        &&& self.peer_node == opt_ip(raw.peer_node)
        &&& self.nat_ip == opt_ip(raw.nat_ip)
        &&& self.virtual_gateway_mac@ == gateway_of(raw.virtual_gateway_mac)
        &&& self.vpcs@.len() == networks_of(raw).len()
        &&& forall|i: int|
            0 <= i < self.vpcs@.len() ==> is_network(#[trigger] self.vpcs@[i], networks_of(raw)[i])
        &&& self.vni == self.vpcs@[0].vni
        &&& self.vpc_cidr == self.vpcs@[0].cidr
        &&& self.endpoints@ == all_endpoints(self.vpcs@)
    }
}

fn copy_endpoints(es: &Vec<Endpoint>) -> (r: Vec<Endpoint>)
    ensures
        r@ == es@,
{
    let mut r: Vec<Endpoint> = Vec::new();
    let n: usize = es.len();
    let mut i: usize = 0;
    while i < n
        invariant
            n == es@.len(),
            i <= n,
            r@ == es@.take(i as int),
        decreases n - i,
    {
        r.push(es[i]);
        i = i + 1;
        assert(r@ =~= es@.take(i as int));
    }
    assert(r@ =~= es@);
    r
}

/// Whether two networks are the same.
pub open spec fn same_network(a: VpcSpec, b: VpcSpec) -> bool {
    a.vni == b.vni && a.cidr == b.cidr && a.endpoints@ == b.endpoints@
}

impl Clone for VpcSpec {
    fn clone(&self) -> (r: Self)
        ensures
            same_network(r, *self),
    {
        VpcSpec { vni: self.vni, cidr: self.cidr, endpoints: copy_endpoints(&self.endpoints) }
    }
}

impl Clone for NodeConfig {
    fn clone(&self) -> (r: Self)
        ensures
            r.local_node == self.local_node,
            r.peer_node == self.peer_node,
            r.vni == self.vni,
            r.virtual_gateway_mac == self.virtual_gateway_mac,
            r.nat_ip == self.nat_ip,
            r.vpc_cidr == self.vpc_cidr,
            r.endpoints@ == self.endpoints@,
            r.vpcs@.len() == self.vpcs@.len(),
            forall|i: int|
                0 <= i < r.vpcs@.len() ==> same_network(#[trigger] r.vpcs@[i], self.vpcs@[i]),
    {
        let mut vpcs: Vec<VpcSpec> = Vec::new();
        let n: usize = self.vpcs.len();
        let mut i: usize = 0;
        while i < n
            invariant
                n == self.vpcs@.len(),
                i <= n,
                vpcs@.len() == i,
                forall|j: int| 0 <= j < i ==> same_network(#[trigger] vpcs@[j], self.vpcs@[j]),
            decreases n - i,
        {
            vpcs.push(self.vpcs[i].clone());
            i = i + 1;
        }
        NodeConfig {
            local_node: self.local_node,
            peer_node: self.peer_node,
            vni: self.vni,
            virtual_gateway_mac: self.virtual_gateway_mac,
            nat_ip: self.nat_ip,
            vpc_cidr: self.vpc_cidr,
            endpoints: copy_endpoints(&self.endpoints),
            vpcs,
        }
    }
}

/// A complaint about `s`.
fn complaint(about: &str, s: &str) -> (r: ConfigError)
    ensures
        r.0@ == about@ + s@,
{
    let mut out: String = String::new();
    out.append(about);
    out.append(s);
    assert(out@ =~= about@ + s@);
    ConfigError(out)
}

fn parse_ip(s: &str, field: &str) -> (r: Result<Ipv4Addr, ConfigError>)
    ensures
        match r {
            Ok(ip) => ipv4_text(s@) == Some(ip),
            Err(e) => ip_error(s@, field@) == Some(e.0@),
        },
{
    match Ipv4Addr::from_text(s) {
        Ok(ip) => Ok(ip),
        Err(_) => {
            let mut out: String = String::new();
            out.append("bad ");
            out.append(field);
            out.append(": ");
            out.append(s);
            assert(out@ =~= "bad "@ + field@ + ": "@ + s@);
            Err(ConfigError(out))
        },
    }
}

fn parse_opt_ip(s: &Option<String>, field: &str) -> (r: Result<Option<Ipv4Addr>, ConfigError>)
    ensures
        match r {
            Ok(ip) => opt_ip_error(*s, field@) is None && ip == opt_ip(*s),
            Err(e) => opt_ip_error(*s, field@) == Some(e.0@),
        },
{
    match s {
        Some(t) => match parse_ip(t.as_str(), field) {
            Ok(ip) => Ok(Some(ip)),
            Err(e) => Err(e),
        },
        None => Ok(None),
    }
}

fn parse_cidr(s: &str) -> (r: Result<(Ipv4Addr, u8), ConfigError>)
    ensures
        match r {
            Ok(cidr) => cidr_error(s@) is None && cidr == cidr_of(s@),
            Err(e) => cidr_error(s@) == Some(e.0@),
        },
{
    let chars: Vec<char> = chars_of(s);
    let slash: usize = match find_char(chars.as_slice(), '/') {
        Some(i) => i,
        None => {
            return Err(complaint("bad cidr: ", s));
        },
    };
    let n: usize = chars.len();
    let ghost at = slash_in(s@);
    proof {
        assert(s@.contains('/'));
        assert(is_first(s@, '/', slash as int));
        if at != slash {
            let (lo, hi) = if at < slash {
                (at, slash as int)
            } else {
                (slash as int, at)
            };
            assert(s@.take(hi)[lo] == '/');
        }
    }
    let net: &str = s.substring_char(0, slash);
    assert(net@ =~= s@.take(at));
    let ip: Ipv4Addr = match parse_ip(net, "vpc_cidr") {
        Ok(ip) => ip,
        Err(e) => {
            return Err(e);
        },
    };
    let len: &[char] = &chars.as_slice()[slash + 1..n];
    assert(len@ =~= s@.skip(at + 1));
    let prefix: u8 = match parse_u8(len, 10) {
        Some(p) => p,
        None => {
            return Err(complaint("bad cidr prefix: ", s));
        },
    };
    if prefix > 32 {
        return Err(complaint("cidr prefix out of range: ", s));
    }
    Ok((ip, prefix))
}

fn parse_mac(s: &str, about: &str) -> (r: Result<MacAddr, ConfigError>)
    ensures
        match r {
            Ok(m) => mac_text(s@) == Some(m@),
            Err(e) => mac_text(s@) is None && e.0@ == about@ + s@,
        },
{
    match MacAddr::from_text(s) {
        Ok(m) => Ok(m),
        Err(_) => Err(complaint(about, s)),
    }
}

fn parse_endpoint(e: &RawEndpoint, vni: u32) -> (r: Result<Endpoint, ConfigError>)
    ensures
        match r {
            Ok(ep) => endpoint_error(*e) is None && is_endpoint(ep, *e, vni),
            Err(x) => endpoint_error(*e) == Some(x.0@),
        },
{
    let inner_ip: Ipv4Addr = match parse_ip(e.inner_ip.as_str(), "endpoint.inner_ip") {
        Ok(ip) => ip,
        Err(x) => {
            return Err(x);
        },
    };
    let inner_mac: MacAddr = match parse_mac(e.inner_mac.as_str(), "bad endpoint.inner_mac: ") {
        Ok(m) => m,
        Err(x) => {
            return Err(x);
        },
    };
    let node_ip: Ipv4Addr = match parse_ip(e.node_ip.as_str(), "endpoint.node_ip") {
        Ok(ip) => ip,
        Err(x) => {
            return Err(x);
        },
    };
    Ok(Endpoint { vni, inner_ip, inner_mac, node_ip, local: e.local })
}

proof fn lemma_endpoints_error_early(es: Seq<RawEndpoint>, n: int)
    requires
        0 <= n <= es.len(),
        endpoints_error(es.take(n)) is Some,
    ensures
        endpoints_error(es) == endpoints_error(es.take(n)),
    decreases es.len(),
{
    if n == es.len() {
        assert(es.take(n) =~= es);
    } else {
        assert(es.drop_last().take(n) =~= es.take(n));
        lemma_endpoints_error_early(es.drop_last(), n);
    }
}

fn parse_endpoints(raw: &Vec<RawEndpoint>, vni: u32) -> (r: Result<Vec<Endpoint>, ConfigError>)
    ensures
        match r {
            Ok(es) => {
                &&& endpoints_error(raw@) is None
                &&& es@.len() == raw@.len()
                &&& forall|i: int|
                    0 <= i < raw@.len() ==> is_endpoint(#[trigger] es@[i], raw@[i], vni)
            },
            Err(x) => endpoints_error(raw@) == Some(x.0@),
        },
{
    let mut es: Vec<Endpoint> = Vec::new();
    let n: usize = raw.len();
    let mut i: usize = 0;
    while i < n
        invariant
            n == raw@.len(),
            i <= n,
            es@.len() == i,
            endpoints_error(raw@.take(i as int)) is None,
            forall|j: int| 0 <= j < i ==> is_endpoint(#[trigger] es@[j], raw@[j], vni),
        decreases n - i,
    {
        assert(raw@.take(i + 1).drop_last() =~= raw@.take(i as int));
        match parse_endpoint(&raw[i], vni) {
            Ok(ep) => {
                es.push(ep);
            },
            Err(x) => {
                proof {
                    lemma_endpoints_error_early(raw@, i + 1);
                }
                return Err(x);
            },
        }
        i = i + 1;
    }
    assert(raw@.take(n as int) =~= raw@);
    Ok(es)
}

/// Reads one network.
fn parse_network(vni: u32, cidr: &Option<String>, endpoints: &Vec<RawEndpoint>) -> (r: Result<
    VpcSpec,
    ConfigError,
>)
    ensures
        ({
            let n = RawNetwork { vni, cidr: opt_text(*cidr), endpoints: endpoints@ };
            match r {
                Ok(v) => network_error(n) is None && is_network(v, n),
                Err(x) => network_error(n) == Some(x.0@),
            }
        }),
{
    let range: (Ipv4Addr, u8) = match cidr {
        Some(s) => match parse_cidr(s.as_str()) {
            Ok(c) => c,
            Err(x) => {
                return Err(x);
            },
        },
        None => (Ipv4Addr { bits: 0 }, 0),
    };
    match parse_endpoints(endpoints, vni) {
        Ok(es) => Ok(VpcSpec { vni, cidr: range, endpoints: es }),
        Err(x) => Err(x),
    }
}

proof fn lemma_networks_error_early(ns: Seq<RawNetwork>, n: int)
    requires
        0 <= n <= ns.len(),
        networks_error(ns.take(n)) is Some,
    ensures
        networks_error(ns) == networks_error(ns.take(n)),
    decreases ns.len(),
{
    if n == ns.len() {
        assert(ns.take(n) =~= ns);
    } else {
        assert(ns.drop_last().take(n) =~= ns.take(n));
        lemma_networks_error_early(ns.drop_last(), n);
    }
}

/// Reads the `[[vpc]]` blocks.
fn parse_vpcs(raw: &Vec<RawVpc>) -> (r: Result<Vec<VpcSpec>, ConfigError>)
    ensures
        ({
            let ns = raw@.map_values(|v: RawVpc| network_of(v));
            match r {
                Ok(vs) => {
                    &&& networks_error(ns) is None
                    &&& vs@.len() == ns.len()
                    &&& forall|i: int| 0 <= i < ns.len() ==> is_network(#[trigger] vs@[i], ns[i])
                },
                Err(x) => networks_error(ns) == Some(x.0@),
            }
        }),
{
    let ghost ns = raw@.map_values(|v: RawVpc| network_of(v));
    let mut vs: Vec<VpcSpec> = Vec::new();
    let n: usize = raw.len();
    let mut i: usize = 0;
    while i < n
        invariant
            n == raw@.len(),
            i <= n,
            ns == raw@.map_values(|v: RawVpc| network_of(v)),
            vs@.len() == i,
            networks_error(ns.take(i as int)) is None,
            forall|j: int| 0 <= j < i ==> is_network(#[trigger] vs@[j], ns[j]),
        decreases n - i,
    {
        assert(ns.take(i + 1).drop_last() =~= ns.take(i as int));
        let v: &RawVpc = &raw[i];
        assert(ns[i as int] == network_of(*v));
        match parse_network(v.vni, &v.cidr, &v.endpoints) {
            Ok(spec_v) => {
                vs.push(spec_v);
            },
            Err(x) => {
                proof {
                    lemma_networks_error_early(ns, i + 1);
                }
                return Err(x);
            },
        }
        i = i + 1;
    }
    assert(ns.take(n as int) =~= ns);
    Ok(vs)
}

/// Reads the networks, from either the multi-VPC `[[vpc]]` form or the flat form.
fn parse_networks(raw: &RawConfig) -> (r: Result<Vec<VpcSpec>, ConfigError>)
    ensures
        match r {
            Ok(vs) => {
                &&& written_networks_error(*raw) is None
                &&& vs@.len() == networks_of(*raw).len()
                &&& vs@.len() > 0
                &&& forall|i: int|
                    0 <= i < vs@.len() ==> is_network(#[trigger] vs@[i], networks_of(*raw)[i])
            },
            Err(x) => written_networks_error(*raw) == Some(x.0@),
        },
{
    if raw.vpcs.len() > 0 {
        return parse_vpcs(&raw.vpcs);
    }
    let vni: u32 = match raw.vni {
        Some(v) => v,
        None => {
            let mut out: String = String::new();
            out.append("config needs a `vni` or at least one `[[vpc]]`");
            assert(out@ =~= "config needs a `vni` or at least one `[[vpc]]`"@);
            return Err(ConfigError(out));
        },
    };
    let ghost ns = networks_of(*raw);
    assert(networks_error(ns) == network_error(ns[0])) by {
        reveal_with_fuel(networks_error, 2);
    }
    match parse_network(vni, &raw.vpc_cidr, &raw.endpoints) {
        Ok(v) => {
            let mut vs: Vec<VpcSpec> = Vec::new();
            vs.push(v);
            Ok(vs)
        },
        Err(x) => Err(x),
    }
}

/// The endpoints of all networks.
fn collect_endpoints(vs: &Vec<VpcSpec>) -> (r: Vec<Endpoint>)
    ensures
        r@ == all_endpoints(vs@),
{
    let mut out: Vec<Endpoint> = Vec::new();
    let n: usize = vs.len();
    let mut i: usize = 0;
    while i < n
        invariant
            n == vs@.len(),
            i <= n,
            out@ == all_endpoints(vs@.take(i as int)),
        decreases n - i,
    {
        let ghost before = out@;
        let es: &Vec<Endpoint> = &vs[i].endpoints;
        let m: usize = es.len();
        let mut j: usize = 0;
        while j < m
            invariant
                m == es@.len(),
                j <= m,
                out@ == before + es@.take(j as int),
            decreases m - j,
        {
            out.push(es[j]);
            j = j + 1;
            assert(out@ =~= before + es@.take(j as int));
        }
        assert(es@.take(m as int) =~= es@);
        assert(vs@.take(i + 1).drop_last() =~= vs@.take(i as int));
        i = i + 1;
    }
    assert(vs@.take(n as int) =~= vs@);
    out
}

impl NodeConfig {
    /// Validate a document.
    pub fn parse(raw: &RawConfig) -> (r: Result<Self, ConfigError>)
        ensures
            match r {
                Ok(c) => config_error(*raw) is None && c.describes(*raw),
                Err(x) => config_error(*raw) == Some(x.0@),
            },
    {
        let local_node: Ipv4Addr = match parse_ip(raw.local_node.as_str(), "local_node") {
            Ok(ip) => ip,
            Err(x) => {
                return Err(x);
            },
        };
        let peer_node: Option<Ipv4Addr> = match parse_opt_ip(&raw.peer_node, "peer_node") {
            Ok(ip) => ip,
            Err(x) => {
                return Err(x);
            },
        };
        let nat_ip: Option<Ipv4Addr> = match parse_opt_ip(&raw.nat_ip, "nat_ip") {
            Ok(ip) => ip,
            Err(x) => {
                return Err(x);
            },
        };
        let virtual_gateway_mac: MacAddr = match &raw.virtual_gateway_mac {
            Some(s) => match parse_mac(s.as_str(), "bad virtual_gateway_mac: ") {
                Ok(m) => m,
                Err(x) => {
                    return Err(x);
                },
            },
            None => MacAddr([0x02, 0, 0, 0, 0, 0xff]),
        };
        assert(virtual_gateway_mac@ =~= gateway_of(raw.virtual_gateway_mac));
        let vpcs: Vec<VpcSpec> = match parse_networks(raw) {
            Ok(vs) => vs,
            Err(x) => {
                return Err(x);
            },
        };
        let vni: u32 = vpcs[0].vni;
        let vpc_cidr: (Ipv4Addr, u8) = vpcs[0].cidr;
        let endpoints: Vec<Endpoint> = collect_endpoints(&vpcs);
        Ok(
            NodeConfig {
                local_node,
                peer_node,
                vni,
                virtual_gateway_mac,
                nat_ip,
                vpc_cidr,
                endpoints,
                vpcs,
            },
        )
    }

    /// The set of VNIs this node serves.
    #[must_use]
    pub fn served_vnis(&self) -> (r: Vec<u32>)
        ensures
            r@ == self.vpcs@.map_values(|v: VpcSpec| v.vni),
    {
        let mut out: Vec<u32> = Vec::new();
        let n: usize = self.vpcs.len();
        let mut i: usize = 0;
        while i < n
            invariant
                n == self.vpcs@.len(),
                i <= n,
                out@ == self.vpcs@.take(i as int).map_values(|v: VpcSpec| v.vni),
            decreases n - i,
        {
            out.push(self.vpcs[i].vni);
            i = i + 1;
            assert(out@ =~= self.vpcs@.take(i as int).map_values(|v: VpcSpec| v.vni));
        }
        assert(self.vpcs@.take(n as int) =~= self.vpcs@);
        out
    }

    /// Build the runtime [`Fabric`] this config describes — every VPC and every
    /// endpoint. The fabric is keyed by (VNI, inner-IP), so tenants that reuse the
    /// same private addresses in different VPCs never collide.
    #[must_use]
    pub fn build_fabric(&self) -> (r: Fabric)
        ensures
            r.wf(),
            r@ == fabric_of(self.local_node, self.vpcs@),
    {
        let mut fabric: Fabric = Fabric::new(self.local_node);
        let n: usize = self.vpcs.len();
        let mut i: usize = 0;
        while i < n
            invariant
                n == self.vpcs@.len(),
                i <= n,
                fabric.wf(),
                fabric@ == fabric_of(self.local_node, self.vpcs@.take(i as int)),
            decreases n - i,
        {
            let v: &VpcSpec = &self.vpcs[i];
            let mut name: String = String::new();
            name.append("vpc-");
            push_decimal(&mut name, v.vni as u64);
            assert(name@ =~= "vpc-"@ + decimal(v.vni as nat));
            fabric.add_vpc(Vpc { vni: v.vni, name, cidr: v.cidr });
            let ghost base = fabric@;
            let m: usize = v.endpoints.len();
            let mut j: usize = 0;
            while j < m
                invariant
                    m == v.endpoints@.len(),
                    j <= m,
                    fabric.wf(),
                    fabric@ == with_endpoints(base, v.endpoints@.take(j as int)),
                decreases m - j,
            {
                fabric.add_endpoint(v.endpoints[j]);
                assert(v.endpoints@.take(j + 1).drop_last() =~= v.endpoints@.take(j as int));
                j = j + 1;
            }
            assert(v.endpoints@.take(m as int) =~= v.endpoints@);
            assert(self.vpcs@.take(i + 1).drop_last() =~= self.vpcs@.take(i as int));
            i = i + 1;
        }
        assert(self.vpcs@.take(n as int) =~= self.vpcs@);
        fabric
    }
}

proof fn lemma_with_endpoints_concat(f: FabricState, a: Seq<Endpoint>, b: Seq<Endpoint>)
    ensures
        with_endpoints(with_endpoints(f, a), b).endpoints == with_endpoints(f, a + b).endpoints,
    decreases b.len(),
{
    if b.len() == 0 {
        assert(a + b =~= a);
    } else {
        lemma_with_endpoints_concat(f, a, b.drop_last());
        assert((a + b).drop_last() =~= a + b.drop_last());
    }
}

proof fn lemma_with_endpoints_base(f: FabricState, g: FabricState, es: Seq<Endpoint>)
    requires
        f.endpoints == g.endpoints,
    ensures
        with_endpoints(f, es).endpoints == with_endpoints(g, es).endpoints,
    decreases es.len(),
{
    if es.len() > 0 {
        lemma_with_endpoints_base(f, g, es.drop_last());
    }
}

/// The endpoints of a fabric are those of its networks, added in turn.
pub proof fn lemma_fabric_endpoints(local_node: Ipv4Addr, vs: Seq<VpcSpec>)
    ensures
        fabric_of(local_node, vs).endpoints == with_endpoints(
            empty_fabric(local_node),
            all_endpoints(vs),
        ).endpoints,
    decreases vs.len(),
{
    if vs.len() > 0 {
        let before = fabric_of(local_node, vs.drop_last());
        let all = with_endpoints(empty_fabric(local_node), all_endpoints(vs.drop_last()));
        lemma_fabric_endpoints(local_node, vs.drop_last());
        lemma_with_endpoints_base(
            before.with_vpc(vpc_of(vs.last())),
            all,
            vs.last().endpoints@,
        );
        lemma_with_endpoints_concat(
            empty_fabric(local_node),
            all_endpoints(vs.drop_last()),
            vs.last().endpoints@,
        );
    }
}

proof fn lemma_last_at_place(f: FabricState, es: Seq<Endpoint>, k: int)
    requires
        0 <= k < es.len(),
        forall|j: int| k < j < es.len() ==> place_of(#[trigger] es[j]) != place_of(es[k]),
    ensures
        with_endpoints(f, es).endpoints.contains_key(place_of(es[k])),
        with_endpoints(f, es).endpoints[place_of(es[k])] == es[k],
    decreases es.len(),
{
    if k < es.len() - 1 {
        assert(place_of(es[es.len() - 1]) != place_of(es[k]));
        assert forall|j: int| k < j < es.drop_last().len() implies place_of(
            #[trigger] es.drop_last()[j],
        ) != place_of(es[k]) by {
            assert(es.drop_last()[j] == es[j]);
        }
        lemma_last_at_place(f, es.drop_last(), k);
    }
}

/// **Every endpoint of a configuration resolves to where it lives**, in its own network:
/// the fabric sends to the endpoint's node and MAC, unless a later endpoint of the same
/// network has the same address.
pub proof fn law_configured_endpoints_resolve(local_node: Ipv4Addr, vs: Seq<VpcSpec>, k: int)
    requires
        0 <= k < all_endpoints(vs).len(),
        forall|j: int|
            k < j < all_endpoints(vs).len() ==> place_of(#[trigger] all_endpoints(vs)[j])
                != place_of(all_endpoints(vs)[k]),
    ensures
        ({
            let ep = all_endpoints(vs)[k];
            fabric_of(local_node, vs).next_hop(ep.vni, ep.inner_ip) == Some(
                NextHop { node_ip: ep.node_ip, inner_mac: ep.inner_mac, local: ep.local },
            )
        }),
{
    lemma_fabric_endpoints(local_node, vs);
    lemma_last_at_place(empty_fabric(local_node), all_endpoints(vs), k);
}

} // verus!
