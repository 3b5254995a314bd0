//! What a fabric knows, which documents describe one, and what the command line sets.

use vstd::arithmetic::power2::pow2;
use vstd::prelude::*;
use crate::addr::{ipv4_text, Ipv4Addr};
use crate::afxdp::{Mode, XdpMode};
use crate::cli::{
    command_named, datagram, default_settings, demo_bytes, flag_named, is_dashed, mode_named,
    options_from, ArgError, Command, Flag, RunSettings,
};
use crate::config::{
    all_endpoints, cidr_error, cidr_of, config_error, endpoint_error, endpoints_error, fabric_of,
    is_first, network_error, networks_error, networks_of, slash_in, with_endpoints, NodeConfig,
    RawConfig, RawEndpoint, RawNetwork, VpcSpec,
};
use crate::control::{empty_fabric, in_network, place_of, Endpoint, FabricState, Network, Place};
use crate::ethernet::mac_text;
use crate::laws::packets::{law_ethernet_layout, law_ipv4_layout, law_udp_layout};
use crate::text::{decimal, u8_text, uint_text};
use crate::translate::state::fresh_engine;
use crate::udp::udp_checksum;
use crate::wire::{be16, be32, lemma_be16_read};

verus! {

broadcast use crate::wire::group_field_lengths;

/// **An address is in a network if it starts with the same bits**: both give the same number
/// when divided by the size of the network. Every address is in a network without a prefix.
pub proof fn law_membership(ip: Ipv4Addr, net: Ipv4Addr, len: u8)
    ensures
        len == 0 || len > 32 ==> in_network(ip, net, len),
        1 <= len <= 32 ==> (in_network(ip, net, len) <==> ip.bits as nat / pow2(
            (32 - len) as nat,
        ) == net.bits as nat / pow2((32 - len) as nat)),
        len == 32 ==> (in_network(ip, net, len) <==> ip == net),
{
    if 1 <= len <= 32 {
        let rest: u32 = (32 - len) as u32;
        vstd::bits::lemma_u32_shr_is_div(ip.bits, rest);
        vstd::bits::lemma_u32_shr_is_div(net.bits, rest);
        vstd::arithmetic::power2::lemma2_to64();
        assert(ip.bits as nat / 1nat == ip.bits && net.bits as nat / 1nat == net.bits);
    }
}

/// **A fabric keeps what was added last under each key**, and everything under other keys.
pub proof fn law_fabric(f: FabricState, vpc: Network, ep: Endpoint, id: u32, at: Place)
    ensures
        ({
            let g = f.with_vpc(vpc);
            &&& g.local_node_ip == f.local_node_ip
            &&& g.endpoints == f.endpoints
            &&& g.vpcs.contains_key(vpc.vni) && g.vpcs[vpc.vni] == vpc
            &&& id != vpc.vni ==> (g.vpcs.contains_key(id) <==> f.vpcs.contains_key(id))
            &&& id != vpc.vni && f.vpcs.contains_key(id) ==> g.vpcs[id] == f.vpcs[id]
        }),
        ({
            let g = f.with_endpoint(ep);
            let here = (ep.vni, ep.inner_ip);
            &&& g.local_node_ip == f.local_node_ip
            &&& g.vpcs == f.vpcs
            &&& g.endpoints.contains_key(here) && g.endpoints[here] == ep
            &&& at != here ==> (g.endpoints.contains_key(at) <==> f.endpoints.contains_key(at))
            &&& at != here && f.endpoints.contains_key(at) ==> g.endpoints[at] == f.endpoints[at]
        }),
        f.next_hop(at.0, at.1) is Some <==> f.endpoints.contains_key(at),
        f.next_hop(at.0, at.1) matches Some(hop) ==> {
            &&& hop.node_ip == f.endpoints[at].node_ip
            &&& hop.inner_mac == f.endpoints[at].inner_mac
            &&& hop.local == f.endpoints[at].local
        },
        f.has_local(ep) <==> ep.local && f.endpoints.contains_key((ep.vni, ep.inner_ip))
            && f.endpoints[(ep.vni, ep.inner_ip)] == ep,
        ({
            let none = empty_fabric(f.local_node_ip);
            &&& none.local_node_ip == f.local_node_ip
            &&& !none.vpcs.contains_key(id)
            &&& !none.endpoints.contains_key(at)
        }),
{
    assert(at == (at.0, at.1));
}

/// **An address range is an address, a slash and a prefix length up to 32.** What is wrong
/// with it is said in this order.
pub proof fn law_ranges(net: Seq<char>, len: Seq<char>, s: Seq<char>)
    requires
        !net.contains('/'),
        !s.contains('/'),
    ensures
        cidr_error(s) == Some("bad cidr: "@ + s),
        ({
            let text = net.push('/') + len;
            let bits = u8_text(len, 10);
            &&& cidr_error(text) is None <==> ipv4_text(net) is Some && bits is Some
                && bits.unwrap() <= 32
            &&& cidr_error(text) is None ==> cidr_of(text) == (
                ipv4_text(net).unwrap(),
                bits.unwrap(),
            )
            &&& ipv4_text(net) is None ==> cidr_error(text) == Some(
                "bad "@ + "vpc_cidr"@ + ": "@ + net,
            )
            &&& ipv4_text(net) is Some && bits is None ==> cidr_error(text) == Some(
                "bad cidr prefix: "@ + text,
            )
            &&& ipv4_text(net) is Some && bits is Some && bits.unwrap() > 32 ==> cidr_error(text)
                == Some("cidr prefix out of range: "@ + text)
        }),
{
    let text = net.push('/') + len;
    let n = net.len() as int;
    assert(text.take(n) =~= net);
    assert(text[n] == '/');
    assert(is_first(text, '/', n));
    let at = slash_in(text);
    assert(is_first(text, '/', at));
    if at < n {
        assert(text.take(n)[at] == '/');
    } else if at > n {
        assert(text.take(at)[n] == '/');
    }
    assert(text.skip(n + 1) =~= len);
}

/// Whether the three addresses of the block `e` can be read.
pub open spec fn readable(e: RawEndpoint) -> bool {
    ipv4_text(e.inner_ip@) is Some && mac_text(e.inner_mac@) is Some && ipv4_text(e.node_ip@) is Some
}

/// Whether the range and the blocks of a network can be read.
pub open spec fn sound(n: RawNetwork) -> bool {
    &&& n.cidr matches Some(s) ==> cidr_error(s) is None
    &&& forall|i: int| 0 <= i < n.endpoints.len() ==> readable(#[trigger] n.endpoints[i])
}

/// **What is wrong with a list of blocks is what is wrong with its first bad one.**
pub proof fn law_first_bad_block(es: Seq<RawEndpoint>, k: int)
    ensures
        endpoints_error(es) is None <==> forall|i: int|
            0 <= i < es.len() ==> readable(#[trigger] es[i]),
        0 <= k < es.len() && !readable(es[k]) && (forall|i: int|
            0 <= i < k ==> readable(#[trigger] es[i])) ==> {
            let e = es[k];
            endpoints_error(es) == if ipv4_text(e.inner_ip@) is None {
                Some("bad "@ + "endpoint.inner_ip"@ + ": "@ + e.inner_ip@)
            } else if mac_text(e.inner_mac@) is None {
                Some("bad endpoint.inner_mac: "@ + e.inner_mac@)
            } else {
                Some("bad "@ + "endpoint.node_ip"@ + ": "@ + e.node_ip@)
            }
        },
    decreases es.len(),
{
    if es.len() > 0 {
        let front = es.drop_last();
        law_first_bad_block(front, k);
        let m = es.len() - 1;
        assert(endpoint_error(es[m]) is None <==> readable(es[m]));
        assert forall|i: int| 0 <= i < m implies #[trigger] front[i] == es[i] by {}
        if endpoints_error(es) is None {
            assert forall|i: int| 0 <= i < es.len() implies readable(#[trigger] es[i]) by {
                if i < m {
                    assert(readable(front[i]));
                }
            }
        }
        if forall|i: int| 0 <= i < es.len() ==> readable(#[trigger] es[i]) {
            assert forall|i: int| 0 <= i < front.len() implies readable(#[trigger] front[i]) by {
                assert(readable(es[i]));
            }
            assert(readable(es[m]));
        }
        if 0 <= k < es.len() && !readable(es[k]) && (forall|i: int|
            0 <= i < k ==> readable(#[trigger] es[i])) {
            if k < m {
                assert(!readable(front[k]));
                assert forall|i: int| 0 <= i < k implies readable(#[trigger] front[i]) by {
                    assert(readable(es[i]));
                }
            } else {
                assert forall|i: int| 0 <= i < front.len() implies readable(#[trigger] front[i]) by {
                    assert(readable(es[i]));
                }
            }
        }
    }
}

/// **What is wrong with a list of networks is what is wrong with its first bad one**: its
/// range, or else its blocks.
pub proof fn law_first_bad_network(ns: Seq<RawNetwork>, k: int)
    ensures
        networks_error(ns) is None <==> forall|i: int| 0 <= i < ns.len() ==> sound(#[trigger] ns[i]),
        0 <= k < ns.len() && !sound(ns[k]) && (forall|i: int|
            0 <= i < k ==> sound(#[trigger] ns[i])) ==> networks_error(ns) == if ns[k].cidr is Some
            && cidr_error(ns[k].cidr.unwrap()) is Some {
            cidr_error(ns[k].cidr.unwrap())
        } else {
            endpoints_error(ns[k].endpoints)
        },
    decreases ns.len(),
{
    if ns.len() > 0 {
        let front = ns.drop_last();
        law_first_bad_network(front, k);
        let m = ns.len() - 1;
        law_first_bad_block(ns[m].endpoints, 0);
        assert(network_error(ns[m]) is None <==> sound(ns[m]));
        assert forall|i: int| 0 <= i < m implies #[trigger] front[i] == ns[i] by {}
        if networks_error(ns) is None {
            assert forall|i: int| 0 <= i < ns.len() implies sound(#[trigger] ns[i]) by {
                if i < m {
                    assert(sound(front[i]));
                }
            }
        }
        if forall|i: int| 0 <= i < ns.len() ==> sound(#[trigger] ns[i]) {
            assert forall|i: int| 0 <= i < front.len() implies sound(#[trigger] front[i]) by {
                assert(sound(ns[i]));
            }
            assert(sound(ns[m]));
        }
        if 0 <= k < ns.len() && !sound(ns[k]) && (forall|i: int|
            0 <= i < k ==> sound(#[trigger] ns[i])) {
            if k < m {
                assert(!sound(front[k]));
                assert forall|i: int| 0 <= i < k implies sound(#[trigger] front[i]) by {
                    assert(sound(ns[i]));
                }
            } else {
                assert forall|i: int| 0 <= i < front.len() implies sound(#[trigger] front[i]) by {
                    assert(sound(ns[i]));
                }
            }
        }
    }
}

/// **The networks of a document** are its blocks, in order, or else what it says of one
/// network at its top level.
pub proof fn law_networks_of_a_document(raw: RawConfig, i: int)
    ensures
        raw.vpcs@.len() > 0 ==> networks_of(raw).len() == raw.vpcs@.len(),
        raw.vpcs@.len() > 0 && 0 <= i < raw.vpcs@.len() ==> {
            let n = networks_of(raw)[i];
            &&& n.vni == raw.vpcs@[i].vni
            &&& n.endpoints == raw.vpcs@[i].endpoints@
            &&& n.cidr is Some <==> raw.vpcs@[i].cidr is Some
            &&& raw.vpcs@[i].cidr matches Some(s) ==> n.cidr == Some(s@)
        },
        raw.vpcs@.len() == 0 && raw.vni is Some ==> {
            let n = networks_of(raw)[0];
            &&& networks_of(raw).len() == 1
            &&& n.vni == raw.vni.unwrap()
            &&& n.endpoints == raw.endpoints@
            &&& n.cidr is Some <==> raw.vpc_cidr is Some
            &&& raw.vpc_cidr matches Some(s) ==> n.cidr == Some(s@)
        },
{
}

/// **A document is accepted if and only if everything in it can be read** and it has a
/// network. Otherwise its first fault is named, from the node's own address down to the
/// networks.
pub proof fn law_documents(raw: RawConfig)
    ensures
        ({
            let local = ipv4_text(raw.local_node@) is Some;
            let peer = raw.peer_node matches Some(s) ==> ipv4_text(s@) is Some;
            let outer = raw.nat_ip matches Some(s) ==> ipv4_text(s@) is Some;
            let gateway = raw.virtual_gateway_mac matches Some(s) ==> mac_text(s@) is Some;
            let any = raw.vpcs@.len() > 0 || raw.vni is Some;
            let e = config_error(raw);
            &&& e is None <==> local && peer && outer && gateway && any && forall|i: int|
                0 <= i < networks_of(raw).len() ==> sound(#[trigger] networks_of(raw)[i])
            &&& !local ==> e == Some("bad "@ + "local_node"@ + ": "@ + raw.local_node@)
            &&& local && !peer ==> e == Some(
                "bad "@ + "peer_node"@ + ": "@ + raw.peer_node.unwrap()@,
            )
            &&& local && peer && !outer ==> e == Some(
                "bad "@ + "nat_ip"@ + ": "@ + raw.nat_ip.unwrap()@,
            )
            &&& local && peer && outer && !gateway ==> e == Some(
                "bad virtual_gateway_mac: "@ + raw.virtual_gateway_mac.unwrap()@,
            )
            &&& local && peer && outer && gateway && !any ==> e == Some(
                "config needs a `vni` or at least one `[[vpc]]`"@,
            )
            &&& local && peer && outer && gateway && any ==> e == networks_error(networks_of(raw))
        }),
{
    law_first_bad_network(networks_of(raw), 0);
}

/// **A configuration holds what the document says**: the addresses that its texts write,
/// the gateway MAC `02:00:00:00:00:ff` where none is written, all addresses where no range
/// is written, and of each network each endpoint, in order, under the id of the network.
pub proof fn law_configuration(c: NodeConfig, raw: RawConfig, i: int, j: int)
    requires
        c.describes(raw),
        config_error(raw) is None,
        0 <= i < networks_of(raw).len(),
    ensures
        Some(c.local_node) == ipv4_text(raw.local_node@),
        c.peer_node is Some <==> raw.peer_node is Some,
        raw.peer_node matches Some(s) ==> c.peer_node == ipv4_text(s@),
        c.nat_ip is Some <==> raw.nat_ip is Some,
        raw.nat_ip matches Some(s) ==> c.nat_ip == ipv4_text(s@),
        match raw.virtual_gateway_mac {
            Some(s) => mac_text(s@) == Some(c.virtual_gateway_mac@),
            None => c.virtual_gateway_mac@ == seq![2u8, 0u8, 0u8, 0u8, 0u8, 0xffu8],
        },
        c.vpcs@.len() == networks_of(raw).len(),
        c.vni == networks_of(raw)[0].vni,
        c.vpc_cidr == c.vpcs@[0].cidr,
        ({
            let (v, n) = (c.vpcs@[i], networks_of(raw)[i]);
            &&& v.vni == n.vni
            &&& match n.cidr {
                Some(s) => v.cidr == cidr_of(s),
                None => v.cidr.0.bits == 0 && v.cidr.1 == 0,
            }
            &&& v.endpoints@.len() == n.endpoints.len()
            &&& 0 <= j < n.endpoints.len() ==> {
                let (ep, e) = (v.endpoints@[j], n.endpoints[j]);
                &&& ep.vni == n.vni
                &&& Some(ep.inner_ip) == ipv4_text(e.inner_ip@)
                &&& Some(ep.inner_mac@) == mac_text(e.inner_mac@)
                &&& Some(ep.node_ip) == ipv4_text(e.node_ip@)
                &&& ep.local == e.local
            }
        }),
        c.endpoints@ == all_endpoints(c.vpcs@),
{
    law_documents(raw);
    assert(crate::config::is_network(c.vpcs@[0], networks_of(raw)[0]));
    assert(crate::config::is_network(c.vpcs@[i], networks_of(raw)[i]));
}

/// **The endpoints of all networks** are those of the first, then those of the next.
pub proof fn law_all_endpoints(vs: Seq<VpcSpec>, v: VpcSpec)
    ensures
        all_endpoints(Seq::empty()).len() == 0,
        all_endpoints(vs.push(v)) == all_endpoints(vs) + v.endpoints@,
{
    assert(vs.push(v).drop_last() =~= vs);
}

proof fn lemma_added_endpoints(f: FabricState, es: Seq<Endpoint>, at: Place)
    ensures
        with_endpoints(f, es).vpcs == f.vpcs,
        with_endpoints(f, es).local_node_ip == f.local_node_ip,
        with_endpoints(f, es).endpoints.contains_key(at) <==> f.endpoints.contains_key(at) || exists|
            k: int,
        |
            0 <= k < es.len() && place_of(#[trigger] es[k]) == at,
    decreases es.len(),
{
    if es.len() > 0 {
        let front = es.drop_last();
        lemma_added_endpoints(f, front, at);
        if exists|k: int| 0 <= k < front.len() && place_of(#[trigger] front[k]) == at {
            let k = choose|k: int| 0 <= k < front.len() && place_of(#[trigger] front[k]) == at;
            assert(place_of(es[k]) == at);
        }
        if exists|k: int| 0 <= k < es.len() && place_of(#[trigger] es[k]) == at {
            let k = choose|k: int| 0 <= k < es.len() && place_of(#[trigger] es[k]) == at;
            if k < front.len() {
                assert(place_of(front[k]) == at);
            }
        }
        assert(place_of(es[es.len() - 1]) == place_of(es.last()));
    }
}

/// **A fabric knows the networks of its configuration**, each under its id and named after
/// it, the last one where two have the same id; and no others.
pub proof fn law_configured_networks(local_node: Ipv4Addr, vs: Seq<VpcSpec>, k: int, id: u32)
    ensures
        fabric_of(local_node, vs).local_node_ip == local_node,
        0 <= k < vs.len() && vs[k].vni == id && (forall|j: int|
            k < j < vs.len() ==> (#[trigger] vs[j]).vni != id) ==> {
            let f = fabric_of(local_node, vs);
            &&& f.vpcs.contains_key(id)
            &&& f.vpcs[id].vni == id
            &&& f.vpcs[id].name == "vpc-"@ + decimal(id as nat)
            &&& f.vpcs[id].cidr == vs[k].cidr
        },
        (forall|j: int| 0 <= j < vs.len() ==> (#[trigger] vs[j]).vni != id) ==> !fabric_of(
            local_node,
            vs,
        ).vpcs.contains_key(id),
    decreases vs.len(),
{
    if vs.len() > 0 {
        let (front, v) = (vs.drop_last(), vs.last());
        let m = vs.len() - 1;
        law_configured_networks(local_node, front, k, id);
        let f = fabric_of(local_node, front).with_vpc(crate::config::vpc_of(v));
        lemma_added_endpoints(f, v.endpoints@, (0u32, local_node));
        assert(vs[m] == v);
        assert forall|j: int| 0 <= j < front.len() implies #[trigger] front[j] == vs[j] by {}
        if 0 <= k < m && vs[k].vni == id && (forall|j: int|
            k < j < vs.len() ==> (#[trigger] vs[j]).vni != id) {
            assert(v.vni != id);
            assert forall|j: int| k < j < front.len() implies (#[trigger] front[j]).vni != id by {
                assert(vs[j].vni != id);
            }
        }
        if forall|j: int| 0 <= j < vs.len() ==> (#[trigger] vs[j]).vni != id {
            assert forall|j: int| 0 <= j < front.len() implies (#[trigger] front[j]).vni != id by {
                assert(vs[j].vni != id);
            }
        }
    }
}

/// **A fabric resolves no address but those of its endpoints.**
pub proof fn law_nothing_else_resolves(local_node: Ipv4Addr, vs: Seq<VpcSpec>, at: Place)
    requires
        forall|k: int|
            0 <= k < all_endpoints(vs).len() ==> ((#[trigger] all_endpoints(vs)[k]).vni != at.0
                || all_endpoints(vs)[k].inner_ip != at.1),
    ensures
        !fabric_of(local_node, vs).endpoints.contains_key(at),
        fabric_of(local_node, vs).next_hop(at.0, at.1) is None,
{
    crate::config::lemma_fabric_endpoints(local_node, vs);
    lemma_added_endpoints(empty_fabric(local_node), all_endpoints(vs), at);
    assert(at == (at.0, at.1));
}

/// **The commands by their names**; without one, the version is shown.
pub proof fn law_commands(s: Seq<char>)
    ensures
        command_named(None) == Command::Version,
        command_named(Some(s)) == Command::SelfTest <==> s == "selftest"@,
        command_named(Some(s)) == Command::Run <==> s == "run"@,
        command_named(Some(s)) == Command::Version <==> s == "version"@ || s == "--version"@,
        command_named(Some(s)) == Command::Help <==> s == "help"@ || s == "--help"@ || s == "-h"@,
{
    reveal_strlit("selftest");
    reveal_strlit("run");
    reveal_strlit("version");
    reveal_strlit("--version");
    reveal_strlit("help");
    reveal_strlit("--help");
    reveal_strlit("-h");
    let names = (
        "selftest"@.len(),
        "run"@.len(),
        "version"@.len(),
        "--version"@.len(),
        "help"@.len(),
        "--help"@.len(),
        "-h"@.len(),
    );
    assert(names == (8nat, 3nat, 7nat, 9nat, 4nat, 6nat, 2nat));
}

/// **Without options**, frames of queue 0 are shown, in batches of 64, for ever; the
/// network is 100, from 192.168.1.1 to 192.168.1.2.
pub proof fn law_without_options(args: Seq<String>, s: RunSettings)
    ensures
        options_from(args, args.len() as int, s) == Ok::<RunSettings, ArgError>(s),
        ({
            let d = default_settings();
            &&& d.queue == 0
            &&& d.mode == Mode::Dump
            &&& d.vni == 100
            &&& ipv4_is(d.local_node, 192, 168, 1, 1)
            &&& ipv4_is(d.peer_node, 192, 168, 1, 2)
            &&& d.nat_ip is None
            &&& d.max_packets is None
            &&& d.max_secs is None
            &&& d.batch == 64
            &&& d.xdp_mode == XdpMode::Auto
        }),
{
}

/// Whether `ip` is the address `a.b.c.d`.
pub open spec fn ipv4_is(ip: Ipv4Addr, a: int, b: int, c: int, d: int) -> bool {
    ip.bits == ((a * 256 + b) * 256 + c) * 256 + d
}

/// **An interface is a first argument that does not start with two dashes.**
pub proof fn law_interface(s: Seq<char>)
    ensures
        is_dashed(s) <==> s.len() >= 2 && s.take(2) == "--"@,
{
    reveal_strlit("--");
    if is_dashed(s) {
        assert(s.take(2) =~= "--"@);
    }
    if s.len() >= 2 && s.take(2) == "--"@ {
        assert(s.take(2)[0] == s[0] && s.take(2)[1] == s[1]);
    }
}

/// Whether `s` is an option that takes a value.
pub open spec fn takes_value(s: Seq<char>) -> bool {
    ||| s == "--queue"@
    ||| s == "--mode"@
    ||| s == "--vni"@
    ||| s == "--local-node"@
    ||| s == "--peer-node"@
    ||| s == "--nat-ip"@
    ||| s == "--count"@
    ||| s == "--secs"@
    ||| s == "--batch"@
}

/// Whether the options from `i` on have the effect that those from `k` on have on `after`.
pub open spec fn goes_on(
    args: Seq<String>,
    i: int,
    s: RunSettings,
    k: int,
    after: RunSettings,
) -> bool {
    options_from(args, i, s) == options_from(args, k, after)
}

proof fn lemma_flags(t: Seq<char>)
    ensures
        t == "--queue"@ ==> flag_named(t) == Some(Flag::Queue),
        t == "--mode"@ ==> flag_named(t) == Some(Flag::Mode),
        t == "--vni"@ ==> flag_named(t) == Some(Flag::Vni),
        t == "--local-node"@ ==> flag_named(t) == Some(Flag::LocalNode),
        t == "--peer-node"@ ==> flag_named(t) == Some(Flag::PeerNode),
        t == "--nat-ip"@ ==> flag_named(t) == Some(Flag::NatIp),
        t == "--count"@ ==> flag_named(t) == Some(Flag::Count),
        t == "--secs"@ ==> flag_named(t) == Some(Flag::Secs),
        t == "--batch"@ ==> flag_named(t) == Some(Flag::Batch),
        t == "--skb"@ ==> flag_named(t) == Some(Flag::Skb),
        t == "--drv"@ ==> flag_named(t) == Some(Flag::Drv),
        t != "--skb"@ && t != "--drv"@ && !takes_value(t) ==> flag_named(t) is None,
{
    reveal_strlit("--queue");
    reveal_strlit("--mode");
    reveal_strlit("--vni");
    reveal_strlit("--local-node");
    reveal_strlit("--peer-node");
    reveal_strlit("--nat-ip");
    reveal_strlit("--count");
    reveal_strlit("--secs");
    reveal_strlit("--batch");
    reveal_strlit("--skb");
    reveal_strlit("--drv");
    assert("--queue"@[2] == 'q' && "--mode"@[2] == 'm' && "--vni"@[2] == 'v');
    assert("--local-node"@[2] == 'l' && "--peer-node"@[2] == 'p' && "--nat-ip"@[2] == 'n');
    assert("--count"@[2] == 'c' && "--secs"@[2] == 's' && "--batch"@[2] == 'b');
    assert("--skb"@[2] == 's' && "--drv"@[2] == 'd');
    assert("--secs"@[3] == 'e' && "--skb"@[3] == 'k');
}

proof fn lemma_modes(v: Seq<char>)
    ensures
        v == "dump"@ ==> mode_named(v) == Some(Mode::Dump),
        v == "encap"@ ==> mode_named(v) == Some(Mode::Encap),
        v == "decap"@ ==> mode_named(v) == Some(Mode::Decap),
        v != "dump"@ && v != "encap"@ && v != "decap"@ ==> mode_named(v) is None,
{
    reveal_strlit("dump");
    reveal_strlit("encap");
    reveal_strlit("decap");
    assert("dump"@[1] == 'u' && "encap"@[1] == 'n' && "decap"@[1] == 'e');
}

/// **An option changes its own setting and no other**, and is the text of a number or of an
/// address, or names a mode. What is wrong is said of the option that it is wrong with.
pub proof fn law_options(args: Seq<String>, i: int, s: RunSettings)
    requires
        0 <= i < args.len() <= usize::MAX,
    ensures
        ({
            let t = args[i]@;
            let o = options_from(args, i, s);
            let v = args[i + 1]@;
            let small = uint_text(v, 10, 0xffff_ffff);
            let large = uint_text(v, 10, 0xffff_ffff_ffff_ffff);
            let ip = ipv4_text(v);
            let k = i + 2;
            &&& t == "--skb"@ ==> goes_on(
                args,
                i,
                s,
                i + 1,
                (RunSettings { xdp_mode: XdpMode::Skb, ..s }),
            )
            &&& t == "--drv"@ ==> goes_on(
                args,
                i,
                s,
                i + 1,
                (RunSettings { xdp_mode: XdpMode::Drv, ..s }),
            )
            &&& t != "--skb"@ && t != "--drv"@ && !takes_value(t) ==> o == Err::<
                RunSettings,
                ArgError,
            >(ArgError::UnknownOption(i as usize))
            &&& takes_value(t) && i + 1 == args.len() ==> o == Err::<RunSettings, ArgError>(
                ArgError::MissingValue(i as usize),
            )
            &&& takes_value(t) && i + 1 < args.len() ==> {
                let bad = o == Err::<RunSettings, ArgError>(ArgError::BadValue(i as usize));
                &&& t == "--queue"@ ==> match small {
                    Some(n) => goes_on(args, i, s, k, (RunSettings { queue: n as u32, ..s })),
                    None => bad,
                }
                &&& t == "--vni"@ ==> match small {
                    Some(n) => goes_on(args, i, s, k, (RunSettings { vni: n as u32, ..s })),
                    None => bad,
                }
                &&& t == "--batch"@ ==> match small {
                    Some(n) => goes_on(args, i, s, k, (RunSettings { batch: n as u32, ..s })),
                    None => bad,
                }
                &&& t == "--count"@ ==> match large {
                    Some(n) => goes_on(
                        args,
                        i,
                        s,
                        k,
                        (RunSettings { max_packets: Some(n as u64), ..s }),
                    ),
                    None => bad,
                }
                &&& t == "--secs"@ ==> match large {
                    Some(n) => goes_on(
                        args,
                        i,
                        s,
                        k,
                        (RunSettings { max_secs: Some(n as u64), ..s }),
                    ),
                    None => bad,
                }
                &&& t == "--local-node"@ ==> match ip {
                    Some(a) => goes_on(args, i, s, k, (RunSettings { local_node: a, ..s })),
                    None => bad,
                }
                &&& t == "--peer-node"@ ==> match ip {
                    Some(a) => goes_on(args, i, s, k, (RunSettings { peer_node: a, ..s })),
                    None => bad,
                }
                &&& t == "--nat-ip"@ ==> match ip {
                    Some(a) => goes_on(args, i, s, k, (RunSettings { nat_ip: Some(a), ..s })),
                    None => bad,
                }
                &&& t == "--mode"@ && v == "dump"@ ==> goes_on(
                    args,
                    i,
                    s,
                    k,
                    (RunSettings { mode: Mode::Dump, ..s }),
                )
                &&& t == "--mode"@ && v == "encap"@ ==> goes_on(
                    args,
                    i,
                    s,
                    k,
                    (RunSettings { mode: Mode::Encap, ..s }),
                )
                &&& t == "--mode"@ && v == "decap"@ ==> goes_on(
                    args,
                    i,
                    s,
                    k,
                    (RunSettings { mode: Mode::Decap, ..s }),
                )
                &&& t == "--mode"@ && v != "dump"@ && v != "encap"@ && v != "decap"@ ==> bad
            }
        }),
{
    lemma_flags(args[i]@);
    lemma_modes(args[i + 1]@);
}

/// **The translator of a forwarder** shows flows as the NAT address, or else as the node,
/// on ports from 20000 to 60000.
pub proof fn law_engine_of_settings(s: RunSettings)
    ensures
        s.engine() == fresh_engine(
            if s.nat_ip is Some {
                s.nat_ip.unwrap()
            } else {
                s.local_node
            },
            20000,
            60000,
        ),
{
}

proof fn lemma_layers(
    eth: Seq<u8>,
    ip: Seq<u8>,
    udp: Seq<u8>,
    dg: Seq<u8>,
    payload: Seq<u8>,
    f: Seq<u8>,
)
    requires
        eth.len() == 14,
        ip.len() == 20,
        udp.len() == 8,
        dg.len() == 8 + payload.len(),
        f == eth + ip + dg,
        dg.take(6) == udp.take(6),
        dg.skip(8) == payload,
    ensures
        f.len() == 42 + payload.len(),
        f.take(14) == eth,
        f.subrange(14, 34) == ip,
        f.subrange(34, 40) == udp.take(6),
        f.skip(42) == payload,
        forall|k: int| 0 <= k < 14 ==> #[trigger] f[k] == eth[k],
        f[40] == dg[6],
        f[41] == dg[7],
        forall|k: int| 14 <= k < 34 ==> #[trigger] f[k] == ip[k - 14],
        forall|k: int| 34 <= k < 40 ==> #[trigger] f[k] == udp[k - 34],
{
    assert(f.take(14) =~= eth);
    assert(f.subrange(14, 34) =~= ip);
    assert(f.subrange(34, 40) =~= dg.take(6));
    assert(f.skip(42) =~= dg.skip(8));
    assert forall|k: int| 34 <= k < 40 implies #[trigger] f[k] == udp[k - 34] by {
        assert(f[k] == dg.take(6)[k - 34]);
    }
}

/// **A trial frame, field by field**: between two fixed stations an IPv4 packet with a UDP
/// datagram from port 40000 to port 4242, whose checksums are those of what it holds.
pub proof fn law_demo_layout(src: Ipv4Addr, dst: Ipv4Addr, payload: Seq<u8>)
    requires
        payload.len() <= 0xffff - 28,
    ensures
        ({
            let f = demo_bytes(src, dst, payload);
            let n = payload.len();
            &&& f.len() == 42 + n
            &&& f.take(6) == seq![2u8, 0u8, 0u8, 0u8, 0u8, 11u8]
            &&& f.subrange(6, 12) == seq![2u8, 0u8, 0u8, 0u8, 0u8, 10u8]
            &&& f[12] == 8 && f[13] == 0
            &&& f[14] == 0x45 && f[15] == 0
            &&& be16(f, 16) == 28 + n
            &&& be16(f, 18) == 1
            &&& be16(f, 20) == 0x4000
            &&& f[22] == 64
            &&& f[23] == 17
            &&& crate::checksum::word_sum(f.subrange(14, 34)) % 0xffff == 0
            &&& be32(f, 26) == src.bits
            &&& be32(f, 30) == dst.bits
            &&& be16(f, 34) == 40000
            &&& be16(f, 36) == 4242
            &&& be16(f, 38) == 8 + n
            &&& be16(f, 40) == udp_checksum(
                src,
                dst,
                f.subrange(34, 40).push(0).push(0) + payload,
            )
            &&& f.skip(42) == payload
        }),
{
    let n = payload.len();
    let to = seq![2u8, 0u8, 0u8, 0u8, 0u8, 11u8];
    let from = seq![2u8, 0u8, 0u8, 0u8, 0u8, 10u8];
    law_ethernet_layout(to, from, 0x0800);
    law_ipv4_layout(src, dst, 17, 64, 1, true, (8 + n) as u16);
    law_udp_layout(40000, 4242, n as u16);
    let eth = crate::ethernet::eth_header(to, from, 0x0800);
    let ip = crate::ipv4::full_header(src, dst, 17, 64, 1, true, (8 + n) as u16);
    let udp = crate::udp::udp_header(40000, 4242, n as u16);
    let bare = udp + payload;
    let sum = udp_checksum(src, dst, bare);
    let dg = datagram(src, dst, 40000, 4242, payload);
    let f = demo_bytes(src, dst, payload);
    assert(dg == crate::wire::splice(bare, 6, crate::wire::be16_bytes(sum)));
    assert(dg.take(6) =~= udp.take(6));
    assert(dg.skip(8) =~= payload);
    lemma_layers(eth, ip, udp, dg, payload, f);
    lemma_be16_read(f, 40, sum);
    assert(f.take(6) =~= to);
    assert(f.subrange(6, 12) =~= from);
    assert(f.subrange(14, 34) =~= ip);
    assert(f.subrange(34, 40).push(0).push(0) + payload =~= bare);
    assert(f.skip(42) =~= payload);
}

} // verus!
