//! The fabric map and its configuration.

use andromeda::addr::Ipv4Addr;
use andromeda::config::{ConfigError, NodeConfig, RawConfig, RawEndpoint, RawVpc};
use andromeda::control::{Endpoint, Fabric, NextHop, Vpc};
use andromeda::ethernet::MacAddr;

fn ip(s: &str) -> Ipv4Addr {
    s.parse().unwrap()
}

fn mac(n: u8) -> MacAddr {
    MacAddr([0x02, 0, 0, 0, 0, n])
}

#[test]
fn cidr_membership() {
    let vpc = Vpc { vni: 100, name: "web".into(), cidr: (ip("10.0.0.0"), 24) };
    assert!(vpc.contains(ip("10.0.0.42")));
    assert!(!vpc.contains(ip("10.0.1.1")));
}

#[test]
fn cidr_lengths() {
    let at = |len: u8| Vpc { vni: 1, name: String::new(), cidr: (ip("10.0.0.1"), len) };
    assert!(at(0).contains(ip("255.255.255.255")));
    assert!(at(1).contains(ip("127.255.255.255")));
    assert!(!at(1).contains(ip("128.0.0.0")));
    assert!(at(32).contains(ip("10.0.0.1")));
    assert!(!at(32).contains(ip("10.0.0.0")));
    assert!(at(31).contains(ip("10.0.0.0")));
}

#[test]
fn resolve_across_nodes() {
    let mut fab = Fabric::new(ip("192.168.1.1"));
    fab.add_vpc(Vpc { vni: 100, name: "web".into(), cidr: (ip("10.0.0.0"), 24) });
    // Local endpoint on this node.
    fab.add_endpoint(Endpoint {
        vni: 100,
        inner_ip: ip("10.0.0.10"),
        inner_mac: mac(0x10),
        node_ip: ip("192.168.1.1"),
        local: true,
    });
    // Remote endpoint on another node.
    fab.add_endpoint(Endpoint {
        vni: 100,
        inner_ip: ip("10.0.0.20"),
        inner_mac: mac(0x20),
        node_ip: ip("192.168.1.2"),
        local: false,
    });

    let nh = fab.resolve(100, ip("10.0.0.20")).unwrap();
    assert_eq!(nh.node_ip, ip("192.168.1.2"));
    assert_eq!(nh.inner_mac, mac(0x20));
    assert!(!nh.local);

    let local = fab.resolve(100, ip("10.0.0.10")).unwrap();
    assert!(local.local);

    // Unknown inner IP and wrong VNI both miss.
    assert!(fab.resolve(100, ip("10.0.0.99")).is_none());
    assert!(fab.resolve(200, ip("10.0.0.20")).is_none());
    assert_eq!(fab.local_endpoints().iter().count(), 1);
}

#[test]
fn fabric_replaces_and_counts() {
    let mut fab = Fabric::new(ip("192.168.1.1"));
    assert_eq!(fab.local_node_ip, ip("192.168.1.1"));
    let mut ep = Endpoint {
        vni: 7,
        inner_ip: ip("10.0.0.1"),
        inner_mac: mac(1),
        node_ip: ip("192.168.1.1"),
        local: true,
    };
    fab.add_endpoint(ep);
    ep.vni = 8;
    fab.add_endpoint(ep);
    assert_eq!(fab.endpoint_count(), 2);
    assert_eq!(fab.local_endpoints().len(), 2);
    ep.local = false;
    ep.node_ip = ip("192.168.1.9");
    fab.add_endpoint(ep);
    assert_eq!(fab.endpoint_count(), 2);
    assert_eq!(fab.local_endpoints().len(), 1);
    assert_eq!(
        fab.resolve(8, ip("10.0.0.1")),
        Some(NextHop { node_ip: ip("192.168.1.9"), inner_mac: mac(1), local: false })
    );
    assert!(fab.resolve(7, ip("10.0.0.1")).unwrap().local);

    assert!(fab.vpc(7).is_none());
    let web = Vpc { vni: 7, name: "web".into(), cidr: (ip("10.0.0.0"), 8) };
    fab.add_vpc(web.clone());
    fab.add_vpc(Vpc { name: "db".into(), ..web });
    assert_eq!(fab.vpc(7).unwrap().name, "db");
    assert!(fab.vpc(8).is_none());
}

// ---- configuration ----------------------------------------------------------

fn text(t: &toml::Table, key: &str) -> Option<String> {
    t.get(key).map(|v| v.as_str().unwrap().to_string())
}

fn tables<'a>(t: &'a toml::Table, key: &str) -> Vec<&'a toml::Table> {
    match t.get(key) {
        Some(v) => v.as_array().unwrap().iter().map(|e| e.as_table().unwrap()).collect(),
        None => Vec::new(),
    }
}

fn endpoints(t: &toml::Table) -> Vec<RawEndpoint> {
    tables(t, "endpoint")
        .into_iter()
        .map(|e| RawEndpoint {
            inner_ip: text(e, "inner_ip").unwrap(),
            inner_mac: text(e, "inner_mac").unwrap(),
            node_ip: text(e, "node_ip").unwrap(),
            local: e.get("local").map(|v| v.as_bool().unwrap()).unwrap_or(false),
        })
        .collect()
}

fn vni(t: &toml::Table) -> Option<u32> {
    t.get("vni").map(|v| v.as_integer().unwrap() as u32)
}

/// Reads a TOML document.
fn raw(doc: &str) -> RawConfig {
    let t: toml::Table = doc.parse().unwrap();
    RawConfig {
        local_node: text(&t, "local_node").unwrap(),
        peer_node: text(&t, "peer_node"),
        vni: vni(&t),
        virtual_gateway_mac: text(&t, "virtual_gateway_mac"),
        nat_ip: text(&t, "nat_ip"),
        vpc_cidr: text(&t, "vpc_cidr"),
        endpoints: endpoints(&t),
        vpcs: tables(&t, "vpc")
            .into_iter()
            .map(|v| RawVpc { vni: vni(v).unwrap(), cidr: text(v, "cidr"), endpoints: endpoints(v) })
            .collect(),
    }
}

fn parse(doc: &str) -> Result<NodeConfig, ConfigError> {
    NodeConfig::parse(&raw(doc))
}

const SAMPLE: &str = r#"
    local_node          = "192.168.1.1"
    peer_node           = "192.168.1.2"
    vni                 = 100
    virtual_gateway_mac = "02:00:00:00:00:ff"
    nat_ip              = "203.0.113.7"
    vpc_cidr            = "10.0.0.0/24"

    [[endpoint]]
    inner_ip  = "10.0.0.10"
    inner_mac = "aa:bb:cc:00:00:10"
    node_ip   = "192.168.1.1"
    local     = true

    [[endpoint]]
    inner_ip  = "10.0.0.20"
    inner_mac = "aa:bb:cc:00:00:20"
    node_ip   = "192.168.1.2"
"#;

#[test]
fn parses_full_config() {
    let c = parse(SAMPLE).unwrap();
    assert_eq!(c.local_node, ip("192.168.1.1"));
    assert_eq!(c.peer_node, Some(ip("192.168.1.2")));
    assert_eq!(c.vni, 100);
    assert_eq!(c.virtual_gateway_mac, MacAddr([0x02, 0, 0, 0, 0, 0xff]));
    assert_eq!(c.nat_ip, Some(ip("203.0.113.7")));
    assert_eq!(c.endpoints.len(), 2);

    let fab = c.build_fabric();
    let nh = fab.resolve(100, ip("10.0.0.20")).unwrap();
    assert_eq!(nh.node_ip, ip("192.168.1.2"));
    assert_eq!(nh.inner_mac, "aa:bb:cc:00:00:20".parse::<MacAddr>().unwrap());
    // Flat form is one VPC.
    assert_eq!(c.served_vnis(), vec![100]);
    assert_eq!(c.vpc_cidr, (ip("10.0.0.0"), 24));
    assert_eq!(fab.vpc(100).unwrap().name, "vpc-100");
    assert_eq!(fab.local_endpoints(), vec![c.clone().endpoints[0]]);
}

#[test]
fn multi_vpc_parses_and_isolates_overlapping_ips() {
    // Two tenants that BOTH use 10.0.0.5 — kept apart only by their VNI.
    let toml = r#"
        local_node          = "192.168.1.1"
        virtual_gateway_mac = "02:00:00:00:00:ff"

        [[vpc]]
        vni  = 100
        cidr = "10.0.0.0/24"
        [[vpc.endpoint]]
        inner_ip  = "10.0.0.5"
        inner_mac = "aa:bb:cc:00:01:05"
        node_ip   = "192.168.1.2"

        [[vpc]]
        vni  = 200
        cidr = "10.0.0.0/24"
        [[vpc.endpoint]]
        inner_ip  = "10.0.0.5"
        inner_mac = "aa:bb:cc:00:02:05"
        node_ip   = "192.168.1.3"
    "#;
    let c = parse(toml).unwrap();
    assert_eq!(c.served_vnis(), vec![100, 200]);
    assert_eq!(c.endpoints.len(), 2);
    assert_eq!(c.vni, 100); // primary

    let fab = c.build_fabric();
    // Same inner IP, different VNI → different physical node. Tenant isolation.
    let a = fab.resolve(100, ip("10.0.0.5")).unwrap();
    let b = fab.resolve(200, ip("10.0.0.5")).unwrap();
    assert_eq!(a.node_ip, ip("192.168.1.2"));
    assert_eq!(b.node_ip, ip("192.168.1.3"));
    assert_ne!(a.node_ip, b.node_ip);
    assert_ne!(a.inner_mac, b.inner_mac);
}

#[test]
fn config_without_vni_or_vpc_is_rejected() {
    let err = parse("local_node = \"192.168.1.1\"\n").unwrap_err();
    assert!(err.to_string().contains("vni") || err.to_string().contains("vpc"));
    assert_eq!(
        err.to_string(),
        "config error: config needs a `vni` or at least one `[[vpc]]`"
    );
}

#[test]
fn minimal_config_defaults() {
    let c = parse("local_node = \"192.168.1.1\"\nvni = 7\n").unwrap();
    assert_eq!(c.vni, 7);
    assert_eq!(c.virtual_gateway_mac, MacAddr([0x02, 0, 0, 0, 0, 0xff]));
    assert!(c.peer_node.is_none());
    assert!(c.endpoints.is_empty());
    assert_eq!(c.vpc_cidr.1, 0);
}

#[test]
fn rejects_bad_ip() {
    let err = parse("local_node = \"nope\"\nvni = 1\n").unwrap_err();
    assert!(err.to_string().contains("local_node"));
    assert_eq!(err.to_string(), "config error: bad local_node: nope");
}

#[test]
fn every_field_is_checked() {
    let fault = |from: &str, to: &str| parse(&SAMPLE.replacen(from, to, 1)).unwrap_err().0;
    assert_eq!(fault("\"192.168.1.2\"", "\"x\""), "bad peer_node: x");
    assert_eq!(fault("203.0.113.7", "203.0.113"), "bad nat_ip: 203.0.113");
    assert_eq!(fault("02:00:00:00:00:ff", "02"), "bad virtual_gateway_mac: 02");
    assert_eq!(fault("10.0.0.0/24", "10.0.0.0"), "bad cidr: 10.0.0.0");
    assert_eq!(fault("10.0.0.0/24", "10.0.0/24"), "bad vpc_cidr: 10.0.0");
    assert_eq!(fault("10.0.0.0/24", "10.0.0.0/x"), "bad cidr prefix: 10.0.0.0/x");
    assert_eq!(fault("10.0.0.0/24", "10.0.0.0/24/8"), "bad cidr prefix: 10.0.0.0/24/8");
    assert_eq!(fault("10.0.0.0/24", "10.0.0.0/33"), "cidr prefix out of range: 10.0.0.0/33");
    assert_eq!(fault("10.0.0.20", "10.0.0.256"), "bad endpoint.inner_ip: 10.0.0.256");
    assert_eq!(fault("aa:bb:cc:00:00:20", "aa:bb"), "bad endpoint.inner_mac: aa:bb");
    // The node address of the first endpoint is the second mention of the local node.
    let doc = SAMPLE.replace("node_ip   = \"192.168.1.1\"", "node_ip   = \"?\"");
    assert_eq!(parse(&doc).unwrap_err().0, "bad endpoint.node_ip: ?");
    // A plus sign is fine in a prefix length, and so is the whole range.
    let c = parse(&SAMPLE.replace("10.0.0.0/24", "10.0.0.0/+32")).unwrap();
    assert_eq!(c.vpc_cidr, (ip("10.0.0.0"), 32));
}
